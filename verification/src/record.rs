//! The shape of a record: the table it is read from and the columns that are
//! selected, each with its name and declared type. A serialized row conforms
//! when it is one JSON object that holds exactly these columns, in this order,
//! each with a value of the declared type.

use crate::json::{
    kind_of, parse_document, parse_member, parse_members, Json, Kind, BACKSLASH, CLOSE_BRACE,
    COMMA, OPEN_BRACE, QUOTE, ROW_DEPTH,
};
use crate::scan::{lemma_members_bounds, scan_member};
use vstd::prelude::*;
use vstd::string::*;

verus! {

/// The declared type of a column.
#[derive(Clone, Copy, Debug, PartialEq, Eq, Structural)]
pub enum ColumnType {
    /// A whole number.
    Integer,
    /// Any number.
    Number,
    Text,
    Boolean,
    /// Any JSON value, `null` included.
    Json,
}

/// Why a column or a projection was refused.
#[derive(Clone, Copy, Debug, PartialEq, Eq, Structural)]
pub enum ProjectionError {
    /// A name holds a quote, a backslash or a control byte.
    InvalidName,
    /// Two columns have the same name.
    DuplicateName,
}

/// A column as the contracts see it.
pub struct ColumnModel {
    pub name: Seq<u8>,
    pub column_type: ColumnType,
    pub nullable: bool,
}

/// A name that needs no escape inside a JSON string, so that it reads there
/// as it is written.
pub open spec fn plain_name(name: Seq<u8>) -> bool {
    forall|i: int| 0 <= i < name.len() ==> plain_byte(#[trigger] name[i])
}

pub open spec fn plain_byte(b: u8) -> bool {
    b >= 0x20 && b != QUOTE && b != BACKSLASH
}

/// No two columns have the same name.
pub open spec fn distinct_names(columns: Seq<ColumnModel>) -> bool {
    forall|i: int, j: int|
        0 <= i < j < columns.len() ==> (#[trigger] columns[i]).name != (#[trigger] columns[j]).name
}

/// Whether a column takes a value of `kind`.
pub open spec fn accepts(column: ColumnModel, kind: Kind) -> bool {
    match column.column_type {
        ColumnType::Json => true,
        ColumnType::Integer => kind == Kind::Integer || (kind == Kind::Null && column.nullable),
        ColumnType::Number => kind == Kind::Integer || kind == Kind::Decimal || (kind == Kind::Null
            && column.nullable),
        ColumnType::Text => kind == Kind::Text || (kind == Kind::Null && column.nullable),
        ColumnType::Boolean => kind == Kind::Bool || (kind == Kind::Null && column.nullable),
    }
}

/// Whether a member of an object is the column: its name as written, and a
/// value that the column takes.
pub open spec fn member_conforms(member: (Seq<u8>, Json), column: ColumnModel) -> bool {
    member.0 == column.name && accepts(column, kind_of(member.1))
}

/// Whether the members are the columns, one for one and in order.
pub open spec fn members_conform(members: Seq<(Seq<u8>, Json)>, columns: Seq<ColumnModel>) -> bool {
    &&& members.len() == columns.len()
    &&& forall|k: int|
        0 <= k < members.len() ==> member_conforms(#[trigger] members[k], columns[k])
}

/// Whether `row` is one JSON object that holds exactly `columns`.
pub open spec fn row_conforms(row: Seq<u8>, columns: Seq<ColumnModel>) -> bool {
    match parse_document(row, ROW_DEPTH as nat) {
        Some(Json::Object(members)) => members_conform(members, columns),
        _ => false,
    }
}

/// `done` put in front of the members that a parse found.
pub open spec fn prepend(
    done: Seq<(Seq<u8>, Json)>,
    rest: Option<(Seq<(Seq<u8>, Json)>, int)>,
) -> Option<(Seq<(Seq<u8>, Json)>, int)> {
    match rest {
        Some((more, e)) => Some((done + more, e)),
        None => None,
    }
}

/// One selected column.
#[derive(Debug)]
pub struct Column {
    name: Vec<u8>,
    column_type: ColumnType,
    nullable: bool,
}

impl View for Column {
    type V = ColumnModel;

    closed spec fn view(&self) -> ColumnModel {
        ColumnModel { name: self.name@, column_type: self.column_type, nullable: self.nullable }
    }
}

fn is_plain(name: &[u8]) -> (yes: bool)
    ensures
        yes == plain_name(name@),
{
    let mut i: usize = 0;
    while i < name.len()
        invariant
            i <= name.len(),
            forall|k: int| 0 <= k < i ==> plain_byte(#[trigger] name@[k]),
        decreases name.len() - i,
    {
        let b = name[i];
        if b < 0x20 || b == QUOTE || b == BACKSLASH {
            return false;
        }
        i = i + 1;
    }
    true
}

/// Whether two byte strings are equal.
fn same_bytes(a: &[u8], b: &[u8]) -> (yes: bool)
    ensures
        yes == (a@ == b@),
{
    if a.len() != b.len() {
        return false;
    }
    let mut i: usize = 0;
    while i < a.len()
        invariant
            i <= a.len(),
            a.len() == b.len(),
            forall|k: int| 0 <= k < i ==> a@[k] == b@[k],
        decreases a.len() - i,
    {
        if a[i] != b[i] {
            return false;
        }
        i = i + 1;
    }
    assert(a@ =~= b@);
    true
}

/// Whether `s` holds `name` from `from` to `to`.
fn span_is(s: &[u8], from: usize, to: usize, name: &[u8]) -> (yes: bool)
    requires
        from <= to <= s.len(),
    ensures
        yes == (s@.subrange(from as int, to as int) == name@),
{
    if to - from != name.len() {
        return false;
    }
    let mut i: usize = 0;
    while i < name.len()
        invariant
            i <= name.len(),
            from <= to <= s.len(),
            to - from == name.len(),
            forall|k: int| 0 <= k < i ==> s@[from + k] == name@[k],
        decreases name.len() - i,
    {
        if s[from + i] != name[i] {
            assert(s@.subrange(from as int, to as int)[i as int] != name@[i as int]);
            return false;
        }
        i = i + 1;
    }
    assert(s@.subrange(from as int, to as int) =~= name@);
    true
}

impl Column {
    #[verifier::type_invariant]
    spec fn well_formed(self) -> bool {
        plain_name(self.name@)
    }

    /// A column named `name`. The name is refused if and only if it is not
    /// plain.
    pub fn new(name: &str, column_type: ColumnType, nullable: bool) -> (made: Result<
        Column,
        ProjectionError,
    >)
        ensures
            match made {
                Ok(column) => plain_name(name.spec_bytes()) && column@ == (ColumnModel {
                    name: name.spec_bytes(),
                    column_type,
                    nullable,
                }),
                Err(e) => e == ProjectionError::InvalidName && !plain_name(name.spec_bytes()),
            },
    {
        let bytes = name.as_bytes_vec();
        if is_plain(bytes.as_slice()) {
            Ok(Column { name: bytes, column_type, nullable })
        } else {
            Err(ProjectionError::InvalidName)
        }
    }

    /// The name, as UTF-8.
    pub fn name(&self) -> (name: &[u8])
        ensures
            name@ == self@.name,
            plain_name(name@),
    {
        proof {
            use_type_invariant(self);
        }
        self.name.as_slice()
    }

    pub fn column_type(&self) -> (column_type: ColumnType)
        ensures
            column_type == self@.column_type,
    {
        self.column_type
    }

    pub fn nullable(&self) -> (nullable: bool)
        ensures
            nullable == self@.nullable,
    {
        self.nullable
    }

    /// Whether this column takes a value of `kind`.
    pub fn takes(&self, kind: Kind) -> (yes: bool)
        ensures
            yes == accepts(self@, kind),
    {
        let null_here = self.nullable && kind == Kind::Null;
        match self.column_type {
            ColumnType::Json => true,
            ColumnType::Integer => kind == Kind::Integer || null_here,
            ColumnType::Number => kind == Kind::Integer || kind == Kind::Decimal || null_here,
            ColumnType::Text => kind == Kind::Text || null_here,
            ColumnType::Boolean => kind == Kind::Bool || null_here,
        }
    }
}

/// The columns as the contracts see them.
pub open spec fn column_models(columns: Seq<Column>) -> Seq<ColumnModel> {
    Seq::new(columns.len(), |k: int| columns[k]@)
}

/// What one read query selects: a table, and columns of it.
#[derive(Debug)]
pub struct Projection {
    table: String,
    columns: Vec<Column>,
}

impl Projection {
    #[verifier::type_invariant]
    spec fn well_formed(self) -> bool {
        distinct_names(column_models(self.columns@))
    }

    /// The name of the table.
    pub closed spec fn table_name(&self) -> Seq<char> {
        self.table@
    }

    /// The selected columns, in order.
    pub closed spec fn columns(&self) -> Seq<ColumnModel> {
        column_models(self.columns@)
    }

    /// The projection of `columns` from `table`. It is refused if and only if
    /// two columns share a name.
    pub fn new(table: &str, columns: Vec<Column>) -> (made: Result<Projection, ProjectionError>)
        ensures
            match made {
                Ok(projection) => {
                    &&& distinct_names(column_models(columns@))
                    &&& projection.table_name() == table@
                    &&& projection.columns() == column_models(columns@)
                },
                Err(e) => e == ProjectionError::DuplicateName && !distinct_names(
                    column_models(columns@),
                ),
            },
    {
        let ghost models = column_models(columns@);
        let mut j: usize = 0;
        while j < columns.len()
            invariant
                j <= columns.len(),
                models == column_models(columns@),
                forall|a: int, b: int|
                    0 <= a < b < j ==> (#[trigger] models[a]).name != (#[trigger] models[b]).name,
            decreases columns.len() - j,
        {
            let mut i: usize = 0;
            while i < j
                invariant
                    i <= j < columns.len(),
                    models == column_models(columns@),
                    forall|a: int|
                        0 <= a < i ==> (#[trigger] models[a]).name != models[j as int].name,
                decreases j - i,
            {
                if same_bytes(columns[i].name(), columns[j].name()) {
                    assert(models[i as int].name == models[j as int].name);
                    return Err(ProjectionError::DuplicateName);
                }
                i = i + 1;
            }
            j = j + 1;
        }
        Ok(Projection { table: String::from_str(table), columns })
    }

    pub fn table(&self) -> (table: &str)
        ensures
            table@ == self.table_name(),
    {
        self.table.as_str()
    }

    /// How many columns are selected. Their names are pairwise different.
    pub fn column_count(&self) -> (count: usize)
        ensures
            count == self.columns().len(),
            distinct_names(self.columns()),
    {
        proof {
            use_type_invariant(self);
        }
        self.columns.len()
    }

    /// The column at `index`.
    pub fn column(&self, index: usize) -> (column: Option<&Column>)
        ensures
            match column {
                Some(c) => index < self.columns().len() && c@ == self.columns()[index as int],
                None => index >= self.columns().len(),
            },
    {
        if index < self.columns.len() {
            Some(&self.columns[index])
        } else {
            None
        }
    }

    /// Whether `row` is one JSON object that holds exactly the selected
    /// columns, in order, each with a value of its declared type.
    pub fn admits(&self, row: &[u8]) -> (yes: bool)
        ensures
            yes == row_conforms(row@, self.columns()),
    {
        let n = row.len();
        let ghost columns = self.columns();
        if n < 2 || row[0] != OPEN_BRACE {
            return false;
        }
        if row[1] == CLOSE_BRACE {
            assert(columns.len() == 0 ==> members_conform(Seq::empty(), columns));
            return n == 2 && self.columns.len() == 0;
        }
        let depth: usize = ROW_DEPTH - 1;
        let ghost mut done: Seq<(Seq<u8>, Json)> = Seq::empty();
        let mut cur: usize = 1;
        let mut k: usize = 0;
        assert(prepend(done, parse_members(row@, 1, depth as nat)) == parse_members(
            row@,
            1,
            depth as nat,
        )) by {
            if let Some((more, e)) = parse_members(row@, 1, depth as nat) {
                assert(done + more =~= more);
            }
        }
        loop
            invariant
                1 <= cur <= n,
                n == row.len(),
                depth == ROW_DEPTH - 1,
                columns == self.columns(),
                columns == column_models(self.columns@),
                k <= self.columns.len(),
                done.len() == k,
                forall|j: int| 0 <= j < k ==> member_conforms(#[trigger] done[j], columns[j]),
                parse_members(row@, 1, depth as nat) == prepend(
                    done,
                    parse_members(row@, cur as int, depth as nat),
                ),
                row_conforms(row@, columns) == (match parse_members(row@, 1, depth as nat) {
                    Some((members, e)) => e == n && members_conform(members, columns),
                    None => false,
                }),
            decreases n - cur,
        {
            proof {
                lemma_members_bounds(row@, cur as int, depth as nat);
            }
            let ghost first = parse_member(row@, cur as int, depth as nat);
            let ghost rest = parse_members(row@, cur as int, depth as nat);
            match scan_member(row, cur, depth) {
                None => {
                    return false;
                },
                Some((key_end, kind, e)) => {
                    let ghost member = match first {
                        Some((m, _)) => m,
                        None => arbitrary(),
                    };
                    proof {
                        if let Some((more, _)) = rest {
                            assert(more[0] == member);
                            assert((done + more)[k as int] == member);
                        }
                    }
                    if k >= self.columns.len() {
                        return false;
                    }
                    let column = &self.columns[k];
                    assert(column@ == columns[k as int]);
                    if !span_is(row, cur + 1, key_end - 1, column.name()) || !column.takes(kind) {
                        return false;
                    }
                    assert(member_conforms(member, columns[k as int]));
                    if e < n && row[e] == CLOSE_BRACE {
                        proof {
                            let all = done + seq![member];
                            assert(rest == Some((seq![member], e + 1)));
                            assert forall|j: int| 0 <= j < all.len() implies member_conforms(
                                #[trigger] all[j],
                                columns[j],
                            ) by {
                                if j < k {
                                    assert(all[j] == done[j]);
                                }
                            }
                        }
                        return e + 1 == n && k + 1 == self.columns.len();
                    } else if e < n && row[e] == COMMA {
                        proof {
                            let grown = done.push(member);
                            let tail = parse_members(row@, e + 1, depth as nat);
                            if let Some((more, end)) = tail {
                                assert(done + (seq![member] + more) =~= grown + more);
                            }
                            assert forall|j: int| 0 <= j < grown.len() implies member_conforms(
                                #[trigger] grown[j],
                                columns[j],
                            ) by {
                                if j < k {
                                    assert(grown[j] == done[j]);
                                }
                            }
                            done = grown;
                        }
                        cur = e + 1;
                        k = k + 1;
                    } else {
                        return false;
                    }
                },
            }
        }
    }
}

} // verus!
