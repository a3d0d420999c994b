//! The response encoder: rows that conform to their projection, framed as
//! `{"result":[ ... ]}`.

use crate::embed::{covers, lemma_value_embed, same_at};
use crate::json::{
    parse_document, parse_elements, parse_member, parse_members, parse_value, string_end, Json,
    CLOSE_BRACE, CLOSE_BRACKET, COLON, COMMA, OPEN_BRACE, OPEN_BRACKET, QUOTE, ROW_DEPTH,
};
use crate::record::{row_conforms, ColumnModel, Projection};
use crate::scan::lemma_value_bounds;
use vstd::prelude::*;

verus! {

/// How deeply an envelope may nest: its rows, inside one array, inside one
/// object. Readers that stop at 128 levels still take every envelope.
pub const ENVELOPE_DEPTH: usize = 127;

/// The bytes of `{"result":[`.
pub open spec fn envelope_head() -> Seq<u8> {
    seq![0x7bu8, 0x22u8, 0x72u8, 0x65u8, 0x73u8, 0x75u8, 0x6cu8, 0x74u8, 0x22u8, 0x3au8, 0x5bu8]
}

/// The bytes of `]}`.
pub open spec fn envelope_tail() -> Seq<u8> {
    seq![0x5du8, 0x7du8]
}

/// The bytes of `result`.
pub open spec fn result_key() -> Seq<u8> {
    seq![0x72u8, 0x65u8, 0x73u8, 0x75u8, 0x6cu8, 0x74u8]
}

/// The rows, one after the other, with a comma between two of them.
pub open spec fn joined(rows: Seq<Seq<u8>>) -> Seq<u8>
    decreases rows.len(),
{
    if rows.len() == 0 {
        Seq::empty()
    } else if rows.len() == 1 {
        rows[0]
    } else {
        rows[0] + seq![COMMA] + joined(rows.drop_first())
    }
}

/// The envelope around `rows`.
pub open spec fn envelope(rows: Seq<Seq<u8>>) -> Seq<u8> {
    envelope_head() + joined(rows) + envelope_tail()
}

/// The text of each row.
pub open spec fn row_texts(rows: Seq<Vec<u8>>) -> Seq<Seq<u8>> {
    Seq::new(rows.len(), |k: int| rows[k]@)
}

/// What a row denotes; `null` where it is no JSON text.
pub open spec fn denoted(row: Seq<u8>) -> Json {
    match parse_document(row, ROW_DEPTH as nat) {
        Some(value) => value,
        None => Json::Null,
    }
}

/// What each row denotes.
pub open spec fn denoted_rows(rows: Seq<Seq<u8>>) -> Seq<Json> {
    Seq::new(rows.len(), |k: int| denoted(rows[k]))
}

/// What the envelope around `rows` denotes: an object with the one key
/// `result`, whose value is the array of what the rows denote.
pub open spec fn envelope_value(rows: Seq<Seq<u8>>) -> Json {
    Json::Object(seq![(result_key(), Json::Array(denoted_rows(rows)))])
}

/// Whether every row conforms to `columns`.
pub open spec fn all_conform(rows: Seq<Seq<u8>>, columns: Seq<ColumnModel>) -> bool {
    forall|k: int| 0 <= k < rows.len() ==> row_conforms(#[trigger] rows[k], columns)
}

/// The rows could not be encoded: the row at `row` is the first that does
/// not conform to the projection.
#[derive(Clone, Copy, Debug, PartialEq, Eq, Structural)]
pub struct EncodeError {
    pub row: usize,
}

proof fn lemma_joined_push(rows: Seq<Seq<u8>>, row: Seq<u8>)
    ensures
        joined(rows.push(row)) == if rows.len() == 0 {
            row
        } else {
            joined(rows) + seq![COMMA] + row
        },
    decreases rows.len(),
{
    let grown = rows.push(row);
    if rows.len() == 0 {
    } else if rows.len() == 1 {
        assert(grown.drop_first() =~= seq![row]);
        assert(joined(grown.drop_first()) == row);
    } else {
        assert(grown.drop_first() =~= rows.drop_first().push(row));
        lemma_joined_push(rows.drop_first(), row);
        assert(rows[0] + seq![COMMA] + (joined(rows.drop_first()) + seq![COMMA] + row) =~= rows[0]
            + seq![COMMA] + joined(rows.drop_first()) + seq![COMMA] + row);
    }
}

/// Puts `bytes` behind what `out` holds.
fn append_bytes(out: &mut Vec<u8>, bytes: &[u8])
    ensures
        final(out)@ == old(out)@ + bytes@,
{
    let mut i: usize = 0;
    while i < bytes.len()
        invariant
            i <= bytes.len(),
            out@ == old(out)@ + bytes@.subrange(0, i as int),
        decreases bytes.len() - i,
    {
        out.push(bytes[i]);
        assert(bytes@.subrange(0, i as int).push(bytes@[i as int]) =~= bytes@.subrange(
            0,
            i + 1,
        ));
        i = i + 1;
    }
    assert(bytes@.subrange(0, bytes.len() as int) =~= bytes@);
}

/// Encodes `rows` as the envelope. Succeeds if and only if every row conforms
/// to `projection`; otherwise names the first row that does not, and hands out
/// no bytes. The envelope reads back as the object that holds, under the key
/// `result`, what the rows denote.
pub fn encode(projection: &Projection, rows: &Vec<Vec<u8>>) -> (encoded: Result<
    Vec<u8>,
    EncodeError,
>)
    ensures
        match encoded {
            Ok(body) => {
                &&& all_conform(row_texts(rows@), projection.columns())
                &&& body@ == envelope(row_texts(rows@))
                &&& parse_document(body@, ENVELOPE_DEPTH as nat) == Some(
                    envelope_value(row_texts(rows@)),
                )
            },
            Err(e) => {
                &&& e.row < rows.len()
                &&& !row_conforms(row_texts(rows@)[e.row as int], projection.columns())
                &&& forall|k: int|
                    0 <= k < e.row ==> row_conforms(
                        #[trigger] row_texts(rows@)[k],
                        projection.columns(),
                    )
            },
        },
{
    let ghost texts = row_texts(rows@);
    let mut body: Vec<u8> = Vec::new();
    body.push(OPEN_BRACE);
    body.push(QUOTE);
    body.push(0x72);
    body.push(0x65);
    body.push(0x73);
    body.push(0x75);
    body.push(0x6c);
    body.push(0x74);
    body.push(QUOTE);
    body.push(COLON);
    body.push(OPEN_BRACKET);
    assert(body@ =~= envelope_head());
    assert(texts.take(0) =~= Seq::<Seq<u8>>::empty());
    assert(body@ =~= envelope_head() + joined(texts.take(0)));
    let mut k: usize = 0;
    while k < rows.len()
        invariant
            k <= rows.len(),
            texts == row_texts(rows@),
            body@ == envelope_head() + joined(texts.take(k as int)),
            forall|j: int| 0 <= j < k ==> row_conforms(#[trigger] texts[j], projection.columns()),
        decreases rows.len() - k,
    {
        let row = rows[k].as_slice();
        assert(row@ == texts[k as int]);
        if !projection.admits(row) {
            return Err(EncodeError { row: k });
        }
        proof {
            lemma_joined_push(texts.take(k as int), row@);
            assert(texts.take(k as int).push(row@) =~= texts.take(k + 1));
        }
        if k > 0 {
            body.push(COMMA);
        }
        append_bytes(&mut body, row);
        assert(body@ =~= envelope_head() + joined(texts.take(k + 1)));
        k = k + 1;
    }
    body.push(CLOSE_BRACKET);
    body.push(CLOSE_BRACE);
    assert(texts.take(rows.len() as int) =~= texts);
    assert(body@ =~= envelope(texts));
    proof {
        lemma_envelope_round_trip(texts, projection.columns());
    }
    Ok(body)
}

/// The keys of an object's members, in order.
pub open spec fn names_of(members: Seq<(Seq<u8>, Json)>) -> Seq<Seq<u8>> {
    Seq::new(members.len(), |k: int| members[k].0)
}

/// The names of the columns, in order.
pub open spec fn column_names(columns: Seq<ColumnModel>) -> Seq<Seq<u8>> {
    Seq::new(columns.len(), |k: int| columns[k].name)
}

/// Whether `value` is an object whose keys are exactly the names of
/// `columns`, in order.
pub open spec fn has_fields(value: Json, columns: Seq<ColumnModel>) -> bool {
    value matches Json::Object(members) && names_of(members) == column_names(columns)
}

/// A row that conforms denotes an object whose keys are the column names.
pub proof fn lemma_conforming_row_has_fields(row: Seq<u8>, columns: Seq<ColumnModel>)
    requires
        row_conforms(row, columns),
    ensures
        has_fields(denoted(row), columns),
        parse_value(row, 0, ROW_DEPTH as nat) == Some((denoted(row), row.len() as int)),
        row.len() >= 2,
        row[0] == OPEN_BRACE,
{
    lemma_value_bounds(row, 0, ROW_DEPTH as nat);
    if let Some(Json::Object(members)) = parse_document(row, ROW_DEPTH as nat) {
        assert(names_of(members) =~= column_names(columns));
    }
}

/// Rows that stand in `t` from `p` on, joined and closed by a bracket, read
/// there as the elements of an array.
proof fn lemma_rows_embed(t: Seq<u8>, p: int, rows: Seq<Seq<u8>>, columns: Seq<ColumnModel>)
    requires
        rows.len() >= 1,
        all_conform(rows, columns),
        0 <= p,
        p + joined(rows).len() < t.len(),
        forall|q: int| 0 <= q < joined(rows).len() ==> t[p + q] == #[trigger] joined(rows)[q],
        t[p + joined(rows).len()] == CLOSE_BRACKET,
    ensures
        parse_elements(t, p, ROW_DEPTH as nat) == Some(
            (denoted_rows(rows), p + joined(rows).len() + 1),
        ),
    decreases rows.len(),
{
    let first = rows[0];
    let all = joined(rows);
    assert(row_conforms(first, columns));
    lemma_conforming_row_has_fields(first, columns);
    let n = first.len() as int;
    assert forall|q: int| 0 <= q < n implies #[trigger] same_at(first, t, p, q) by {
        assert(all[q] == first[q]);
    }
    assert(covers(first, t, p, 0, n));
    lemma_value_embed(first, t, p, 0, ROW_DEPTH as nat);
    assert(parse_value(t, p, ROW_DEPTH as nat) == Some((denoted(first), p + n)));
    if rows.len() == 1 {
        assert(denoted_rows(rows) =~= seq![denoted(first)]);
    } else {
        let rest = rows.drop_first();
        let tail = joined(rest);
        assert(all == first + seq![COMMA] + tail);
        assert(all[n] == COMMA);
        assert(t[p + n] == COMMA);
        assert forall|k: int| 0 <= k < rest.len() implies row_conforms(
            #[trigger] rest[k],
            columns,
        ) by {
            assert(rest[k] == rows[k + 1]);
        }
        assert forall|q: int| 0 <= q < tail.len() implies t[p + n + 1 + q]
            == #[trigger] tail[q] by {
            assert(all[n + 1 + q] == tail[q]);
        }
        lemma_rows_embed(t, p + n + 1, rest, columns);
        assert(denoted_rows(rows) =~= seq![denoted(first)] + denoted_rows(rest));
    }
}

/// The round trip of the encoder. For rows that conform to `columns`, the
/// envelope read back as JSON is an object with the single key `result`,
/// whose value is an array of as many elements as there are rows; each
/// element is what its row denotes, an object whose keys are exactly the
/// names of the columns.
pub proof fn lemma_envelope_round_trip(rows: Seq<Seq<u8>>, columns: Seq<ColumnModel>)
    requires
        all_conform(rows, columns),
    ensures
        parse_document(envelope(rows), ENVELOPE_DEPTH as nat) == Some(envelope_value(rows)),
        denoted_rows(rows).len() == rows.len(),
        forall|k: int|
            0 <= k < rows.len() ==> has_fields(#[trigger] denoted_rows(rows)[k], columns),
{
    let out = envelope(rows);
    let body = joined(rows);
    let n = body.len() as int;
    assert(out.len() == 13 + n);
    assert forall|k: int| 0 <= k < rows.len() implies has_fields(
        #[trigger] denoted_rows(rows)[k],
        columns,
    ) by {
        assert(row_conforms(rows[k], columns));
        lemma_conforming_row_has_fields(rows[k], columns);
    }
    assert(out[0] == OPEN_BRACE && out[1] == QUOTE && out[2] == 0x72 && out[3] == 0x65 && out[4]
        == 0x73 && out[5] == 0x75 && out[6] == 0x6c && out[7] == 0x74 && out[8] == QUOTE && out[9]
        == COLON && out[10] == OPEN_BRACKET);
    assert(out[11 + n] == CLOSE_BRACKET && out[12 + n] == CLOSE_BRACE);
    assert(string_end(out, 2) == Some(9int)) by {
        reveal_with_fuel(string_end, 8);
    }
    assert(out.subrange(2, 8) =~= result_key());
    let inner: nat = (ENVELOPE_DEPTH - 1) as nat;
    if rows.len() == 0 {
        assert(parse_value(out, 10, inner) == Some((Json::Array(Seq::empty()), 12int)));
        assert(denoted_rows(rows) =~= Seq::<Json>::empty());
    } else {
        assert(row_conforms(rows[0], columns));
        lemma_conforming_row_has_fields(rows[0], columns);
        assert(body[0] == rows[0][0]);
        assert(out[11] == OPEN_BRACE);
        assert forall|q: int| 0 <= q < n implies out[11 + q] == #[trigger] body[q] by {}
        lemma_rows_embed(out, 11, rows, columns);
        assert(parse_value(out, 10, inner) == Some(
            (Json::Array(denoted_rows(rows)), 12 + n),
        ));
    }
    let member = (result_key(), Json::Array(denoted_rows(rows)));
    assert(parse_member(out, 1, inner) == Some((member, 12 + n)));
    assert(parse_members(out, 1, inner) == Some((seq![member], 13 + n)));
    assert(parse_value(out, 0, ENVELOPE_DEPTH as nat) == Some((envelope_value(rows), 13 + n)));
}

} // verus!
