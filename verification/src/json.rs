//! Compact JSON texts as byte sequences: what such a text denotes, and a
//! recogniser that agrees with that definition.
//!
//! A text is compact when it holds no whitespace between its tokens. Strings
//! are kept as written: the bytes between the quotes, escapes included. The
//! encoding of the bytes inside a string is not examined.

use vstd::prelude::*;

verus! {

pub const QUOTE: u8 = 0x22;

pub const BACKSLASH: u8 = 0x5c;

pub const COMMA: u8 = 0x2c;

pub const COLON: u8 = 0x3a;

pub const OPEN_BRACKET: u8 = 0x5b;

pub const CLOSE_BRACKET: u8 = 0x5d;

pub const OPEN_BRACE: u8 = 0x7b;

pub const CLOSE_BRACE: u8 = 0x7d;

pub const MINUS: u8 = 0x2d;

pub const PLUS: u8 = 0x2b;

pub const DOT: u8 = 0x2e;

pub const ZERO: u8 = 0x30;

/// How deeply arrays and objects may nest inside one row.
pub const ROW_DEPTH: usize = 125;

/// What a compact JSON text denotes.
pub enum Json {
    Null,
    Bool(bool),
    /// A number without fraction and exponent, as written.
    Integer(Seq<u8>),
    /// A number with a fraction or an exponent, as written.
    Decimal(Seq<u8>),
    /// The bytes between the quotes, as written.
    Text(Seq<u8>),
    Array(Seq<Json>),
    /// The members in the order of the text, each with its key as written.
    Object(Seq<(Seq<u8>, Json)>),
}

/// The kind of a value, which is all that a column's declared type constrains.
#[derive(Clone, Copy, Debug, PartialEq, Eq, Structural)]
pub enum Kind {
    Null,
    Bool,
    Integer,
    Decimal,
    Text,
    Array,
    Object,
}

pub open spec fn kind_of(value: Json) -> Kind {
    match value {
        Json::Null => Kind::Null,
        Json::Bool(_) => Kind::Bool,
        Json::Integer(_) => Kind::Integer,
        Json::Decimal(_) => Kind::Decimal,
        Json::Text(_) => Kind::Text,
        Json::Array(_) => Kind::Array,
        Json::Object(_) => Kind::Object,
    }
}

pub open spec fn is_digit(b: u8) -> bool {
    0x30 <= b <= 0x39
}

pub open spec fn is_hex_digit(b: u8) -> bool {
    is_digit(b) || (0x41 <= b <= 0x46) || (0x61 <= b <= 0x66)
}

/// The bytes that may follow a backslash on their own.
pub open spec fn is_simple_escape(b: u8) -> bool {
    b == QUOTE || b == BACKSLASH || b == 0x2f || b == 0x62 || b == 0x66 || b == 0x6e || b == 0x72
        || b == 0x74
}

/// Whether `s` holds `b` at position `i`.
pub open spec fn has_byte(s: Seq<u8>, i: int, b: u8) -> bool {
    0 <= i < s.len() && s[i] == b
}

/// Whether `s` holds a digit at position `i`.
pub open spec fn has_digit(s: Seq<u8>, i: int) -> bool {
    0 <= i < s.len() && is_digit(s[i])
}

/// Where the run of digits that starts at `i` ends.
pub open spec fn digits_end(s: Seq<u8>, i: int) -> int
    decreases s.len() - i,
{
    if has_digit(s, i) {
        digits_end(s, i + 1)
    } else {
        i
    }
}

/// Where the integer part that starts at `i` ends: a single zero, or a run of
/// digits that starts with another digit.
pub open spec fn int_part_end(s: Seq<u8>, i: int) -> Option<int> {
    if !has_digit(s, i) {
        None
    } else if s[i] == ZERO {
        Some(i + 1)
    } else {
        Some(digits_end(s, i))
    }
}

/// Where the fraction that may start at `i` ends; `i` itself where there is
/// none. A dot asks for at least one digit.
pub open spec fn fraction_end(s: Seq<u8>, i: int) -> Option<int> {
    if !has_byte(s, i, DOT) {
        Some(i)
    } else if has_digit(s, i + 1) {
        Some(digits_end(s, i + 1))
    } else {
        None
    }
}

/// Where the exponent that may start at `i` ends; `i` itself where there is
/// none. The letter asks for an optional sign and at least one digit.
pub open spec fn exponent_end(s: Seq<u8>, i: int) -> Option<int> {
    if !(has_byte(s, i, 0x65) || has_byte(s, i, 0x45)) {
        Some(i)
    } else {
        let j = if has_byte(s, i + 1, PLUS) || has_byte(s, i + 1, MINUS) {
            i + 2
        } else {
            i + 1
        };
        if has_digit(s, j) {
            Some(digits_end(s, j))
        } else {
            None
        }
    }
}

/// The number that starts at `i`: where it ends, and whether it is an integer.
pub open spec fn number_end(s: Seq<u8>, i: int) -> Option<(int, bool)> {
    let a = if has_byte(s, i, MINUS) {
        i + 1
    } else {
        i
    };
    match int_part_end(s, a) {
        None => None,
        Some(b) => match fraction_end(s, b) {
            None => None,
            Some(c) => match exponent_end(s, c) {
                None => None,
                Some(e) => Some((e, e == b)),
            },
        },
    }
}

/// Whether four hex digits stand at `i`.
pub open spec fn has_four_hex(s: Seq<u8>, i: int) -> bool {
    0 <= i && i + 4 <= s.len() && is_hex_digit(s[i]) && is_hex_digit(s[i + 1]) && is_hex_digit(
        s[i + 2],
    ) && is_hex_digit(s[i + 3])
}

/// Where the string whose first byte after the opening quote is at `i` ends:
/// the position after its closing quote.
pub open spec fn string_end(s: Seq<u8>, i: int) -> Option<int>
    decreases s.len() - i,
{
    if !(0 <= i < s.len()) {
        None
    } else if s[i] == QUOTE {
        Some(i + 1)
    } else if s[i] == BACKSLASH {
        if i + 1 < s.len() && is_simple_escape(s[i + 1]) {
            string_end(s, i + 2)
        } else if has_byte(s, i + 1, 0x75) && has_four_hex(s, i + 2) {
            string_end(s, i + 6)
        } else {
            None
        }
    } else if s[i] < 0x20 {
        None
    } else {
        string_end(s, i + 1)
    }
}

/// Whether the word `true` stands in `s` at `i`.
pub open spec fn has_true(s: Seq<u8>, i: int) -> bool {
    has_byte(s, i, 0x74) && has_byte(s, i + 1, 0x72) && has_byte(s, i + 2, 0x75) && has_byte(
        s,
        i + 3,
        0x65,
    )
}

/// Whether the word `false` stands in `s` at `i`.
pub open spec fn has_false(s: Seq<u8>, i: int) -> bool {
    has_byte(s, i, 0x66) && has_byte(s, i + 1, 0x61) && has_byte(s, i + 2, 0x6c) && has_byte(
        s,
        i + 3,
        0x73,
    ) && has_byte(s, i + 4, 0x65)
}

/// Whether the word `null` stands in `s` at `i`.
pub open spec fn has_null(s: Seq<u8>, i: int) -> bool {
    has_byte(s, i, 0x6e) && has_byte(s, i + 1, 0x75) && has_byte(s, i + 2, 0x6c) && has_byte(
        s,
        i + 3,
        0x6c,
    )
}

/// The value that starts at `i`, and where it ends. Arrays and objects may
/// nest `depth` deep.
pub open spec fn parse_value(s: Seq<u8>, i: int, depth: nat) -> Option<(Json, int)>
    decreases s.len() - i, depth, 0nat,
{
    if !(0 <= i < s.len()) {
        None
    } else if s[i] == QUOTE {
        match string_end(s, i + 1) {
            Some(e) => Some((Json::Text(s.subrange(i + 1, e - 1)), e)),
            None => None,
        }
    } else if s[i] == OPEN_BRACKET {
        if depth == 0 {
            None
        } else if has_byte(s, i + 1, CLOSE_BRACKET) {
            Some((Json::Array(Seq::empty()), i + 2))
        } else {
            match parse_elements(s, i + 1, (depth - 1) as nat) {
                Some((items, e)) => Some((Json::Array(items), e)),
                None => None,
            }
        }
    } else if s[i] == OPEN_BRACE {
        if depth == 0 {
            None
        } else if has_byte(s, i + 1, CLOSE_BRACE) {
            Some((Json::Object(Seq::empty()), i + 2))
        } else {
            match parse_members(s, i + 1, (depth - 1) as nat) {
                Some((members, e)) => Some((Json::Object(members), e)),
                None => None,
            }
        }
    } else if has_true(s, i) {
        Some((Json::Bool(true), i + 4))
    } else if has_false(s, i) {
        Some((Json::Bool(false), i + 5))
    } else if has_null(s, i) {
        Some((Json::Null, i + 4))
    } else {
        match number_end(s, i) {
            Some((e, true)) => Some((Json::Integer(s.subrange(i, e)), e)),
            Some((e, false)) => Some((Json::Decimal(s.subrange(i, e)), e)),
            None => None,
        }
    }
}

/// The elements of an array from `i` on, at least one, up to and including the
/// closing bracket.
pub open spec fn parse_elements(s: Seq<u8>, i: int, depth: nat) -> Option<(Seq<Json>, int)>
    decreases s.len() - i, depth, 1nat,
{
    match parse_value(s, i, depth) {
        None => None,
        Some((first, e)) => if e <= i {
            None
        } else if has_byte(s, e, CLOSE_BRACKET) {
            Some((seq![first], e + 1))
        } else if has_byte(s, e, COMMA) {
            match parse_elements(s, e + 1, depth) {
                Some((rest, end)) => Some((seq![first] + rest, end)),
                None => None,
            }
        } else {
            None
        },
    }
}

/// The member that starts at `i`: its key, its value, and where it ends.
pub open spec fn parse_member(s: Seq<u8>, i: int, depth: nat) -> Option<((Seq<u8>, Json), int)>
    decreases s.len() - i, depth, 1nat,
{
    if !has_byte(s, i, QUOTE) {
        None
    } else {
        match string_end(s, i + 1) {
            None => None,
            Some(k) => if k <= i || !has_byte(s, k, COLON) {
                None
            } else {
                match parse_value(s, k + 1, depth) {
                    Some((value, e)) => Some(((s.subrange(i + 1, k - 1), value), e)),
                    None => None,
                }
            },
        }
    }
}

/// The members of an object from `i` on, at least one, up to and including
/// the closing brace.
pub open spec fn parse_members(s: Seq<u8>, i: int, depth: nat) -> Option<
    (Seq<(Seq<u8>, Json)>, int),
>
    decreases s.len() - i, depth, 2nat,
{
    match parse_member(s, i, depth) {
        None => None,
        Some((first, e)) => if e <= i {
            None
        } else if has_byte(s, e, CLOSE_BRACE) {
            Some((seq![first], e + 1))
        } else if has_byte(s, e, COMMA) {
            match parse_members(s, e + 1, depth) {
                Some((rest, end)) => Some((seq![first] + rest, end)),
                None => None,
            }
        } else {
            None
        },
    }
}

/// What the whole of `s` denotes, if it is one compact JSON text that nests
/// no deeper than `depth`.
pub open spec fn parse_document(s: Seq<u8>, depth: nat) -> Option<Json> {
    match parse_value(s, 0, depth) {
        Some((value, e)) => if e == s.len() {
            Some(value)
        } else {
            None
        },
        None => None,
    }
}

/// Where a parse ended, if there was one.
pub open spec fn end_of<T>(parsed: Option<(T, int)>) -> Option<int> {
    match parsed {
        Some((_, e)) => Some(e),
        None => None,
    }
}

/// Where a parse ended; zero where there was none.
pub open spec fn stop_of<T>(parsed: Option<(T, int)>) -> int {
    match parsed {
        Some((_, e)) => e,
        None => 0,
    }
}

} // verus!
