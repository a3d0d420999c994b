//! The recogniser: executable scanners that agree with the definitions of
//! `json`, byte for byte.

use crate::json::{
    digits_end, end_of, exponent_end, fraction_end, has_byte, has_digit, has_false, has_four_hex,
    has_null, has_true, int_part_end, is_digit, is_hex_digit, is_simple_escape, kind_of,
    number_end, parse_elements, parse_member, parse_members, parse_value, string_end, Kind,
    BACKSLASH, CLOSE_BRACE, CLOSE_BRACKET, COLON, COMMA, DOT, MINUS, OPEN_BRACE, OPEN_BRACKET,
    PLUS, QUOTE, ZERO,
};
use vstd::prelude::*;

verus! {

pub proof fn lemma_digits_end_bounds(s: Seq<u8>, i: int)
    requires
        0 <= i <= s.len(),
    ensures
        i <= digits_end(s, i) <= s.len(),
        !has_digit(s, digits_end(s, i)),
        has_digit(s, i) ==> i < digits_end(s, i),
    decreases s.len() - i,
{
    if has_digit(s, i) {
        lemma_digits_end_bounds(s, i + 1);
    }
}

pub proof fn lemma_number_end_bounds(s: Seq<u8>, i: int)
    requires
        0 <= i <= s.len(),
    ensures
        number_end(s, i) matches Some((e, _)) ==> i < e <= s.len(),
{
    let a = if has_byte(s, i, MINUS) {
        i + 1
    } else {
        i
    };
    if let Some(b) = int_part_end(s, a) {
        lemma_digits_end_bounds(s, a);
        if let Some(c) = fraction_end(s, b) {
            if has_byte(s, b, DOT) {
                lemma_digits_end_bounds(s, b + 1);
            }
            if let Some(e) = exponent_end(s, c) {
                if has_byte(s, c, 0x65) || has_byte(s, c, 0x45) {
                    let j = if has_byte(s, c + 1, PLUS) || has_byte(s, c + 1, MINUS) {
                        c + 2
                    } else {
                        c + 1
                    };
                    lemma_digits_end_bounds(s, j);
                }
            }
        }
    }
}

pub proof fn lemma_string_end_bounds(s: Seq<u8>, i: int)
    requires
        0 <= i,
    ensures
        string_end(s, i) matches Some(e) ==> i < e <= s.len() && s[e - 1] == QUOTE,
    decreases s.len() - i,
{
    if 0 <= i < s.len() && s[i] != QUOTE {
        if s[i] == BACKSLASH {
            if i + 1 < s.len() && is_simple_escape(s[i + 1]) {
                lemma_string_end_bounds(s, i + 2);
            } else if has_byte(s, i + 1, 0x75) && has_four_hex(s, i + 2) {
                lemma_string_end_bounds(s, i + 6);
            }
        } else if s[i] >= 0x20 {
            lemma_string_end_bounds(s, i + 1);
        }
    }
}

pub proof fn lemma_value_bounds(s: Seq<u8>, i: int, depth: nat)
    ensures
        parse_value(s, i, depth) matches Some((_, e)) ==> 0 <= i < e <= s.len(),
    decreases s.len() - i, depth, 0nat,
{
    if 0 <= i < s.len() {
        if s[i] == QUOTE {
            lemma_string_end_bounds(s, i + 1);
        } else if s[i] == OPEN_BRACKET {
            if depth > 0 && !has_byte(s, i + 1, CLOSE_BRACKET) {
                lemma_elements_bounds(s, i + 1, (depth - 1) as nat);
            }
        } else if s[i] == OPEN_BRACE {
            if depth > 0 && !has_byte(s, i + 1, CLOSE_BRACE) {
                lemma_members_bounds(s, i + 1, (depth - 1) as nat);
            }
        } else if has_true(s, i) || has_false(s, i) || has_null(s, i) {
        } else {
            lemma_number_end_bounds(s, i);
        }
    }
}

pub proof fn lemma_elements_bounds(s: Seq<u8>, i: int, depth: nat)
    ensures
        parse_elements(s, i, depth) matches Some((items, e)) ==> 0 <= i < e <= s.len()
            && items.len() >= 1,
    decreases s.len() - i, depth, 1nat,
{
    lemma_value_bounds(s, i, depth);
    if let Some((first, e)) = parse_value(s, i, depth) {
        if e > i && !has_byte(s, e, CLOSE_BRACKET) && has_byte(s, e, COMMA) {
            lemma_elements_bounds(s, e + 1, depth);
        }
    }
}

pub proof fn lemma_member_bounds(s: Seq<u8>, i: int, depth: nat)
    ensures
        parse_member(s, i, depth) matches Some((_, e)) ==> 0 <= i < e <= s.len(),
    decreases s.len() - i, depth, 1nat,
{
    if has_byte(s, i, QUOTE) {
        lemma_string_end_bounds(s, i + 1);
        if let Some(k) = string_end(s, i + 1) {
            if k > i && has_byte(s, k, COLON) {
                lemma_value_bounds(s, k + 1, depth);
            }
        }
    }
}

pub proof fn lemma_members_bounds(s: Seq<u8>, i: int, depth: nat)
    ensures
        parse_members(s, i, depth) matches Some((members, e)) ==> 0 <= i < e <= s.len()
            && members.len() >= 1,
    decreases s.len() - i, depth, 2nat,
{
    lemma_member_bounds(s, i, depth);
    if let Some((first, e)) = parse_member(s, i, depth) {
        if e > i && !has_byte(s, e, CLOSE_BRACE) && has_byte(s, e, COMMA) {
            lemma_members_bounds(s, e + 1, depth);
        }
    }
}

fn digit(b: u8) -> (yes: bool)
    ensures
        yes == is_digit(b),
{
    0x30 <= b && b <= 0x39
}

fn hex_digit(b: u8) -> (yes: bool)
    ensures
        yes == is_hex_digit(b),
{
    digit(b) || (0x41 <= b && b <= 0x46) || (0x61 <= b && b <= 0x66)
}

fn simple_escape(b: u8) -> (yes: bool)
    ensures
        yes == is_simple_escape(b),
{
    b == QUOTE || b == BACKSLASH || b == 0x2f || b == 0x62 || b == 0x66 || b == 0x6e || b == 0x72
        || b == 0x74
}

/// Whether `s` holds `b` at `i`.
fn byte_at(s: &[u8], i: usize, b: u8) -> (yes: bool)
    ensures
        yes == has_byte(s@, i as int, b),
{
    i < s.len() && s[i] == b
}

fn digit_at(s: &[u8], i: usize) -> (yes: bool)
    ensures
        yes == has_digit(s@, i as int),
{
    i < s.len() && digit(s[i])
}

/// The end of the run of digits that starts at `i`.
pub fn scan_digits(s: &[u8], i: usize) -> (e: usize)
    ensures
        e == digits_end(s@, i as int),
        i <= e,
        e <= s.len() || e == i,
{
    let mut e: usize = i;
    while digit_at(s, e)
        invariant
            i <= e,
            e <= s.len() || e == i,
            digits_end(s@, i as int) == digits_end(s@, e as int),
        decreases s.len() - e,
    {
        e = e + 1;
    }
    e
}

/// The number that starts at `i`: its end, and whether it is an integer.
pub fn scan_number(s: &[u8], i: usize) -> (r: Option<(usize, bool)>)
    ensures
        match number_end(s@, i as int) {
            Some((e, integral)) => r == Some((e as usize, integral)) && i < e <= s.len(),
            None => r is None,
        },
{
    proof {
        if i <= s.len() {
            lemma_number_end_bounds(s@, i as int);
        }
    }
    let a: usize = if byte_at(s, i, MINUS) {
        i + 1
    } else {
        i
    };
    if !digit_at(s, a) {
        return None;
    }
    let b: usize = if s[a] == ZERO {
        a + 1
    } else {
        scan_digits(s, a)
    };
    let c: usize = if !byte_at(s, b, DOT) {
        b
    } else if digit_at(s, b + 1) {
        scan_digits(s, b + 1)
    } else {
        return None;
    };
    proof {
        lemma_digits_end_bounds(s@, a as int);
        if has_byte(s@, b as int, DOT) {
            lemma_digits_end_bounds(s@, b + 1);
        }
    }
    if !(byte_at(s, c, 0x65) || byte_at(s, c, 0x45)) {
        return Some((c, c == b));
    }
    let j: usize = if byte_at(s, c + 1, PLUS) || byte_at(s, c + 1, MINUS) {
        c + 2
    } else {
        c + 1
    };
    if digit_at(s, j) {
        let e = scan_digits(s, j);
        Some((e, e == b))
    } else {
        None
    }
}

/// The string whose first byte after the opening quote is at `start`: the
/// position after its closing quote.
pub fn scan_string(s: &[u8], start: usize) -> (r: Option<usize>)
    ensures
        match string_end(s@, start as int) {
            Some(e) => r == Some(e as usize) && start < e <= s.len(),
            None => r is None,
        },
{
    proof {
        lemma_string_end_bounds(s@, start as int);
    }
    let n = s.len();
    let mut i: usize = start;
    while i < n
        invariant
            start <= i,
            i <= n || i == start,
            n == s.len(),
            string_end(s@, start as int) == string_end(s@, i as int),
        decreases n - i,
    {
        let b = s[i];
        if b == QUOTE {
            return Some(i + 1);
        } else if b == BACKSLASH {
            if n - i >= 2 && simple_escape(s[i + 1]) {
                i = i + 2;
            } else if n - i >= 6 && s[i + 1] == 0x75 && hex_digit(s[i + 2]) && hex_digit(s[i + 3])
                && hex_digit(s[i + 4]) && hex_digit(s[i + 5]) {
                i = i + 6;
            } else {
                return None;
            }
        } else if b < 0x20 {
            return None;
        } else {
            i = i + 1;
        }
    }
    None
}

fn true_at(s: &[u8], i: usize) -> (yes: bool)
    requires
        i < s.len(),
    ensures
        yes == has_true(s@, i as int),
{
    s.len() - i >= 4 && s[i] == 0x74 && s[i + 1] == 0x72 && s[i + 2] == 0x75 && s[i + 3] == 0x65
}

fn false_at(s: &[u8], i: usize) -> (yes: bool)
    requires
        i < s.len(),
    ensures
        yes == has_false(s@, i as int),
{
    s.len() - i >= 5 && s[i] == 0x66 && s[i + 1] == 0x61 && s[i + 2] == 0x6c && s[i + 3] == 0x73
        && s[i + 4] == 0x65
}

fn null_at(s: &[u8], i: usize) -> (yes: bool)
    requires
        i < s.len(),
    ensures
        yes == has_null(s@, i as int),
{
    s.len() - i >= 4 && s[i] == 0x6e && s[i + 1] == 0x75 && s[i + 2] == 0x6c && s[i + 3] == 0x6c
}

/// The value that starts at `i`: its kind, and where it ends.
pub fn scan_value(s: &[u8], i: usize, depth: usize) -> (r: Option<(Kind, usize)>)
    ensures
        match parse_value(s@, i as int, depth as nat) {
            Some((value, e)) => r == Some((kind_of(value), e as usize)) && i < e <= s.len(),
            None => r is None,
        },
    decreases depth, 0nat,
{
    proof {
        lemma_value_bounds(s@, i as int, depth as nat);
    }
    if i >= s.len() {
        return None;
    }
    let b = s[i];
    if b == QUOTE {
        match scan_string(s, i + 1) {
            Some(e) => Some((Kind::Text, e)),
            None => None,
        }
    } else if b == OPEN_BRACKET {
        if depth == 0 {
            None
        } else if byte_at(s, i + 1, CLOSE_BRACKET) {
            Some((Kind::Array, i + 2))
        } else {
            match scan_elements(s, i + 1, depth - 1) {
                Some(e) => Some((Kind::Array, e)),
                None => None,
            }
        }
    } else if b == OPEN_BRACE {
        if depth == 0 {
            None
        } else if byte_at(s, i + 1, CLOSE_BRACE) {
            Some((Kind::Object, i + 2))
        } else {
            match scan_members(s, i + 1, depth - 1) {
                Some(e) => Some((Kind::Object, e)),
                None => None,
            }
        }
    } else if true_at(s, i) {
        Some((Kind::Bool, i + 4))
    } else if false_at(s, i) {
        Some((Kind::Bool, i + 5))
    } else if null_at(s, i) {
        Some((Kind::Null, i + 4))
    } else {
        match scan_number(s, i) {
            Some((e, true)) => Some((Kind::Integer, e)),
            Some((e, false)) => Some((Kind::Decimal, e)),
            None => None,
        }
    }
}

/// The elements of an array from `start` on: the position after the closing
/// bracket.
fn scan_elements(s: &[u8], start: usize, depth: usize) -> (r: Option<usize>)
    requires
        start <= s.len(),
    ensures
        match parse_elements(s@, start as int, depth as nat) {
            Some((_, e)) => r == Some(e as usize) && start < e <= s.len(),
            None => r is None,
        },
    decreases depth, 1nat,
{
    proof {
        lemma_elements_bounds(s@, start as int, depth as nat);
    }
    let mut cur: usize = start;
    loop
        invariant
            start <= cur <= s.len(),
            end_of(parse_elements(s@, start as int, depth as nat)) == end_of(
                parse_elements(s@, cur as int, depth as nat),
            ),
        decreases s.len() - cur,
    {
        match scan_value(s, cur, depth) {
            None => {
                return None;
            },
            Some((_, e)) => {
                if byte_at(s, e, CLOSE_BRACKET) {
                    return Some(e + 1);
                } else if byte_at(s, e, COMMA) {
                    cur = e + 1;
                } else {
                    return None;
                }
            },
        }
    }
}

/// The member that starts at `i`: where its key ends (the position after the
/// closing quote), the kind of its value, and where the member ends.
pub fn scan_member(s: &[u8], i: usize, depth: usize) -> (r: Option<(usize, Kind, usize)>)
    ensures
        match parse_member(s@, i as int, depth as nat) {
            Some(((key, value), e)) => {
                &&& r matches Some((k, kind, end))
                &&& i + 2 <= k < end
                &&& end == e <= s.len()
                &&& s@.subrange(i + 1, k - 1) == key
                &&& kind == kind_of(value)
            },
            None => r is None,
        },
    decreases depth, 1nat,
{
    if !byte_at(s, i, QUOTE) {
        return None;
    }
    assert(i < s.len());
    match scan_string(s, i + 1) {
        None => None,
        Some(k) => {
            if !byte_at(s, k, COLON) {
                return None;
            }
            match scan_value(s, k + 1, depth) {
                Some((kind, e)) => Some((k, kind, e)),
                None => None,
            }
        },
    }
}

/// The members of an object from `start` on: the position after the closing
/// brace.
fn scan_members(s: &[u8], start: usize, depth: usize) -> (r: Option<usize>)
    requires
        start <= s.len(),
    ensures
        match parse_members(s@, start as int, depth as nat) {
            Some((_, e)) => r == Some(e as usize) && start < e <= s.len(),
            None => r is None,
        },
    decreases depth, 2nat,
{
    proof {
        lemma_members_bounds(s@, start as int, depth as nat);
    }
    let mut cur: usize = start;
    loop
        invariant
            start <= cur <= s.len(),
            end_of(parse_members(s@, start as int, depth as nat)) == end_of(
                parse_members(s@, cur as int, depth as nat),
            ),
        decreases s.len() - cur,
    {
        match scan_member(s, cur, depth) {
            None => {
                return None;
            },
            Some((_, _, e)) => {
                if byte_at(s, e, CLOSE_BRACE) {
                    return Some(e + 1);
                } else if byte_at(s, e, COMMA) {
                    cur = e + 1;
                } else {
                    return None;
                }
            },
        }
    }
}

} // verus!
