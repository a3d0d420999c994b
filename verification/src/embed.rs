//! A value reads the same wherever its text stands: the scanners look at the
//! bytes of the value and, for a number, at the one byte behind it.

use crate::json::{
    digits_end, exponent_end, fraction_end, has_byte, has_digit, has_false, has_four_hex, has_null,
    has_true, int_part_end, is_simple_escape, number_end, parse_elements, parse_member,
    parse_members, parse_value, stop_of, string_end, BACKSLASH, CLOSE_BRACE, CLOSE_BRACKET, COMMA,
    DOT, MINUS, OPEN_BRACE, OPEN_BRACKET, PLUS, QUOTE,
};
use crate::scan::{
    lemma_digits_end_bounds, lemma_elements_bounds, lemma_member_bounds, lemma_members_bounds,
    lemma_number_end_bounds, lemma_string_end_bounds, lemma_value_bounds,
};
use vstd::prelude::*;

verus! {

/// Position `p` of `a` and position `off + p` of `b` hold the same byte, or
/// both lie behind the end.
pub open spec fn same_at(a: Seq<u8>, b: Seq<u8>, off: int, p: int) -> bool {
    if 0 <= p < a.len() {
        has_byte(b, off + p, a[p])
    } else {
        !(0 <= off + p < b.len())
    }
}

/// `b` holds from `off + i` what `a` holds from `i`, up to `e`.
pub open spec fn covers(a: Seq<u8>, b: Seq<u8>, off: int, i: int, e: int) -> bool {
    &&& 0 <= off
    &&& 0 <= i
    &&& forall|p: int| i <= p < e ==> #[trigger] same_at(a, b, off, p)
}

proof fn lemma_same_byte(a: Seq<u8>, b: Seq<u8>, off: int, p: int)
    requires
        0 <= off,
        0 <= p,
        same_at(a, b, off, p),
    ensures
        forall|c: u8| has_byte(a, p, c) == has_byte(b, off + p, c),
        has_digit(a, p) == has_digit(b, off + p),
{
}

proof fn lemma_digits_embed(a: Seq<u8>, b: Seq<u8>, off: int, i: int)
    requires
        0 <= i <= a.len(),
        covers(a, b, off, i, digits_end(a, i) + 1),
    ensures
        digits_end(b, off + i) == off + digits_end(a, i),
    decreases a.len() - i,
{
    lemma_digits_end_bounds(a, i);
    assert(same_at(a, b, off, i));
    lemma_same_byte(a, b, off, i);
    if has_digit(a, i) {
        lemma_digits_embed(a, b, off, i + 1);
    }
}

proof fn lemma_number_embed(a: Seq<u8>, b: Seq<u8>, off: int, i: int)
    requires
        0 <= i <= a.len(),
        number_end(a, i) matches Some((e, _)) && covers(a, b, off, i, e + 1),
    ensures
        number_end(a, i) matches Some((e, integral)) && number_end(b, off + i) == Some(
            (off + e, integral),
        ),
{
    let end = match number_end(a, i) {
        Some((e, _)) => e,
        None => 0,
    };
    lemma_number_end_bounds(a, i);
    let a0 = if has_byte(a, i, MINUS) {
        i + 1
    } else {
        i
    };
    let b0 = int_part_end(a, a0)->0;
    let c0 = fraction_end(a, b0)->0;
    lemma_digits_end_bounds(a, a0);
    if has_byte(a, b0, DOT) {
        lemma_digits_end_bounds(a, b0 + 1);
    }
    if has_byte(a, c0, 0x65) || has_byte(a, c0, 0x45) {
        let j = if has_byte(a, c0 + 1, PLUS) || has_byte(a, c0 + 1, MINUS) {
            c0 + 2
        } else {
            c0 + 1
        };
        lemma_digits_end_bounds(a, j);
        assert(same_at(a, b, off, c0 + 1));
        lemma_same_byte(a, b, off, c0 + 1);
        assert(same_at(a, b, off, j));
        lemma_same_byte(a, b, off, j);
        lemma_digits_embed(a, b, off, j);
    }
    assert(a0 < b0 <= c0 <= end);
    assert(same_at(a, b, off, i));
    lemma_same_byte(a, b, off, i);
    assert(same_at(a, b, off, a0));
    lemma_same_byte(a, b, off, a0);
    assert(same_at(a, b, off, b0));
    lemma_same_byte(a, b, off, b0);
    assert(same_at(a, b, off, c0));
    lemma_same_byte(a, b, off, c0);
    if a[a0] != 0x30 {
        lemma_digits_embed(a, b, off, a0);
    }
    assert(int_part_end(b, off + a0) == Some(off + b0));
    if has_byte(a, b0, DOT) {
        assert(same_at(a, b, off, b0 + 1));
        lemma_same_byte(a, b, off, b0 + 1);
        lemma_digits_embed(a, b, off, b0 + 1);
    }
    assert(fraction_end(b, off + b0) == Some(off + c0));
    assert(exponent_end(b, off + c0) == Some(off + end));
}

proof fn lemma_string_embed(a: Seq<u8>, b: Seq<u8>, off: int, i: int)
    requires
        string_end(a, i) matches Some(e) && covers(a, b, off, i, e),
    ensures
        string_end(a, i) matches Some(e) && string_end(b, off + i) == Some(off + e),
    decreases a.len() - i,
{
    let e = string_end(a, i)->0;
    lemma_string_end_bounds(a, i);
    assert(same_at(a, b, off, i));
    if a[i] == QUOTE {
    } else if a[i] == BACKSLASH {
        if i + 1 < a.len() && is_simple_escape(a[i + 1]) {
            lemma_string_end_bounds(a, i + 2);
            assert(same_at(a, b, off, i + 1));
            lemma_string_embed(a, b, off, i + 2);
        } else {
            lemma_string_end_bounds(a, i + 6);
            assert(same_at(a, b, off, i + 1));
            assert(same_at(a, b, off, i + 2));
            assert(same_at(a, b, off, i + 3));
            assert(same_at(a, b, off, i + 4));
            assert(same_at(a, b, off, i + 5));
            assert(has_four_hex(b, off + i + 2));
            lemma_string_embed(a, b, off, i + 6);
        }
    } else {
        lemma_string_embed(a, b, off, i + 1);
    }
}

/// A value that `a` holds from `i` to `e` is the value that `b` holds at
/// `off + i`, where `b` holds the same bytes there and, behind a number, the
/// same next byte.
pub proof fn lemma_value_embed(a: Seq<u8>, b: Seq<u8>, off: int, i: int, depth: nat)
    requires
        parse_value(a, i, depth) matches Some((value, e)) && covers(a, b, off, i, e) && ((value
            is Integer || value is Decimal) ==> same_at(a, b, off, e)),
    ensures
        parse_value(a, i, depth) matches Some((value, e)) && parse_value(b, off + i, depth)
            == Some((value, off + e)),
    decreases a.len() - i, depth, 0nat,
{
    let e = stop_of(parse_value(a, i, depth));
    lemma_value_bounds(a, i, depth);
    assert(same_at(a, b, off, i));
    if a[i] == QUOTE {
        lemma_string_end_bounds(a, i + 1);
        lemma_string_embed(a, b, off, i + 1);
        assert(same_at(a, b, off, e - 1));
        assert(a.subrange(i + 1, e - 1) =~= b.subrange(off + i + 1, off + e - 1)) by {
            assert forall|p: int| i + 1 <= p < e - 1 implies a[p] == b[off + p] by {
                assert(same_at(a, b, off, p));
            }
        }
    } else if a[i] == OPEN_BRACKET {
        lemma_elements_bounds(a, i + 1, (depth - 1) as nat);
        assert(same_at(a, b, off, i + 1));
        lemma_same_byte(a, b, off, i + 1);
        if !has_byte(a, i + 1, CLOSE_BRACKET) {
            lemma_elements_embed(a, b, off, i + 1, (depth - 1) as nat);
        }
    } else if a[i] == OPEN_BRACE {
        lemma_members_bounds(a, i + 1, (depth - 1) as nat);
        assert(same_at(a, b, off, i + 1));
        lemma_same_byte(a, b, off, i + 1);
        if !has_byte(a, i + 1, CLOSE_BRACE) {
            lemma_members_embed(a, b, off, i + 1, (depth - 1) as nat);
        }
    } else if has_true(a, i) {
        assert(same_at(a, b, off, i + 1));
        assert(same_at(a, b, off, i + 2));
        assert(same_at(a, b, off, i + 3));
    } else if has_false(a, i) {
        assert(same_at(a, b, off, i + 1));
        assert(same_at(a, b, off, i + 2));
        assert(same_at(a, b, off, i + 3));
        assert(same_at(a, b, off, i + 4));
    } else if has_null(a, i) {
        assert(same_at(a, b, off, i + 1));
        assert(same_at(a, b, off, i + 2));
        assert(same_at(a, b, off, i + 3));
    } else {
        lemma_number_end_bounds(a, i);
        lemma_number_embed(a, b, off, i);
        assert(!has_true(b, off + i) && !has_false(b, off + i) && !has_null(b, off + i)) by {
            lemma_same_byte(a, b, off, i);
        }
        assert(same_at(a, b, off, e - 1));
        assert(a.subrange(i, e) =~= b.subrange(off + i, off + e)) by {
            assert forall|p: int| i <= p < e implies a[p] == b[off + p] by {
                assert(same_at(a, b, off, p));
            }
        }
    }
}

pub proof fn lemma_elements_embed(a: Seq<u8>, b: Seq<u8>, off: int, i: int, depth: nat)
    requires
        parse_elements(a, i, depth) matches Some((_, e)) && covers(a, b, off, i, e),
    ensures
        parse_elements(a, i, depth) matches Some((items, e)) && parse_elements(b, off + i, depth)
            == Some((items, off + e)),
    decreases a.len() - i, depth, 1nat,
{
    lemma_elements_bounds(a, i, depth);
    lemma_value_bounds(a, i, depth);
    let e = stop_of(parse_value(a, i, depth));
    if has_byte(a, e, COMMA) && !has_byte(a, e, CLOSE_BRACKET) {
        lemma_elements_bounds(a, e + 1, depth);
    }
    assert(same_at(a, b, off, e));
    lemma_same_byte(a, b, off, e);
    lemma_value_embed(a, b, off, i, depth);
    if has_byte(a, e, COMMA) && !has_byte(a, e, CLOSE_BRACKET) {
        lemma_elements_embed(a, b, off, e + 1, depth);
    }
}

pub proof fn lemma_member_embed(a: Seq<u8>, b: Seq<u8>, off: int, i: int, depth: nat)
    requires
        parse_member(a, i, depth) matches Some(((_, value), e)) && covers(a, b, off, i, e) && ((
        value is Integer || value is Decimal) ==> same_at(a, b, off, e)),
    ensures
        parse_member(a, i, depth) matches Some((member, e)) && parse_member(b, off + i, depth)
            == Some((member, off + e)),
    decreases a.len() - i, depth, 1nat,
{
    lemma_member_bounds(a, i, depth);
    lemma_string_end_bounds(a, i + 1);
    let k = string_end(a, i + 1)->0;
    lemma_value_bounds(a, k + 1, depth);
    assert(same_at(a, b, off, i));
    assert(same_at(a, b, off, k));
    lemma_string_embed(a, b, off, i + 1);
    lemma_same_byte(a, b, off, k);
    lemma_value_embed(a, b, off, k + 1, depth);
    assert(same_at(a, b, off, k - 1));
    assert(a.subrange(i + 1, k - 1) =~= b.subrange(off + i + 1, off + k - 1)) by {
        assert forall|p: int| i + 1 <= p < k - 1 implies a[p] == b[off + p] by {
            assert(same_at(a, b, off, p));
        }
    }
}

pub proof fn lemma_members_embed(a: Seq<u8>, b: Seq<u8>, off: int, i: int, depth: nat)
    requires
        parse_members(a, i, depth) matches Some((_, e)) && covers(a, b, off, i, e),
    ensures
        parse_members(a, i, depth) matches Some((members, e)) && parse_members(b, off + i, depth)
            == Some((members, off + e)),
    decreases a.len() - i, depth, 2nat,
{
    lemma_members_bounds(a, i, depth);
    lemma_member_bounds(a, i, depth);
    let e = stop_of(parse_member(a, i, depth));
    if has_byte(a, e, COMMA) && !has_byte(a, e, CLOSE_BRACE) {
        lemma_members_bounds(a, e + 1, depth);
    }
    assert(same_at(a, b, off, e));
    lemma_same_byte(a, b, off, e);
    lemma_member_embed(a, b, off, i, depth);
    if has_byte(a, e, COMMA) && !has_byte(a, e, CLOSE_BRACE) {
        lemma_members_embed(a, b, off, e + 1, depth);
    }
}

} // verus!
