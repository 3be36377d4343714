//! A verified JSON text parser for the subset the serializer emits:
//! null, booleans, 64-bit integers, strings with the short escape
//! sequences, arrays and objects, with whitespace between tokens.
//!
//! `\u` escapes and fractional or exponent number forms are not part
//! of this codec's integer-and-bytes model and are rejected as
//! malformed input.

use vstd::prelude::*;

use crate::json::JsonSpec;
use crate::json::JsonValue;
use crate::json::views_of;
use crate::json::member_views_of;
use crate::json::ser_nat;
use crate::json::ser_int;
use crate::json::ser_str;
use crate::json::ser_val;
use crate::json::ser_items;
use crate::json::ser_member;
use crate::json::ser_members;
use crate::json::esc_byte;
use crate::json::esc_bytes;
use crate::json::digit_byte;

verus! {

/// JSON whitespace.
pub open spec fn is_ws(b: u8) -> bool {
    b == 32 || b == 9 || b == 10 || b == 13
}

/// An ASCII decimal digit.
pub open spec fn is_digit(b: u8) -> bool {
    48 <= b <= 57
}

/// The first index at or after `i` that does not hold a digit.
pub open spec fn digits_end(s: Seq<u8>, i: int) -> int
    decreases s.len() - i,
{
    if i < 0 || i >= s.len() || !is_digit(s[i]) {
        i
    } else {
        digits_end(s, i + 1)
    }
}

/// The value of the decimal digits at `i..j`.
pub open spec fn digits_val(s: Seq<u8>, i: int, j: int) -> int
    decreases j - i,
{
    if j <= i {
        0
    } else {
        digits_val(s, i, j - 1) * 10 + (s[j - 1] - 48)
    }
}

/// Whether only whitespace stands at `i` and after.
pub open spec fn all_ws_from(s: Seq<u8>, i: int) -> bool
    decreases s.len() - i,
{
    if i < 0 {
        false
    } else if i >= s.len() {
        true
    } else if is_ws(s[i]) {
        all_ws_from(s, i + 1)
    } else {
        false
    }
}

/// Parses a number starting at `i` (a minus sign or digit). JSON
/// forbids leading zeros; values outside the 64-bit signed range are
/// rejected.
pub open spec fn parse_int_at(s: Seq<u8>, i: int) -> Option<(JsonSpec, int)> {
    let d0 = if 0 <= i < s.len() && s[i] == 45 {
        i + 1
    } else {
        i
    };
    let j = digits_end(s, d0);
    if j == d0 {
        None
    } else if s[d0] == 48 && j > d0 + 1 {
        None
    } else {
        let m = digits_val(s, d0, j);
        let n: int = if d0 > i {
            -m
        } else {
            m
        };
        if -0x8000_0000_0000_0000 <= n < 0x8000_0000_0000_0000 {
            Some((JsonSpec::Int(n), j))
        } else {
            None
        }
    }
}

/// Parses a string body starting just after the opening quote,
/// `acc` holding the bytes read so far; yields the content and the
/// index after the closing quote.
pub open spec fn parse_str_body(s: Seq<u8>, i: int, acc: Seq<u8>) -> Option<(Seq<u8>, int)>
    decreases s.len() - i,
{
    if i < 0 || i >= s.len() {
        None
    } else if s[i] == 34 {
        Some((acc, i + 1))
    } else if s[i] == 92 {
        if i + 1 < s.len() {
            let e = s[i + 1];
            if e == 34 {
                parse_str_body(s, i + 2, acc.push(34))
            } else if e == 92 {
                parse_str_body(s, i + 2, acc.push(92))
            } else if e == 47 {
                parse_str_body(s, i + 2, acc.push(47))
            } else if e == 98 {
                parse_str_body(s, i + 2, acc.push(8))
            } else if e == 116 {
                parse_str_body(s, i + 2, acc.push(9))
            } else if e == 110 {
                parse_str_body(s, i + 2, acc.push(10))
            } else if e == 102 {
                parse_str_body(s, i + 2, acc.push(12))
            } else if e == 114 {
                parse_str_body(s, i + 2, acc.push(13))
            } else {
                None
            }
        } else {
            None
        }
    } else if s[i] < 32 {
        None
    } else {
        parse_str_body(s, i + 1, acc.push(s[i]))
    }
}

/// Parses one JSON value starting at `i`, leading whitespace allowed;
/// yields the value and the index just after it.
pub open spec fn parse_val(s: Seq<u8>, i: int) -> Option<(JsonSpec, int)>
    decreases s.len() - i, 0int,
{
    if i < 0 || i >= s.len() {
        None
    } else if is_ws(s[i]) {
        parse_val(s, i + 1)
    } else if s[i] == 110 {
        if i + 4 <= s.len() && s[i + 1] == 117 && s[i + 2] == 108 && s[i + 3] == 108 {
            Some((JsonSpec::Null, i + 4))
        } else {
            None
        }
    } else if s[i] == 116 {
        if i + 4 <= s.len() && s[i + 1] == 114 && s[i + 2] == 117 && s[i + 3] == 101 {
            Some((JsonSpec::Bool(true), i + 4))
        } else {
            None
        }
    } else if s[i] == 102 {
        if i + 5 <= s.len() && s[i + 1] == 97 && s[i + 2] == 108 && s[i + 3] == 115 && s[i + 4]
            == 101 {
            Some((JsonSpec::Bool(false), i + 5))
        } else {
            None
        }
    } else if s[i] == 34 {
        match parse_str_body(s, i + 1, Seq::empty()) {
            Some((content, j)) => Some((JsonSpec::Str(content), j)),
            None => None,
        }
    } else if s[i] == 45 || is_digit(s[i]) {
        parse_int_at(s, i)
    } else if s[i] == 91 {
        parse_elems(s, i + 1, Seq::empty(), true)
    } else if s[i] == 123 {
        parse_members(s, i + 1, Seq::empty(), true)
    } else {
        None
    }
}

/// Parses array elements: either the closing bracket of an empty
/// array (only directly after `[`), or a value followed by more
/// elements.
pub open spec fn parse_elems(s: Seq<u8>, i: int, acc: Seq<JsonSpec>, first: bool) -> Option<
    (JsonSpec, int),
>
    decreases s.len() - i, 1int,
{
    if i < 0 || i >= s.len() {
        None
    } else if is_ws(s[i]) {
        parse_elems(s, i + 1, acc, first)
    } else if first && s[i] == 93 {
        Some((JsonSpec::Arr(acc), i + 1))
    } else {
        match parse_val(s, i) {
            Some((v, j)) => if j <= i || j > s.len() {
                None
            } else {
                parse_after_elem(s, j, acc.push(v))
            },
            None => None,
        }
    }
}

/// After an array element: a comma and more elements, or the closing
/// bracket.
pub open spec fn parse_after_elem(s: Seq<u8>, i: int, acc: Seq<JsonSpec>) -> Option<
    (JsonSpec, int),
>
    decreases s.len() - i, 2int,
{
    if i < 0 || i >= s.len() {
        None
    } else if is_ws(s[i]) {
        parse_after_elem(s, i + 1, acc)
    } else if s[i] == 44 {
        parse_elems(s, i + 1, acc, false)
    } else if s[i] == 93 {
        Some((JsonSpec::Arr(acc), i + 1))
    } else {
        None
    }
}

/// Parses object members: either the closing brace of an empty object
/// (only directly after `{`), or a quoted key.
pub open spec fn parse_members(
    s: Seq<u8>,
    i: int,
    acc: Seq<(Seq<u8>, JsonSpec)>,
    first: bool,
) -> Option<(JsonSpec, int)>
    decreases s.len() - i, 1int,
{
    if i < 0 || i >= s.len() {
        None
    } else if is_ws(s[i]) {
        parse_members(s, i + 1, acc, first)
    } else if first && s[i] == 125 {
        Some((JsonSpec::Obj(acc), i + 1))
    } else if s[i] == 34 {
        match parse_str_body(s, i + 1, Seq::empty()) {
            Some((k, j)) => if j <= i || j > s.len() {
                None
            } else {
                parse_colon(s, j, acc, k)
            },
            None => None,
        }
    } else {
        None
    }
}

/// After an object key: a colon, then the member's value.
pub open spec fn parse_colon(s: Seq<u8>, i: int, acc: Seq<(Seq<u8>, JsonSpec)>, k: Seq<u8>) -> Option<
    (JsonSpec, int),
>
    decreases s.len() - i, 2int,
{
    if i < 0 || i >= s.len() {
        None
    } else if is_ws(s[i]) {
        parse_colon(s, i + 1, acc, k)
    } else if s[i] == 58 {
        match parse_val(s, i + 1) {
            Some((v, j)) => if j <= i || j > s.len() {
                None
            } else {
                parse_after_member(s, j, acc.push((k, v)))
            },
            None => None,
        }
    } else {
        None
    }
}

/// After an object member: a comma and more members, or the closing
/// brace.
pub open spec fn parse_after_member(s: Seq<u8>, i: int, acc: Seq<(Seq<u8>, JsonSpec)>) -> Option<
    (JsonSpec, int),
>
    decreases s.len() - i, 3int,
{
    if i < 0 || i >= s.len() {
        None
    } else if is_ws(s[i]) {
        parse_after_member(s, i + 1, acc)
    } else if s[i] == 44 {
        parse_members(s, i + 1, acc, false)
    } else if s[i] == 125 {
        Some((JsonSpec::Obj(acc), i + 1))
    } else {
        None
    }
}

/// Parses a whole text: one JSON value with nothing but whitespace
/// around it.
pub open spec fn parse_json(s: Seq<u8>) -> Option<JsonSpec> {
    match parse_val(s, 0) {
        Some((v, j)) => if all_ws_from(s, j) {
            Some(v)
        } else {
            None
        },
        None => None,
    }
}


/// One power of ten.
pub open spec fn pow10(n: nat) -> int
    decreases n,
{
    if n == 0 {
        1
    } else {
        10 * pow10((n - 1) as nat)
    }
}

/// Powers of ten grow with the exponent.
proof fn lemma_pow10_mono(a: nat, b: nat)
    requires
        a <= b,
    ensures
        0 < pow10(a) <= pow10(b),
    decreases b,
{
    if b > 0 {
        if a == b {
            lemma_pow10_mono((a - 1) as nat, (b - 1) as nat);
        } else {
            lemma_pow10_mono(a, (b - 1) as nat);
        }
    }
}

/// The value of a digit run is bounded by powers of ten; a run that
/// does not start with zero is at least the power of its length less
/// one.
proof fn lemma_digits_val_bounds(s: Seq<u8>, i: int, j: int)
    requires
        0 <= i <= j <= s.len(),
        forall|k: int| i <= k < j ==> is_digit(#[trigger] s[k]),
    ensures
        0 <= digits_val(s, i, j) < pow10((j - i) as nat),
        j > i && s[i] >= 49 ==> digits_val(s, i, j) >= pow10((j - i - 1) as nat),
    decreases j - i,
{
    if j > i {
        lemma_digits_val_bounds(s, i, j - 1);
        lemma_pow10_mono(((j - 1) - i) as nat, (j - i) as nat);
        assert(digits_val(s, i, j) == digits_val(s, i, j - 1) * 10 + (s[j - 1] - 48));
        assert(pow10((j - i) as nat) == 10 * pow10((j - i - 1) as nat));
    }
}

/// Scans past decimal digits.
fn skip_digits(s: &[u8], i: usize) -> (j: usize)
    requires
        i <= s@.len(),
    ensures
        i <= j <= s@.len(),
        digits_end(s@, i as int) == j as int,
        forall|k: int| i <= k < j ==> is_digit(#[trigger] s@[k]),
    decreases s@.len() - i,
{
    let mut k: usize = i;
    while k < s.len() && 48 <= s[k] && s[k] <= 57
        invariant
            i <= k <= s@.len(),
            digits_end(s@, i as int) == digits_end(s@, k as int),
            forall|m: int| i <= m < k ==> is_digit(#[trigger] s@[m]),
        decreases s@.len() - k,
    {
        k = k + 1;
    }
    k
}

/// Parses a number token; mirrors `parse_int_at`.
fn parse_number(s: &[u8], i: usize) -> (r: Option<(JsonValue, usize)>)
    requires
        i < s@.len(),
    ensures
        match r {
            Some(p) => parse_int_at(s@, i as int) == Some((p.0@, p.1 as int)) && i < p.1
                <= s@.len(),
            None => parse_int_at(s@, i as int) is None,
        },
{
    let neg = s[i] == 45;
    let d0: usize = if neg {
        i + 1
    } else {
        i
    };
    let j = skip_digits(s, d0);
    if j == d0 {
        return None;
    }
    if s[d0] == 48 && j > d0 + 1 {
        return None;
    }
    proof {
        lemma_digits_val_bounds(s@, d0 as int, j as int);
    }
    let count: usize = j - d0;
    if count > 19 {
        proof {
            assert(s@[d0 as int] >= 49);
            lemma_pow10_mono(19nat, (count - 1) as nat);
            assert(pow10(19nat) == 10_000_000_000_000_000_000int) by {
                reveal_with_fuel(pow10, 21);
            }
            assert(digits_val(s@, d0 as int, j as int) >= 10_000_000_000_000_000_000int);
        }
        return None;
    }
    proof {
        lemma_pow10_mono(count as nat, 19nat);
        assert(pow10(19nat) == 10_000_000_000_000_000_000int) by {
            reveal_with_fuel(pow10, 21);
        }
    }
    let mut acc: u64 = 0;
    let mut k: usize = d0;
    while k < j
        invariant
            d0 <= k <= j <= s@.len(),
            count == j - d0,
            count <= 19,
            forall|m: int| d0 <= m < j ==> is_digit(#[trigger] s@[m]),
            acc as int == digits_val(s@, d0 as int, k as int),
            (acc as int) < pow10((k - d0) as nat),
            pow10(count as nat) <= pow10(19nat),
            pow10(19nat) == 10_000_000_000_000_000_000int,
        decreases j - k,
    {
        let d: u64 = (s[k] - 48) as u64;
        proof {
            lemma_pow10_mono((k - d0) as nat, 18nat);
            assert(pow10(19nat) == 10 * pow10(18nat));
        }
        acc = acc * 10 + d;
        k = k + 1;
        proof {
            lemma_digits_val_bounds(s@, d0 as int, k as int);
        }
    }
    if neg {
        if acc > 9223372036854775808u64 {
            return None;
        }
        let v: i64 = if acc == 9223372036854775808u64 {
            i64::MIN
        } else {
            -(acc as i64)
        };
        Some((JsonValue::Int(v), j))
    } else {
        if acc > 9223372036854775807u64 {
            return None;
        }
        Some((JsonValue::Int(acc as i64), j))
    }
}

/// Parses a string body after the opening quote; mirrors
/// `parse_str_body`.
fn parse_string_body(s: &[u8], i: usize, acc: Vec<u8>) -> (r: Option<(Vec<u8>, usize)>)
    ensures
        match r {
            Some(p) => parse_str_body(s@, i as int, acc@) == Some((p.0@, p.1 as int)) && i < p.1
                <= s@.len(),
            None => parse_str_body(s@, i as int, acc@) is None,
        },
    decreases s@.len() - i,
{
    if i >= s.len() {
        return None;
    }
    let b = s[i];
    if b == 34 {
        Some((acc, i + 1))
    } else if b == 92 {
        if i + 1 < s.len() {
            let e = s[i + 1];
            let unescaped: u8 = if e == 34 {
                34
            } else if e == 92 {
                92
            } else if e == 47 {
                47
            } else if e == 98 {
                8
            } else if e == 116 {
                9
            } else if e == 110 {
                10
            } else if e == 102 {
                12
            } else if e == 114 {
                13
            } else {
                return None;
            };
            let mut acc2 = acc;
            acc2.push(unescaped);
            parse_string_body(s, i + 2, acc2)
        } else {
            None
        }
    } else if b < 32 {
        None
    } else {
        let mut acc2 = acc;
        acc2.push(b);
        parse_string_body(s, i + 1, acc2)
    }
}

/// Parses one JSON value; mirrors `parse_val`.
pub fn parse_value(s: &[u8], i: usize) -> (r: Option<(JsonValue, usize)>)
    ensures
        match r {
            Some(p) => parse_val(s@, i as int) == Some((p.0@, p.1 as int)) && i < p.1 <= s@.len(),
            None => parse_val(s@, i as int) is None,
        },
    decreases s@.len() - i, 0int,
{
    if i >= s.len() {
        return None;
    }
    let b = s[i];
    if b == 32 || b == 9 || b == 10 || b == 13 {
        parse_value(s, i + 1)
    } else if b == 110 {
        if s.len() - i >= 4 && s[i + 1] == 117 && s[i + 2] == 108 && s[i + 3] == 108 {
            Some((JsonValue::Null, i + 4))
        } else {
            None
        }
    } else if b == 116 {
        if s.len() - i >= 4 && s[i + 1] == 114 && s[i + 2] == 117 && s[i + 3] == 101 {
            Some((JsonValue::Bool(true), i + 4))
        } else {
            None
        }
    } else if b == 102 {
        if s.len() - i >= 5 && s[i + 1] == 97 && s[i + 2] == 108 && s[i + 3] == 115 && s[i + 4]
            == 101 {
            Some((JsonValue::Bool(false), i + 5))
        } else {
            None
        }
    } else if b == 34 {
        match parse_string_body(s, i + 1, Vec::new()) {
            Some((content, j)) => Some((JsonValue::Str(content), j)),
            None => None,
        }
    } else if b == 45 || (48 <= b && b <= 57) {
        parse_number(s, i)
    } else if b == 91 {
        parse_array_elems(s, i + 1, Vec::new(), true)
    } else if b == 123 {
        parse_object_fields(s, i + 1, Vec::new(), true)
    } else {
        None
    }
}

/// Parses array elements; mirrors `parse_elems`.
fn parse_array_elems(s: &[u8], i: usize, acc: Vec<JsonValue>, first: bool) -> (r: Option<
    (JsonValue, usize),
>)
    ensures
        match r {
            Some(p) => parse_elems(s@, i as int, views_of(acc@), first) == Some(
                (p.0@, p.1 as int),
            ) && i < p.1 <= s@.len(),
            None => parse_elems(s@, i as int, views_of(acc@), first) is None,
        },
    decreases s@.len() - i, 1int,
{
    if i >= s.len() {
        return None;
    }
    let b = s[i];
    if b == 32 || b == 9 || b == 10 || b == 13 {
        parse_array_elems(s, i + 1, acc, first)
    } else if first && b == 93 {
        Some((JsonValue::Arr(acc), i + 1))
    } else {
        match parse_value(s, i) {
            Some((v, j)) => {
                let ghost old_acc = acc@;
                let ghost vv = v@;
                let mut acc2 = acc;
                acc2.push(v);
                proof {
                    assert(acc2@.drop_last() =~= old_acc);
                    assert(views_of(acc2@) == views_of(old_acc).push(vv));
                }
                parse_array_more(s, j, acc2)
            }
            None => None,
        }
    }
}

/// Parses what follows an array element; mirrors `parse_after_elem`.
fn parse_array_more(s: &[u8], i: usize, acc: Vec<JsonValue>) -> (r: Option<(JsonValue, usize)>)
    requires
        0 < i <= s@.len(),
    ensures
        match r {
            Some(p) => parse_after_elem(s@, i as int, views_of(acc@)) == Some((p.0@, p.1 as int))
                && i < p.1 <= s@.len(),
            None => parse_after_elem(s@, i as int, views_of(acc@)) is None,
        },
    decreases s@.len() - i, 2int,
{
    if i >= s.len() {
        return None;
    }
    let b = s[i];
    if b == 32 || b == 9 || b == 10 || b == 13 {
        parse_array_more(s, i + 1, acc)
    } else if b == 44 {
        parse_array_elems(s, i + 1, acc, false)
    } else if b == 93 {
        Some((JsonValue::Arr(acc), i + 1))
    } else {
        None
    }
}

/// Parses object members; mirrors `parse_members`.
fn parse_object_fields(s: &[u8], i: usize, acc: Vec<(Vec<u8>, JsonValue)>, first: bool) -> (r:
    Option<(JsonValue, usize)>)
    ensures
        match r {
            Some(p) => parse_members(s@, i as int, member_views_of(acc@), first) == Some(
                (p.0@, p.1 as int),
            ) && i < p.1 <= s@.len(),
            None => parse_members(s@, i as int, member_views_of(acc@), first) is None,
        },
    decreases s@.len() - i, 1int,
{
    if i >= s.len() {
        return None;
    }
    let b = s[i];
    if b == 32 || b == 9 || b == 10 || b == 13 {
        parse_object_fields(s, i + 1, acc, first)
    } else if first && b == 125 {
        Some((JsonValue::Obj(acc), i + 1))
    } else if b == 34 {
        match parse_string_body(s, i + 1, Vec::new()) {
            Some((k, j)) => parse_object_colon(s, j, acc, k),
            None => None,
        }
    } else {
        None
    }
}

/// Parses the colon and value of one member; mirrors `parse_colon`.
fn parse_object_colon(s: &[u8], i: usize, acc: Vec<(Vec<u8>, JsonValue)>, k: Vec<u8>) -> (r:
    Option<(JsonValue, usize)>)
    requires
        0 < i <= s@.len(),
    ensures
        match r {
            Some(p) => parse_colon(s@, i as int, member_views_of(acc@), k@) == Some(
                (p.0@, p.1 as int),
            ) && i < p.1 <= s@.len(),
            None => parse_colon(s@, i as int, member_views_of(acc@), k@) is None,
        },
    decreases s@.len() - i, 2int,
{
    if i >= s.len() {
        return None;
    }
    let b = s[i];
    if b == 32 || b == 9 || b == 10 || b == 13 {
        parse_object_colon(s, i + 1, acc, k)
    } else if b == 58 {
        match parse_value(s, i + 1) {
            Some((v, j)) => {
                let ghost old_acc = acc@;
                let ghost kv = k@;
                let ghost vv = v@;
                let mut acc2 = acc;
                acc2.push((k, v));
                proof {
                    assert(acc2@.drop_last() =~= old_acc);
                    assert(member_views_of(acc2@) == member_views_of(old_acc).push((kv, vv)));
                }
                parse_object_more(s, j, acc2)
            }
            None => None,
        }
    } else {
        None
    }
}

/// Parses what follows an object member; mirrors `parse_after_member`.
fn parse_object_more(s: &[u8], i: usize, acc: Vec<(Vec<u8>, JsonValue)>) -> (r: Option<
    (JsonValue, usize),
>)
    requires
        0 < i <= s@.len(),
    ensures
        match r {
            Some(p) => parse_after_member(s@, i as int, member_views_of(acc@)) == Some(
                (p.0@, p.1 as int),
            ) && i < p.1 <= s@.len(),
            None => parse_after_member(s@, i as int, member_views_of(acc@)) is None,
        },
    decreases s@.len() - i, 3int,
{
    if i >= s.len() {
        return None;
    }
    let b = s[i];
    if b == 32 || b == 9 || b == 10 || b == 13 {
        parse_object_more(s, i + 1, acc)
    } else if b == 44 {
        parse_object_fields(s, i + 1, acc, false)
    } else if b == 125 {
        Some((JsonValue::Obj(acc), i + 1))
    } else {
        None
    }
}

/// Parses a whole JSON text; mirrors `parse_json`.
pub fn bytes_to_json(s: &[u8]) -> (r: Option<JsonValue>)
    ensures
        match r {
            Some(v) => parse_json(s@) == Some(v@),
            None => parse_json(s@) is None,
        },
{
    match parse_value(s, 0) {
        Some((v, j)) => {
            let mut k: usize = j;
            while k < s.len() && (s[k] == 32 || s[k] == 9 || s[k] == 10 || s[k] == 13)
                invariant
                    j <= k <= s@.len(),
                    all_ws_from(s@, j as int) == all_ws_from(s@, k as int),
                decreases s@.len() - k,
            {
                k = k + 1;
            }
            if k == s.len() {
                Some(v)
            } else {
                None
            }
        }
        None => None,
    }
}


/// String content the canonical serializer can round-trip: every raw
/// byte is either printable or one of the five short-escaped
/// controls.
pub open spec fn clean_str(s: Seq<u8>) -> bool {
    forall|i: int|
        0 <= i < s.len() ==> (#[trigger] s[i] >= 32 || s[i] == 8 || s[i] == 9 || s[i] == 10
            || s[i] == 12 || s[i] == 13)
}

/// A value the canonical serializer can round-trip: integers within
/// the 64-bit signed range and clean strings, throughout.
pub open spec fn clean_json(v: JsonSpec) -> bool
    decreases v, 1int,
{
    match v {
        JsonSpec::Null => true,
        JsonSpec::Bool(_) => true,
        JsonSpec::Int(n) => -0x8000_0000_0000_0000 <= n < 0x8000_0000_0000_0000,
        JsonSpec::Str(s) => clean_str(s),
        JsonSpec::Arr(items) => clean_items(items),
        JsonSpec::Obj(fields) => clean_members(fields),
    }
}

/// Clean array elements.
pub open spec fn clean_items(items: Seq<JsonSpec>) -> bool
    decreases items, 0int,
{
    items.len() == 0 || (clean_json(items[0]) && clean_items(items.drop_first()))
}

/// Clean object members.
pub open spec fn clean_members(fields: Seq<(Seq<u8>, JsonSpec)>) -> bool
    decreases fields, 0int,
{
    fields.len() == 0 || (clean_str(fields[0].0) && clean_json(fields[0].1) && clean_members(
        fields.drop_first(),
    ))
}

/// The decimal rendering of a natural number is non-empty, all
/// digits, and free of leading zeros.
proof fn lemma_ser_nat_digits(m: nat)
    ensures
        ser_nat(m).len() >= 1,
        forall|i: int| 0 <= i < ser_nat(m).len() ==> is_digit(#[trigger] ser_nat(m)[i]),
        m >= 10 ==> ser_nat(m)[0] != 48,
        m < 10 ==> ser_nat(m) == seq![digit_byte(m as int)],
    decreases m,
{
    if m >= 10 {
        lemma_ser_nat_digits(m / 10);
        assert(ser_nat(m) == ser_nat(m / 10).push(digit_byte((m % 10) as int)));
        assert forall|i: int| 0 <= i < ser_nat(m).len() implies is_digit(
            #[trigger] ser_nat(m)[i],
        ) by {
            if i < ser_nat(m / 10).len() {
                assert(ser_nat(m)[i] == ser_nat(m / 10)[i]);
            }
        }
        if m / 10 < 10 {
            assert(m / 10 >= 1);
            assert(ser_nat(m / 10)[0] == digit_byte((m / 10) as int));
        }
    }
}

/// Where a run of digits ends: at the first non-digit or the end.
proof fn lemma_digits_end_char(s: Seq<u8>, i: int, j: int)
    requires
        0 <= i <= j <= s.len(),
        forall|k: int| i <= k < j ==> is_digit(#[trigger] s[k]),
        j == s.len() || !is_digit(s[j]),
    ensures
        digits_end(s, i) == j,
    decreases j - i,
{
    if i < j {
        lemma_digits_end_char(s, i + 1, j);
    }
}

/// The digits of a rendered natural number evaluate back to it.
proof fn lemma_digits_val_of_ser(s: Seq<u8>, i: int, m: nat)
    requires
        0 <= i,
        i + ser_nat(m).len() <= s.len(),
        s.subrange(i, i + ser_nat(m).len() as int) == ser_nat(m),
    ensures
        digits_val(s, i, i + ser_nat(m).len() as int) == m,
    decreases m,
{
    let l = ser_nat(m).len() as int;
    if m < 10 {
        assert(s[i] == ser_nat(m)[0]);
        assert(digits_val(s, i, i) == 0);
        assert(digits_val(s, i, i + 1) == s[i] - 48);
    } else {
        assert(ser_nat(m) == ser_nat(m / 10).push(digit_byte((m % 10) as int)));
        assert(s.subrange(i, i + l - 1) =~= ser_nat(m / 10)) by {
            assert forall|k: int| 0 <= k < l - 1 implies #[trigger] s.subrange(i, i + l - 1)[k]
                == ser_nat(m / 10)[k] by {
                assert(s.subrange(i, i + l)[k] == ser_nat(m)[k]);
            }
        }
        lemma_digits_val_of_ser(s, i, m / 10);
        assert(s[i + l - 1] == ser_nat(m)[l - 1]);
        assert(ser_nat(m)[l - 1] == digit_byte((m % 10) as int));
        assert(digits_val(s, i, i + l) == digits_val(s, i, i + l - 1) * 10 + (s[i + l - 1] - 48));
    }
}

/// A rendered integer, followed by anything but a digit, parses back
/// to itself.
proof fn lemma_parse_int_ser(s: Seq<u8>, i: int, n: int)
    requires
        -0x8000_0000_0000_0000 <= n < 0x8000_0000_0000_0000,
        0 <= i,
        i + ser_int(n).len() <= s.len(),
        s.subrange(i, i + ser_int(n).len() as int) == ser_int(n),
        i + ser_int(n).len() == s.len() || !is_digit(s[i + ser_int(n).len()]),
    ensures
        parse_int_at(s, i) == Some((JsonSpec::Int(n), i + ser_int(n).len() as int)),
{
    let l = ser_int(n).len() as int;
    if n < 0 {
        let m = (-n) as nat;
        lemma_ser_nat_digits(m);
        assert(s[i] == ser_int(n)[0]);
        assert(ser_int(n)[0] == 45);
        let d0 = i + 1;
        let nl = ser_nat(m).len() as int;
        assert(s.subrange(d0, d0 + nl) =~= ser_nat(m)) by {
            assert forall|k: int| 0 <= k < nl implies #[trigger] s.subrange(d0, d0 + nl)[k]
                == ser_nat(m)[k] by {
                assert(s.subrange(i, i + l)[k + 1] == ser_int(n)[k + 1]);
                assert(ser_int(n)[k + 1] == ser_nat(m)[k]);
            }
        }
        assert forall|k: int| d0 <= k < d0 + nl implies is_digit(#[trigger] s[k]) by {
            assert(s.subrange(d0, d0 + nl)[k - d0] == ser_nat(m)[k - d0]);
        }
        lemma_digits_end_char(s, d0, d0 + nl);
        lemma_digits_val_of_ser(s, d0, m);
        assert(s[d0] == ser_nat(m)[0]);
        if m >= 10 {
            assert(s[d0] != 48);
        }
    } else {
        let m = n as nat;
        lemma_ser_nat_digits(m);
        assert(s.subrange(i, i + l) == ser_nat(m));
        assert(s[i] == ser_nat(m)[0]);
        assert(is_digit(s[i]));
        assert(s[i] != 45);
        assert forall|k: int| i <= k < i + l implies is_digit(#[trigger] s[k]) by {
            assert(s.subrange(i, i + l)[k - i] == ser_nat(m)[k - i]);
        }
        lemma_digits_end_char(s, i, i + l);
        lemma_digits_val_of_ser(s, i, m);
        if m >= 10 {
            assert(s[i] != 48);
        }
    }
}


/// The escaped body decomposes from the left, one content byte at a
/// time.
proof fn lemma_esc_bytes_first(s0: Seq<u8>)
    requires
        s0.len() > 0,
    ensures
        esc_bytes(s0) == esc_byte(s0[0]) + esc_bytes(s0.drop_first()),
    decreases s0.len(),
{
    if s0.len() == 1 {
        assert(s0.drop_last() =~= Seq::<u8>::empty());
        assert(s0.drop_first() =~= Seq::<u8>::empty());
        assert(esc_bytes(s0) == esc_bytes(s0.drop_last()) + esc_byte(s0.last()));
        assert(esc_bytes(s0) =~= esc_byte(s0[0]) + esc_bytes(s0.drop_first()));
    } else {
        lemma_esc_bytes_first(s0.drop_last());
        assert(s0.drop_last()[0] == s0[0]);
        assert(s0.drop_last().drop_first() =~= s0.drop_first().drop_last());
        assert(s0.drop_first().last() == s0.last());
        assert(esc_bytes(s0) == esc_bytes(s0.drop_last()) + esc_byte(s0.last()));
        assert(esc_bytes(s0.drop_first()) == esc_bytes(s0.drop_first().drop_last()) + esc_byte(
            s0.drop_first().last(),
        ));
        assert(esc_bytes(s0) =~= esc_byte(s0[0]) + esc_bytes(s0.drop_first()));
    }
}

/// A rendered string body, up to its closing quote, parses back to
/// the content it was rendered from.
proof fn lemma_parse_str_body_ser(s: Seq<u8>, i: int, s0: Seq<u8>, acc: Seq<u8>)
    requires
        clean_str(s0),
        0 <= i,
        i + esc_bytes(s0).len() + 1 <= s.len(),
        s.subrange(i, i + esc_bytes(s0).len() as int) == esc_bytes(s0),
        s[i + esc_bytes(s0).len()] == 34,
    ensures
        parse_str_body(s, i, acc) == Some((acc + s0, i + esc_bytes(s0).len() + 1)),
    decreases s0.len(),
{
    let el = esc_bytes(s0).len() as int;
    if s0.len() == 0 {
        assert(s[i] == 34);
        assert(acc + s0 =~= acc);
    } else {
        lemma_esc_bytes_first(s0);
        let b = s0[0];
        let eb = esc_byte(b);
        let rest = s0.drop_first();
        let rl = esc_bytes(rest).len() as int;
        assert(el == eb.len() + rl);
        assert forall|k: int| 0 <= k < el implies #[trigger] s[i + k] == esc_bytes(s0)[k] by {
            assert(s.subrange(i, i + el)[k] == esc_bytes(s0)[k]);
        }
        let i2 = i + eb.len() as int;
        assert(s.subrange(i2, i2 + rl) =~= esc_bytes(rest)) by {
            assert forall|k: int| 0 <= k < rl implies #[trigger] s.subrange(i2, i2 + rl)[k]
                == esc_bytes(rest)[k] by {
                assert(s[i2 + k] == esc_bytes(s0)[eb.len() + k]);
                assert(esc_bytes(s0)[eb.len() + k] == esc_bytes(rest)[k]);
            }
        }
        assert(clean_str(rest)) by {
            assert forall|k: int| 0 <= k < rest.len() implies (#[trigger] rest[k] >= 32 || rest[k]
                == 8 || rest[k] == 9 || rest[k] == 10 || rest[k] == 12 || rest[k] == 13) by {
                assert(rest[k] == s0[k + 1]);
            }
        }
        assert(b >= 32 || b == 8 || b == 9 || b == 10 || b == 12 || b == 13);
        if b == 34 || b == 92 || b == 8 || b == 9 || b == 10 || b == 12 || b == 13 {
            assert(eb.len() == 2);
            assert(s.subrange(i, i + el)[0] == esc_bytes(s0)[0]);
            assert(s.subrange(i, i + el)[1] == esc_bytes(s0)[1]);
            assert(s[i] == eb[0]);
            assert(s[i + 1] == eb[1]);
            assert(s[i] == 92);
            lemma_parse_str_body_ser(s, i + 2, rest, acc.push(b));
            assert(acc.push(b) + rest =~= acc + s0);
        } else {
            assert(eb.len() == 1);
            assert(s.subrange(i, i + el)[0] == esc_bytes(s0)[0]);
            assert(s[i] == b);
            assert(s[i] != 34 && s[i] != 92 && s[i] >= 32);
            lemma_parse_str_body_ser(s, i + 1, rest, acc.push(b));
            assert(acc.push(b) + rest =~= acc + s0);
        }
    }
}


/// A canonical serialization is non-empty and opens with its token's
/// first byte: a keyword letter, a sign or digit, a quote, or an
/// opening bracket or brace.
proof fn lemma_ser_val_first(v: JsonSpec)
    ensures
        ser_val(v).len() > 0,
        ({
            let b = ser_val(v)[0];
            b == 110 || b == 116 || b == 102 || b == 45 || is_digit(b) || b == 34 || b == 91
                || b == 123
        }),
{
    match v {
        JsonSpec::Int(n) => {
            if n < 0 {
                assert(ser_val(v)[0] == 45);
            } else {
                lemma_ser_nat_digits(n as nat);
                assert(ser_val(v)[0] == ser_nat(n as nat)[0]);
            }
        }
        _ => {}
    }
}

/// Array element serializations decompose from the left.
proof fn lemma_ser_items_first(items: Seq<JsonSpec>)
    requires
        items.len() > 0,
    ensures
        items.len() == 1 ==> ser_items(items) == ser_val(items[0]),
        items.len() > 1 ==> ser_items(items) == ser_val(items[0]) + seq![44u8] + ser_items(
            items.drop_first(),
        ),
    decreases items.len(),
{
    if items.len() > 1 {
        lemma_ser_items_first(items.drop_last());
        assert(ser_items(items) == ser_items(items.drop_last()) + seq![44u8] + ser_val(
            items.last(),
        ));
        assert(items.drop_last()[0] == items[0]);
        if items.len() == 2 {
            assert(items.drop_last().len() == 1);
            assert(items.drop_first().len() == 1);
            assert(items.drop_first()[0] == items[1]);
            assert(items.drop_last()[0] == items[0]);
            assert(ser_items(items.drop_first()) == ser_val(items[1]));
            assert(items.last() == items[1]);
            assert(ser_items(items) =~= ser_val(items[0]) + seq![44u8] + ser_items(
                items.drop_first(),
            ));
        } else {
            assert(items.drop_last().drop_first() =~= items.drop_first().drop_last());
            assert(items.drop_first().last() == items.last());
            assert(ser_items(items.drop_first()) == ser_items(items.drop_first().drop_last())
                + seq![44u8] + ser_val(items.drop_first().last()));
            assert(ser_items(items) =~= ser_val(items[0]) + seq![44u8] + ser_items(
                items.drop_first(),
            ));
        }
    }
}

/// Object member serializations decompose from the left.
proof fn lemma_ser_members_first(fields: Seq<(Seq<u8>, JsonSpec)>)
    requires
        fields.len() > 0,
    ensures
        fields.len() == 1 ==> ser_members(fields) == ser_member(fields[0]),
        fields.len() > 1 ==> ser_members(fields) == ser_member(fields[0]) + seq![44u8]
            + ser_members(fields.drop_first()),
    decreases fields.len(),
{
    if fields.len() > 1 {
        lemma_ser_members_first(fields.drop_last());
        assert(ser_members(fields) == ser_members(fields.drop_last()) + seq![44u8] + ser_member(
            fields.last(),
        ));
        assert(fields.drop_last()[0] == fields[0]);
        if fields.len() == 2 {
            assert(fields.drop_last().len() == 1);
            assert(fields.drop_first().len() == 1);
            assert(fields.drop_first()[0] == fields[1]);
            assert(ser_members(fields.drop_first()) == ser_member(fields[1]));
            assert(fields.last() == fields[1]);
            assert(ser_members(fields) =~= ser_member(fields[0]) + seq![44u8] + ser_members(
                fields.drop_first(),
            ));
        } else {
            assert(fields.drop_last().drop_first() =~= fields.drop_first().drop_last());
            assert(fields.drop_first().last() == fields.last());
            assert(ser_members(fields.drop_first()) == ser_members(
                fields.drop_first().drop_last(),
            ) + seq![44u8] + ser_member(fields.drop_first().last()));
            assert(ser_members(fields) =~= ser_member(fields[0]) + seq![44u8] + ser_members(
                fields.drop_first(),
            ));
        }
    }
}


/// A canonically serialized value, followed by anything but a digit,
/// parses back to itself.
proof fn lemma_parse_val_ser(s: Seq<u8>, i: int, v: JsonSpec)
    requires
        clean_json(v),
        0 <= i,
        i + ser_val(v).len() <= s.len(),
        s.subrange(i, i + ser_val(v).len() as int) == ser_val(v),
        i + ser_val(v).len() == s.len() || !is_digit(s[i + ser_val(v).len()]),
    ensures
        parse_val(s, i) == Some((v, i + ser_val(v).len() as int)),
    decreases v, 1int,
{
    let l = ser_val(v).len() as int;
    assert forall|k: int| 0 <= k < l implies #[trigger] s[i + k] == ser_val(v)[k] by {
        assert(s.subrange(i, i + l)[k] == ser_val(v)[k]);
    }
    lemma_ser_val_first(v);
    assert(s[i + 0] == ser_val(v)[0]);
    match v {
        JsonSpec::Null => {
            assert(s[i + 1] == ser_val(v)[1]);
            assert(s[i + 2] == ser_val(v)[2]);
            assert(s[i + 3] == ser_val(v)[3]);
        }
        JsonSpec::Bool(b) => {
            assert(s[i + 1] == ser_val(v)[1]);
            assert(s[i + 2] == ser_val(v)[2]);
            assert(s[i + 3] == ser_val(v)[3]);
            if !b {
                assert(s[i + 4] == ser_val(v)[4]);
            }
        }
        JsonSpec::Int(n) => {
            assert(ser_val(v) == ser_int(n));
            lemma_parse_int_ser(s, i, n);
            if n < 0 {
                assert(s[i + 0] == 45);
            } else {
                lemma_ser_nat_digits(n as nat);
                assert(is_digit(s[i + 0]));
            }
        }
        JsonSpec::Str(s0) => {
            let el = esc_bytes(s0).len() as int;
            assert(ser_val(v) == ser_str(s0));
            assert(l == el + 2);
            assert(s[i + 0] == 34);
            assert(s.subrange(i + 1, i + 1 + el) =~= esc_bytes(s0)) by {
                assert forall|k: int| 0 <= k < el implies #[trigger] s.subrange(
                    i + 1,
                    i + 1 + el,
                )[k] == esc_bytes(s0)[k] by {
                    assert(s[i + (k + 1)] == ser_val(v)[k + 1]);
                    assert(ser_str(s0)[k + 1] == esc_bytes(s0)[k]);
                }
            }
            assert(s[i + (el + 1)] == ser_val(v)[el + 1]);
            assert(ser_str(s0)[el + 1] == 34);
            lemma_parse_str_body_ser(s, i + 1, s0, Seq::empty());
            assert(Seq::<u8>::empty() + s0 =~= s0);
        }
        JsonSpec::Arr(items) => {
            let il = ser_items(items).len() as int;
            assert(l == il + 2);
            assert(s[i + 0] == 91);
            assert(s.subrange(i + 1, i + 1 + il) =~= ser_items(items)) by {
                assert forall|k: int| 0 <= k < il implies #[trigger] s.subrange(
                    i + 1,
                    i + 1 + il,
                )[k] == ser_items(items)[k] by {
                    assert(s[i + (k + 1)] == ser_val(v)[k + 1]);
                    assert(ser_val(v)[k + 1] == ser_items(items)[k]);
                }
            }
            assert(s[i + (il + 1)] == ser_val(v)[il + 1]);
            assert(ser_val(v)[il + 1] == 93);
            lemma_parse_elems_ser(s, i + 1, items, Seq::empty(), true);
            assert(Seq::<JsonSpec>::empty() + items =~= items);
            assert(JsonSpec::Arr(Seq::<JsonSpec>::empty() + items) == v);
        }
        JsonSpec::Obj(fields) => {
            let fl = ser_members(fields).len() as int;
            assert(l == fl + 2);
            assert(s[i + 0] == 123);
            assert(s.subrange(i + 1, i + 1 + fl) =~= ser_members(fields)) by {
                assert forall|k: int| 0 <= k < fl implies #[trigger] s.subrange(
                    i + 1,
                    i + 1 + fl,
                )[k] == ser_members(fields)[k] by {
                    assert(s[i + (k + 1)] == ser_val(v)[k + 1]);
                    assert(ser_val(v)[k + 1] == ser_members(fields)[k]);
                }
            }
            assert(s[i + (fl + 1)] == ser_val(v)[fl + 1]);
            assert(ser_val(v)[fl + 1] == 125);
            lemma_parse_members_ser(s, i + 1, fields, Seq::empty(), true);
            assert(Seq::<(Seq<u8>, JsonSpec)>::empty() + fields =~= fields);
            assert(JsonSpec::Obj(Seq::<(Seq<u8>, JsonSpec)>::empty() + fields) == v);
        }
    }
}

/// Canonically serialized array elements, followed by the closing
/// bracket, parse back to themselves appended to the accumulator.
proof fn lemma_parse_elems_ser(
    s: Seq<u8>,
    i: int,
    items: Seq<JsonSpec>,
    acc: Seq<JsonSpec>,
    first: bool,
)
    requires
        clean_items(items),
        0 <= i,
        i + ser_items(items).len() + 1 <= s.len(),
        s.subrange(i, i + ser_items(items).len() as int) == ser_items(items),
        s[i + ser_items(items).len()] == 93,
        items.len() == 0 ==> first,
    ensures
        parse_elems(s, i, acc, first) == Some(
            (JsonSpec::Arr(acc + items), i + ser_items(items).len() + 1),
        ),
    decreases items, 0int,
{
    let il = ser_items(items).len() as int;
    if items.len() == 0 {
        assert(il == 0);
        assert(s[i + 0] == 93);
        assert(acc + items =~= acc);
    } else {
        assert forall|k: int| 0 <= k < il implies #[trigger] s[i + k] == ser_items(items)[k] by {
            assert(s.subrange(i, i + il)[k] == ser_items(items)[k]);
        }
        lemma_ser_items_first(items);
        let v0 = items[0];
        let l0 = ser_val(v0).len() as int;
        lemma_ser_val_first(v0);
        assert(s[i + 0] == ser_items(items)[0]);
        assert(ser_items(items)[0] == ser_val(v0)[0]);
        assert(s.subrange(i, i + l0) =~= ser_val(v0)) by {
            assert forall|k: int| 0 <= k < l0 implies #[trigger] s.subrange(i, i + l0)[k]
                == ser_val(v0)[k] by {
                assert(s[i + k] == ser_items(items)[k]);
            }
        }
        let j = i + l0;
        if items.len() == 1 {
            assert(il == l0);
            assert(s[i + il] == 93);
            lemma_parse_val_ser(s, i, v0);
            assert(parse_val(s, i) == Some((v0, j)));
            assert(parse_after_elem(s, j, acc.push(v0)) == Some(
                (JsonSpec::Arr(acc.push(v0)), j + 1),
            ));
            assert(acc.push(v0) =~= acc + items);
        } else {
            let rest = items.drop_first();
            let rl = ser_items(rest).len() as int;
            assert(il == l0 + 1 + rl);
            assert(s[i + l0] == ser_items(items)[l0]);
            assert(ser_items(items)[l0] == 44);
            lemma_parse_val_ser(s, i, v0);
            assert(parse_val(s, i) == Some((v0, j)));
            assert(s.subrange(j + 1, j + 1 + rl) =~= ser_items(rest)) by {
                assert forall|k: int| 0 <= k < rl implies #[trigger] s.subrange(
                    j + 1,
                    j + 1 + rl,
                )[k] == ser_items(rest)[k] by {
                    assert(s[i + (l0 + 1 + k)] == ser_items(items)[l0 + 1 + k]);
                    assert(ser_items(items)[l0 + 1 + k] == ser_items(rest)[k]);
                }
            }
            assert(s[(j + 1) + ser_items(rest).len()] == 93) by {
                assert(s[i + il] == 93);
            }
            lemma_parse_elems_ser(s, j + 1, rest, acc.push(v0), false);
            assert(parse_after_elem(s, j, acc.push(v0)) == parse_elems(
                s,
                j + 1,
                acc.push(v0),
                false,
            ));
            assert(acc.push(v0) + rest =~= acc + items);
            assert(j + 1 + rl + 1 == i + il + 1);
        }
    }
}

/// Canonically serialized object members, followed by the closing
/// brace, parse back to themselves appended to the accumulator.
proof fn lemma_parse_members_ser(
    s: Seq<u8>,
    i: int,
    fields: Seq<(Seq<u8>, JsonSpec)>,
    acc: Seq<(Seq<u8>, JsonSpec)>,
    first: bool,
)
    requires
        clean_members(fields),
        0 <= i,
        i + ser_members(fields).len() + 1 <= s.len(),
        s.subrange(i, i + ser_members(fields).len() as int) == ser_members(fields),
        s[i + ser_members(fields).len()] == 125,
        fields.len() == 0 ==> first,
    ensures
        parse_members(s, i, acc, first) == Some(
            (JsonSpec::Obj(acc + fields), i + ser_members(fields).len() + 1),
        ),
    decreases fields, 0int,
{
    let fl = ser_members(fields).len() as int;
    if fields.len() == 0 {
        assert(fl == 0);
        assert(s[i + 0] == 125);
        assert(acc + fields =~= acc);
    } else {
        assert forall|k: int| 0 <= k < fl implies #[trigger] s[i + k] == ser_members(fields)[k] by {
            assert(s.subrange(i, i + fl)[k] == ser_members(fields)[k]);
        }
        lemma_ser_members_first(fields);
        let k0 = fields[0].0;
        let v0 = fields[0].1;
        let m0 = ser_member(fields[0]);
        let el = esc_bytes(k0).len() as int;
        let l0 = ser_val(v0).len() as int;
        assert(m0 == ser_str(k0) + seq![58u8] + ser_val(v0));
        assert(m0.len() == el + 3 + l0);
        assert forall|k: int| 0 <= k < m0.len() implies #[trigger] s[i + k] == m0[k] by {
            assert(s[i + k] == ser_members(fields)[k]);
        }
        assert(s[i + 0] == m0[0]);
        assert(m0[0] == 34);
        assert(s.subrange(i + 1, i + 1 + el) =~= esc_bytes(k0)) by {
            assert forall|k: int| 0 <= k < el implies #[trigger] s.subrange(i + 1, i + 1 + el)[k]
                == esc_bytes(k0)[k] by {
                assert(s[i + (k + 1)] == m0[k + 1]);
                assert(m0[k + 1] == ser_str(k0)[k + 1]);
                assert(ser_str(k0)[k + 1] == esc_bytes(k0)[k]);
            }
        }
        assert(s[i + (el + 1)] == m0[el + 1]);
        assert(m0[el + 1] == ser_str(k0)[el + 1]);
        assert(ser_str(k0)[el + 1] == 34);
        lemma_parse_str_body_ser(s, i + 1, k0, Seq::empty());
        let j = i + el + 2;
        assert(parse_str_body(s, i + 1, Seq::empty()) == Some((Seq::<u8>::empty() + k0, j)));
        assert(Seq::<u8>::empty() + k0 =~= k0);
        assert(parse_str_body(s, i + 1, Seq::empty()) == Some((k0, j)));
        assert(i < j <= s.len());
        assert(!is_ws(s[i + 0]));
        assert(parse_members(s, i, acc, first) == parse_colon(s, j, acc, k0));
        assert(s[i + (el + 2)] == m0[el + 2]);
        assert(m0[el + 2] == 58);
        assert(s.subrange(j + 1, j + 1 + l0) =~= ser_val(v0)) by {
            assert forall|k: int| 0 <= k < l0 implies #[trigger] s.subrange(j + 1, j + 1 + l0)[k]
                == ser_val(v0)[k] by {
                assert(s[i + (el + 3 + k)] == m0[el + 3 + k]);
                assert(m0[el + 3 + k] == ser_val(v0)[k]);
            }
        }
        let j2 = j + 1 + l0;
        if fields.len() == 1 {
            assert(fl == m0.len());
            assert(s[i + fl] == 125);
            assert(j2 == i + fl);
            lemma_parse_val_ser(s, j + 1, v0);
            assert(parse_val(s, j + 1) == Some((v0, j2)));
            assert(parse_after_member(s, j2, acc.push((k0, v0))) == Some(
                (JsonSpec::Obj(acc.push((k0, v0))), j2 + 1),
            ));
            assert(acc.push((k0, v0)) =~= acc + fields);
        } else {
            let rest = fields.drop_first();
            let rl = ser_members(rest).len() as int;
            assert(fl == m0.len() + 1 + rl);
            assert(s[i + m0.len()] == ser_members(fields)[m0.len() as int]);
            assert(ser_members(fields)[m0.len() as int] == 44);
            assert(j2 == i + m0.len());
            lemma_parse_val_ser(s, j + 1, v0);
            assert(parse_val(s, j + 1) == Some((v0, j2)));
            assert(s.subrange(j2 + 1, j2 + 1 + rl) =~= ser_members(rest)) by {
                assert forall|k: int| 0 <= k < rl implies #[trigger] s.subrange(
                    j2 + 1,
                    j2 + 1 + rl,
                )[k] == ser_members(rest)[k] by {
                    assert(s[i + (m0.len() + 1 + k)] == ser_members(fields)[m0.len() + 1 + k]);
                    assert(ser_members(fields)[m0.len() + 1 + k] == ser_members(rest)[k]);
                }
            }
            assert(s[(j2 + 1) + ser_members(rest).len()] == 125) by {
                assert(s[i + fl] == 125);
            }
            lemma_parse_members_ser(s, j2 + 1, rest, acc.push((k0, v0)), false);
            assert(parse_after_member(s, j2, acc.push((k0, v0))) == parse_members(
                s,
                j2 + 1,
                acc.push((k0, v0)),
                false,
            ));
            assert(acc.push((k0, v0)) + rest =~= acc + fields);
            assert(j2 + 1 + rl + 1 == i + fl + 1);
        }
    }
}

/// Round trip: parsing the canonical serialization of any clean value
/// yields that value back.
pub proof fn lemma_parse_json_round_trip(v: JsonSpec)
    requires
        clean_json(v),
    ensures
        parse_json(ser_val(v)) == Some(v),
{
    let s = ser_val(v);
    assert(s.subrange(0, s.len() as int) =~= s);
    lemma_parse_val_ser(s, 0, v);
    assert(all_ws_from(s, s.len() as int));
}

} // verus!
