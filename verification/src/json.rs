//! A minimal JSON value model and a verified serializer: the wire
//! format of OCPP-J frames.
//!
//! Values carry strings as raw UTF-8 bytes and numbers as 64-bit
//! integers; that is all the protocol layer ever puts on the wire.

use vstd::prelude::*;
use vstd::string::StringSliceAdditionalSpecFns;

verus! {

/// A JSON value as the codec represents it. Strings are raw UTF-8
/// bytes; numbers are integers (the OCPP-J frames this library
/// handles carry no fractional numbers).
pub enum JsonValue {
    Null,
    Bool(bool),
    Int(i64),
    Str(Vec<u8>),
    Arr(Vec<JsonValue>),
    Obj(Vec<(Vec<u8>, JsonValue)>),
}

/// The mathematical model of a JSON value.
#[verifier::ext_equal]
pub enum JsonSpec {
    Null,
    Bool(bool),
    Int(int),
    Str(Seq<u8>),
    Arr(Seq<JsonSpec>),
    Obj(Seq<(Seq<u8>, JsonSpec)>),
}

/// The models of a sequence of values.
pub open spec fn views_of(items: Seq<JsonValue>) -> Seq<JsonSpec>
    decreases items,
{
    if items.len() == 0 {
        Seq::empty()
    } else {
        views_of(items.drop_last()).push(items.last()@)
    }
}

/// The models of a sequence of object members.
pub open spec fn member_views_of(fields: Seq<(Vec<u8>, JsonValue)>) -> Seq<(Seq<u8>, JsonSpec)>
    decreases fields,
{
    if fields.len() == 0 {
        Seq::empty()
    } else {
        member_views_of(fields.drop_last()).push((fields.last().0@, fields.last().1@))
    }
}

impl View for JsonValue {
    type V = JsonSpec;

    /// The model of this value: structure kept, vectors abstracted to
    /// sequences, machine integers widened.
    open spec fn view(&self) -> JsonSpec
        decreases *self,
    {
        match self {
            JsonValue::Null => JsonSpec::Null,
            JsonValue::Bool(b) => JsonSpec::Bool(*b),
            JsonValue::Int(i) => JsonSpec::Int(*i as int),
            JsonValue::Str(s) => JsonSpec::Str(s@),
            JsonValue::Arr(items) => JsonSpec::Arr(views_of(items@)),
            JsonValue::Obj(fields) => JsonSpec::Obj(member_views_of(fields@)),
        }
    }
}

/// `views_of` is the element-wise model of its argument.
pub broadcast proof fn lemma_views_of(items: Seq<JsonValue>)
    ensures
        #[trigger] views_of(items).len() == items.len(),
        forall|i: int| 0 <= i < items.len() ==> views_of(items)[i] == #[trigger] items[i]@,
    decreases items.len(),
{
    if items.len() > 0 {
        lemma_views_of(items.drop_last());
        assert(views_of(items) == views_of(items.drop_last()).push(items.last()@));
        assert forall|i: int| 0 <= i < items.len() implies views_of(items)[i] == #[trigger] items[i]@ by {
            if i < items.len() - 1 {
                assert(views_of(items)[i] == views_of(items.drop_last())[i]);
                assert(items.drop_last()[i] == items[i]);
            } else {
                assert(items.last() == items[i]);
            }
        }
    }
}

/// `member_views_of` is the element-wise model of its argument.
pub broadcast proof fn lemma_member_views_of(fields: Seq<(Vec<u8>, JsonValue)>)
    ensures
        #[trigger] member_views_of(fields).len() == fields.len(),
        forall|i: int|
            0 <= i < fields.len() ==> member_views_of(fields)[i] == (
            #[trigger] fields[i].0@,
            fields[i].1@,
            ),
    decreases fields.len(),
{
    if fields.len() > 0 {
        lemma_member_views_of(fields.drop_last());
        assert(member_views_of(fields) == member_views_of(fields.drop_last()).push(
            (fields.last().0@, fields.last().1@),
        ));
        assert forall|i: int| 0 <= i < fields.len() implies member_views_of(fields)[i] == (
        #[trigger] fields[i].0@,
        fields[i].1@,
        ) by {
            if i < fields.len() - 1 {
                assert(member_views_of(fields)[i] == member_views_of(fields.drop_last())[i]);
                assert(fields.drop_last()[i] == fields[i]);
            } else {
                assert(fields.last() == fields[i]);
            }
        }
    }
}


/// The bytes of a string constant, one for one.
pub fn str_to_bytes(s: &str) -> (r: Vec<u8>)
    ensures
        r@ == s.spec_bytes(),
{
    vstd::slice::slice_to_vec(s.as_bytes())
}

/// The bytes of an ASCII string constant, byte for character.
pub fn ascii_to_bytes(s: &str) -> (r: Vec<u8>)
    requires
        s.is_ascii(),
    ensures
        r@.len() == s@.len(),
        forall|i: int| 0 <= i < s@.len() ==> r@[i] == (s@[i] as u8),
{
    proof {
        vstd::string::is_ascii_spec_bytes(s);
    }
    vstd::slice::slice_to_vec(s.as_bytes())
}

/// A copy of the given bytes.
pub fn copy_bytes(src: &Vec<u8>) -> (r: Vec<u8>)
    ensures
        r@ == src@,
{
    vstd::slice::slice_to_vec(src.as_slice())
}

/// The byte of a single decimal digit.
pub open spec fn digit_byte(d: int) -> u8 {
    (48 + d) as u8
}

/// The decimal digits of a natural number, most significant first.
pub open spec fn ser_nat(n: nat) -> Seq<u8>
    decreases n,
{
    if n < 10 {
        seq![digit_byte(n as int)]
    } else {
        ser_nat(n / 10).push(digit_byte((n % 10) as int))
    }
}

/// The decimal rendering of an integer: a minus sign, then digits.
pub open spec fn ser_int(n: int) -> Seq<u8> {
    if n < 0 {
        seq![45u8] + ser_nat((-n) as nat)
    } else {
        ser_nat(n as nat)
    }
}

/// How one byte of string content appears inside a JSON string:
/// quote, backslash and the five short-escaped controls are escaped,
/// everything else passes through.
pub open spec fn esc_byte(b: u8) -> Seq<u8> {
    if b == 34 {
        seq![92u8, 34u8]
    } else if b == 92 {
        seq![92u8, 92u8]
    } else if b == 8 {
        seq![92u8, 98u8]
    } else if b == 9 {
        seq![92u8, 116u8]
    } else if b == 10 {
        seq![92u8, 110u8]
    } else if b == 12 {
        seq![92u8, 102u8]
    } else if b == 13 {
        seq![92u8, 114u8]
    } else {
        seq![b]
    }
}

/// The escaped form of a whole string body.
pub open spec fn esc_bytes(s: Seq<u8>) -> Seq<u8>
    decreases s.len(),
{
    if s.len() == 0 {
        Seq::empty()
    } else {
        esc_bytes(s.drop_last()) + esc_byte(s.last())
    }
}

/// A JSON string: quoted, escaped body.
pub open spec fn ser_str(s: Seq<u8>) -> Seq<u8> {
    seq![34u8] + esc_bytes(s) + seq![34u8]
}

/// The canonical serialization of a JSON value: no whitespace,
/// members in stored order.
pub open spec fn ser_val(v: JsonSpec) -> Seq<u8>
    decreases v, 1int,
{
    match v {
        JsonSpec::Null => seq![110u8, 117u8, 108u8, 108u8],
        JsonSpec::Bool(b) => if b {
            seq![116u8, 114u8, 117u8, 101u8]
        } else {
            seq![102u8, 97u8, 108u8, 115u8, 101u8]
        },
        JsonSpec::Int(n) => ser_int(n),
        JsonSpec::Str(s) => ser_str(s),
        JsonSpec::Arr(items) => seq![91u8] + ser_items(items) + seq![93u8],
        JsonSpec::Obj(fields) => seq![123u8] + ser_members(fields) + seq![125u8],
    }
}

/// Comma-separated serializations of array elements.
pub open spec fn ser_items(items: Seq<JsonSpec>) -> Seq<u8>
    decreases items, 0int,
{
    if items.len() == 0 {
        Seq::empty()
    } else if items.len() == 1 {
        ser_val(items[0])
    } else {
        ser_items(items.drop_last()) + seq![44u8] + ser_val(items.last())
    }
}

/// One object member: quoted key, colon, value.
pub open spec fn ser_member(f: (Seq<u8>, JsonSpec)) -> Seq<u8>
    decreases f, 0int,
{
    ser_str(f.0) + seq![58u8] + ser_val(f.1)
}

/// Comma-separated serializations of object members.
pub open spec fn ser_members(fields: Seq<(Seq<u8>, JsonSpec)>) -> Seq<u8>
    decreases fields, 1int,
{
    if fields.len() == 0 {
        Seq::empty()
    } else if fields.len() == 1 {
        ser_member(fields[0])
    } else {
        ser_members(fields.drop_last()) + seq![44u8] + ser_member(fields.last())
    }
}

/// Appends the decimal digits of `m`.
fn write_u64(out: &mut Vec<u8>, m: u64)
    ensures
        final(out)@ == old(out)@ + ser_nat(m as nat),
    decreases m,
{
    if m < 10 {
        out.push(48 + m as u8);
        proof {
            assert(final(out)@ =~= old(out)@ + ser_nat(m as nat));
        }
    } else {
        write_u64(out, m / 10);
        out.push(48 + (m % 10) as u8);
        proof {
            assert(final(out)@ =~= old(out)@ + ser_nat(m as nat));
        }
    }
}

/// Appends the decimal rendering of `n`.
fn write_i64(out: &mut Vec<u8>, n: i64)
    ensures
        final(out)@ == old(out)@ + ser_int(n as int),
{
    if n < 0 {
        out.push(45);
        let mag: u64 = ((-(n + 1)) as u64) + 1;
        proof {
            assert(mag as nat == (-(n as int)) as nat);
        }
        write_u64(out, mag);
        proof {
            assert(final(out)@ =~= old(out)@ + ser_int(n as int));
        }
    } else {
        write_u64(out, n as u64);
    }
}

/// Appends a quoted, escaped JSON string.
fn write_str(out: &mut Vec<u8>, s: &Vec<u8>)
    ensures
        final(out)@ == old(out)@ + ser_str(s@),
{
    out.push(34);
    let mut i: usize = 0;
    while i < s.len()
        invariant
            i <= s@.len(),
            out@ == old(out)@ + seq![34u8] + esc_bytes(s@.take(i as int)),
        decreases s@.len() - i,
    {
        let b = s[i];
        if b == 34 {
            out.push(92);
            out.push(34);
        } else if b == 92 {
            out.push(92);
            out.push(92);
        } else if b == 8 {
            out.push(92);
            out.push(98);
        } else if b == 9 {
            out.push(92);
            out.push(116);
        } else if b == 10 {
            out.push(92);
            out.push(110);
        } else if b == 12 {
            out.push(92);
            out.push(102);
        } else if b == 13 {
            out.push(92);
            out.push(114);
        } else {
            out.push(b);
        }
        proof {
            assert(s@.take(i + 1).drop_last() =~= s@.take(i as int));
            assert(s@.take(i + 1).last() == s@[i as int]);
            assert(out@ =~= old(out)@ + seq![34u8] + esc_bytes(s@.take(i + 1)));
        }
        i = i + 1;
    }
    out.push(34);
    proof {
        assert(s@.take(s@.len() as int) =~= s@);
        assert(out@ =~= old(out)@ + ser_str(s@));
    }
}

/// Appends the canonical serialization of `v`.
#[verifier::loop_isolation(false)]
pub fn write_value(out: &mut Vec<u8>, v: &JsonValue)
    ensures
        final(out)@ == old(out)@ + ser_val(v@),
    decreases *v,
{
    match v {
        JsonValue::Null => {
            out.push(110);
            out.push(117);
            out.push(108);
            out.push(108);
            proof {
                assert(final(out)@ =~= old(out)@ + ser_val(v@));
            }
        }
        JsonValue::Bool(b) => {
            if *b {
                out.push(116);
                out.push(114);
                out.push(117);
                out.push(101);
            } else {
                out.push(102);
                out.push(97);
                out.push(108);
                out.push(115);
                out.push(101);
            }
            proof {
                assert(final(out)@ =~= old(out)@ + ser_val(v@));
            }
        }
        JsonValue::Int(n) => {
            write_i64(out, *n);
        }
        JsonValue::Str(s) => {
            write_str(out, s);
        }
        JsonValue::Arr(items) => {
            out.push(91);
            let ghost views = views_of(items@);
            proof {
                lemma_views_of(items@);
            }
            let mut i: usize = 0;
            while i < items.len()
                invariant
                    i <= items@.len(),
                    views == views_of(items@),
                    views.len() == items@.len(),
                    forall|j: int| 0 <= j < items@.len() ==> views[j] == #[trigger] items@[j]@,
                    out@ == old(out)@ + seq![91u8] + ser_items(views.take(i as int)),
                decreases items@.len() - i,
            {
                if i > 0 {
                    out.push(44);
                }
                proof {
                    vstd::std_specs::vec::axiom_vec_index_decreases::<JsonValue>(
                        *items,
                        i as int,
                    );
                    assert(*items == v->Arr_0);
                    assert(decreases_to!(*v => v->Arr_0));
                }
                write_value(out, &items[i]);
                proof {
                    assert(views.take(i + 1).drop_last() =~= views.take(i as int));
                    assert(views.take(i + 1).last() == views[i as int]);
                    if i == 0 {
                        assert(ser_items(views.take(1)) == ser_val(views[0]));
                    }
                    assert(out@ =~= old(out)@ + seq![91u8] + ser_items(views.take(i + 1)));
                }
                i = i + 1;
            }
            out.push(93);
            proof {
                assert(views.take(views.len() as int) =~= views);
                assert(out@ =~= old(out)@ + ser_val(v@));
            }
        }
        JsonValue::Obj(fields) => {
            out.push(123);
            let ghost views = member_views_of(fields@);
            proof {
                lemma_member_views_of(fields@);
            }
            let mut i: usize = 0;
            while i < fields.len()
                invariant
                    i <= fields@.len(),
                    views == member_views_of(fields@),
                    views.len() == fields@.len(),
                    forall|j: int|
                        0 <= j < fields@.len() ==> views[j] == (
                        #[trigger] fields@[j].0@,
                        fields@[j].1@,
                        ),
                    out@ == old(out)@ + seq![123u8] + ser_members(views.take(i as int)),
                decreases fields@.len() - i,
            {
                if i > 0 {
                    out.push(44);
                }
                let pair = &fields[i];
                write_str(out, &pair.0);
                out.push(58);
                proof {
                    vstd::std_specs::vec::axiom_vec_index_decreases::<(Vec<u8>, JsonValue)>(
                        *fields,
                        i as int,
                    );
                    assert(*fields == v->Obj_0);
                    assert(decreases_to!(*v => v->Obj_0));
                }
                write_value(out, &pair.1);
                proof {
                    assert(ser_member(views[i as int]) == ser_str(fields@[i as int].0@)
                        + seq![58u8] + ser_val(fields@[i as int].1@));
                    assert(views.take(i + 1).drop_last() =~= views.take(i as int));
                    assert(views.take(i + 1).last() == views[i as int]);
                    if i == 0 {
                        assert(ser_members(views.take(1)) == ser_member(views[0]));
                    }
                    assert(out@ =~= old(out)@ + seq![123u8] + ser_members(views.take(i + 1)));
                }
                i = i + 1;
            }
            out.push(125);
            proof {
                assert(views.take(views.len() as int) =~= views);
                assert(out@ =~= old(out)@ + ser_val(v@));
            }
        }
    }
}

/// The canonical JSON text of `v`, as bytes.
pub fn json_to_bytes(v: &JsonValue) -> (r: Vec<u8>)
    ensures
        r@ == ser_val(v@),
{
    let mut out: Vec<u8> = Vec::new();
    write_value(&mut out, v);
    out
}

/// Whether two byte slices hold the same bytes.
pub fn bytes_eq(a: &[u8], b: &[u8]) -> (r: bool)
    ensures
        r == (a@ == b@),
{
    if a.len() != b.len() {
        proof {
            assert(a@.len() != b@.len());
        }
        return false;
    }
    let mut i: usize = 0;
    while i < a.len()
        invariant
            i <= a.len(),
            a@.len() == b@.len(),
            forall|j: int| 0 <= j < i ==> a@[j] == b@[j],
        decreases a@.len() - i,
    {
        if a[i] != b[i] {
            return false;
        }
        i = i + 1;
    }
    proof {
        assert(a@ =~= b@);
    }
    true
}

} // verus!
