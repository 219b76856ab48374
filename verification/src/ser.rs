//! Outbound half of the payload codec: the canonical text form of a value.
//!
//! The canonical form is compact JSON text: no whitespace, decimal integers
//! without leading zeros, and strings in which exactly the quote, the
//! backslash and the control bytes are escaped. `ser` is the form itself;
//! `write_json` produces it.

use crate::json::{jview, Json, JsonV};
use vstd::prelude::*;

verus! {

broadcast use {
    vstd::std_specs::vec::group_vec_axioms,
    vstd::seq::axiom_seq_index_decreases,
    vstd::seq::axiom_seq_subrange_decreases,
};

/// The decimal digits of `n`, most significant first.
pub open spec fn dec_digits(n: nat) -> Seq<u8>
    decreases n,
{
    if n < 10 {
        seq![(48 + n) as u8]
    } else {
        dec_digits(n / 10).push((48 + n % 10) as u8)
    }
}

/// A hexadecimal digit, lower case.
pub open spec fn hex_digit(n: nat) -> u8 {
    if n < 10 {
        (48 + n) as u8
    } else {
        (87 + n) as u8
    }
}

/// How one byte of string content is written: the quote and the backslash
/// behind a backslash, a control byte as a four-digit escape, every other
/// byte as it is.
pub open spec fn esc_byte(b: u8) -> Seq<u8> {
    if b == 34 || b == 92 {
        seq![92u8, b]
    } else if b < 32 {
        seq![92u8, 117u8, 48u8, 48u8, hex_digit((b / 16) as nat), hex_digit((b % 16) as nat)]
    } else {
        seq![b]
    }
}

/// String content with its escapes.
pub open spec fn esc(s: Seq<u8>) -> Seq<u8>
    decreases s.len(),
{
    if s.len() == 0 {
        Seq::empty()
    } else {
        esc_byte(s[0]) + esc(s.subrange(1, s.len() as int))
    }
}

/// The canonical text of an integer.
pub open spec fn ser_int(n: int) -> Seq<u8> {
    if n < 0 {
        seq![45u8] + dec_digits((-n) as nat)
    } else {
        dec_digits(n as nat)
    }
}

/// The canonical text of a value.
pub open spec fn ser(v: JsonV) -> Seq<u8>
    decreases v,
{
    match v {
        JsonV::Null => seq![110u8, 117u8, 108u8, 108u8],
        JsonV::Bool(b) => if b {
            seq![116u8, 114u8, 117u8, 101u8]
        } else {
            seq![102u8, 97u8, 108u8, 115u8, 101u8]
        },
        JsonV::Int(n) => ser_int(n),
        JsonV::Str(s) => seq![34u8] + esc(s) + seq![34u8],
        JsonV::Arr(items) => seq![91u8] + ser_items(items) + seq![93u8],
        JsonV::Obj(fields) => seq![123u8] + ser_fields(fields) + seq![125u8],
    }
}

/// The elements of a non-empty array, joined by commas. Empty input gives
/// the empty text.
pub open spec fn ser_items(items: Seq<JsonV>) -> Seq<u8>
    decreases items,
{
    if items.len() == 0 {
        Seq::empty()
    } else if items.len() == 1 {
        ser(items[0])
    } else {
        ser(items[0]) + seq![44u8] + ser_items(items.subrange(1, items.len() as int))
    }
}

/// The fields of a non-empty object, joined by commas.
pub open spec fn ser_fields(fields: Seq<(Seq<u8>, JsonV)>) -> Seq<u8>
    decreases fields,
{
    if fields.len() == 0 {
        Seq::empty()
    } else if fields.len() == 1 {
        ser_field(fields[0])
    } else {
        ser_field(fields[0]) + seq![44u8] + ser_fields(fields.subrange(1, fields.len() as int))
    }
}

/// One object field: the quoted key, a colon, the value.
pub open spec fn ser_field(f: (Seq<u8>, JsonV)) -> Seq<u8>
    decreases f,
{
    seq![34u8] + esc(f.0) + seq![34u8, 58u8] + ser(f.1)
}

/// Escaping distributes over concatenation.
pub proof fn lemma_esc_append(a: Seq<u8>, b: Seq<u8>)
    ensures
        esc(a + b) == esc(a) + esc(b),
    decreases a.len(),
{
    if a.len() == 0 {
        assert(a + b =~= b);
        assert(esc(a) + esc(b) =~= esc(b));
    } else {
        lemma_esc_append(a.subrange(1, a.len() as int), b);
        assert((a + b).subrange(1, (a + b).len() as int) =~= a.subrange(1, a.len() as int) + b);
        assert(esc_byte((a + b)[0]) + (esc(a.subrange(1, a.len() as int)) + esc(b)) =~= esc(a)
            + esc(b));
    }
}

/// Appending one byte appends its escape.
pub proof fn lemma_esc_push(s: Seq<u8>, b: u8)
    ensures
        esc(s.push(b)) == esc(s) + esc_byte(b),
{
    assert(s.push(b) =~= s + seq![b]);
    lemma_esc_append(s, seq![b]);
    assert(seq![b].subrange(1, 1) =~= Seq::<u8>::empty());
    assert(esc(seq![b]) == esc_byte(seq![b][0]) + esc(seq![b].subrange(1, 1)));
    assert(seq![b][0] == b);
    assert(esc_byte(b) + Seq::<u8>::empty() =~= esc_byte(b));
}

/// Content without quote, backslash or control bytes is written as it is.
pub proof fn lemma_esc_id(s: Seq<u8>)
    requires
        forall|i: int| 0 <= i < s.len() ==> s[i] != 34 && s[i] != 92 && s[i] >= 32,
    ensures
        esc(s) == s,
    decreases s.len(),
{
    if s.len() != 0 {
        lemma_esc_id(s.subrange(1, s.len() as int));
        assert(esc(s) =~= s);
    }
}

/// Appending an element extends the joined text by a comma and the element.
pub proof fn lemma_ser_items_push(items: Seq<JsonV>, x: JsonV)
    ensures
        ser_items(items.push(x)) == if items.len() == 0 {
            ser(x)
        } else {
            ser_items(items) + seq![44u8] + ser(x)
        },
    decreases items.len(),
{
    let p = items.push(x);
    if items.len() == 0 {
        assert(p.len() == 1 && p[0] == x);
        assert(ser_items(p) == ser(x));
    } else {
        lemma_ser_items_push(items.subrange(1, items.len() as int), x);
        assert(p.subrange(1, p.len() as int) =~= items.subrange(1, items.len() as int).push(x));
        assert(p[0] == items[0]);
        if items.len() == 1 {
            assert(items.subrange(1, 1) =~= Seq::<JsonV>::empty());
            assert(ser_items(p) =~= ser_items(items) + seq![44u8] + ser(x));
        } else {
            assert(ser_items(p) =~= ser_items(items) + seq![44u8] + ser(x));
        }
    }
}

/// Appending a field extends the joined text by a comma and the field.
pub proof fn lemma_ser_fields_push(fields: Seq<(Seq<u8>, JsonV)>, f: (Seq<u8>, JsonV))
    ensures
        ser_fields(fields.push(f)) == if fields.len() == 0 {
            ser_field(f)
        } else {
            ser_fields(fields) + seq![44u8] + ser_field(f)
        },
    decreases fields.len(),
{
    let p = fields.push(f);
    if fields.len() == 0 {
        assert(p.len() == 1 && p[0] == f);
        assert(ser_fields(p) == ser_field(f));
    } else {
        lemma_ser_fields_push(fields.subrange(1, fields.len() as int), f);
        assert(p.subrange(1, p.len() as int) =~= fields.subrange(1, fields.len() as int).push(f));
        assert(p[0] == fields[0]);
        if fields.len() == 1 {
            assert(fields.subrange(1, 1) =~= Seq::<(Seq<u8>, JsonV)>::empty());
            assert(ser_fields(p) =~= ser_fields(fields) + seq![44u8] + ser_field(f));
        } else {
            assert(ser_fields(p) =~= ser_fields(fields) + seq![44u8] + ser_field(f));
        }
    }
}

/// Writes the decimal digits of `n` onto `out`.
pub fn write_dec(n: u64, out: &mut Vec<u8>)
    ensures
        final(out)@ == old(out)@ + dec_digits(n as nat),
    decreases n,
{
    if n < 10 {
        out.push((48 + n) as u8);
        assert(out@ =~= old(out)@ + dec_digits(n as nat));
    } else {
        write_dec(n / 10, out);
        out.push((48 + n % 10) as u8);
        assert(out@ =~= old(out)@ + dec_digits(n as nat));
    }
}

/// Writes string content between quotes, escaping as the canonical form asks.
pub fn write_str_bytes(s: &Vec<u8>, out: &mut Vec<u8>)
    ensures
        final(out)@ == old(out)@ + seq![34u8] + esc(s@) + seq![34u8],
{
    out.push(34);
    let mut i: usize = 0;
    while i < s.len()
        invariant
            i <= s@.len(),
            out@ == old(out)@ + seq![34u8] + esc(s@.subrange(0, i as int)),
        decreases s@.len() - i,
    {
        let b = s[i];
        if b == 34 || b == 92 {
            out.push(92);
            out.push(b);
        } else if b < 32 {
            out.push(92);
            out.push(117);
            out.push(48);
            out.push(48);
            out.push(48 + b / 16);
            let lo = b % 16;
            if lo < 10 {
                out.push(48 + lo);
            } else {
                out.push(87 + lo);
            }
        } else {
            out.push(b);
        }
        proof {
            lemma_esc_push(s@.subrange(0, i as int), b);
            assert(s@.subrange(0, i as int).push(b) =~= s@.subrange(0, i + 1));
            assert(out@ =~= old(out)@ + seq![34u8] + esc(s@.subrange(0, i + 1)));
        }
        i = i + 1;
    }
    assert(s@.subrange(0, s@.len() as int) =~= s@);
    out.push(34);
    assert(out@ =~= old(out)@ + seq![34u8] + esc(s@) + seq![34u8]);
}

/// The magnitude of an integer, in the unsigned type that can hold it all.
pub fn magnitude_u64(n: i64) -> (m: u64)
    ensures
        n >= 0 ==> m as int == n as int,
        n < 0 ==> m as int == -(n as int),
{
    if n >= 0 {
        n as u64
    } else {
        (-(n + 1)) as u64 + 1
    }
}

/// Writes the canonical text of a value onto `out`.
#[verifier::loop_isolation(false)]
#[verifier::rlimit(100)]
pub fn write_json(v: &Json, out: &mut Vec<u8>)
    ensures
        final(out)@ == old(out)@ + ser(jview(*v)),
    decreases v,
{
    match v {
        Json::Null => {
            out.push(110);
            out.push(117);
            out.push(108);
            out.push(108);
            assert(out@ =~= old(out)@ + ser(jview(*v)));
        },
        Json::Bool(b) => {
            if *b {
                out.push(116);
                out.push(114);
                out.push(117);
                out.push(101);
            } else {
                out.push(102);
                out.push(97);
                out.push(108);
                out.push(115);
                out.push(101);
            }
            assert(out@ =~= old(out)@ + ser(jview(*v)));
        },
        Json::Int(n) => {
            if *n < 0 {
                out.push(45);
            }
            let m = magnitude_u64(*n);
            write_dec(m, out);
            assert(out@ =~= old(out)@ + ser(jview(*v)));
        },
        Json::Str(s) => {
            write_str_bytes(s, out);
        },
        Json::Arr(items) => {
            let ghost jv = jview(*v).arr_items();
            out.push(91);
            let mut i: usize = 0;
            while i < items.len()
                invariant
                    i <= items@.len(),
                    jv.len() == items@.len(),
                    forall|j: int| 0 <= j < items@.len() ==> jv[j] == jview(items@[j]),
                    out@ == old(out)@ + seq![91u8] + ser_items(jv.subrange(0, i as int)),
                decreases items@.len() - i,
            {
                if i > 0 {
                    out.push(44);
                }
                proof {
                    let vv = *v;
                    assert(vv->Arr_0 == *items);
                    assert(0 <= i < vv->Arr_0@.len());
                    assert(decreases_to!(vv => vv->Arr_0));
                    assert(decreases_to!(vv->Arr_0 => vv->Arr_0@));
                    assert(decreases_to!(vv->Arr_0@ => vv->Arr_0@[i as int]));
                    assert(decreases_to!(vv => items@[i as int]));
                }
                write_json(&items[i], out);
                proof {
                    lemma_ser_items_push(jv.subrange(0, i as int), jv[i as int]);
                    assert(jv.subrange(0, i as int).push(jv[i as int]) =~= jv.subrange(0, i + 1));
                    assert(out@ =~= old(out)@ + seq![91u8] + ser_items(jv.subrange(0, i + 1)));
                }
                i = i + 1;
            }
            assert(jv.subrange(0, jv.len() as int) =~= jv);
            out.push(93);
            assert(out@ =~= old(out)@ + ser(jview(*v)));
        },
        Json::Obj(fields) => {
            let ghost jf = jview(*v).obj_fields();
            out.push(123);
            let mut i: usize = 0;
            while i < fields.len()
                invariant
                    i <= fields@.len(),
                    jf.len() == fields@.len(),
                    forall|j: int|
                        0 <= j < fields@.len() ==> #[trigger] jf[j] == (
                        fields@[j].0@,
                        jview(fields@[j].1),
                        ),
                    out@ == old(out)@ + seq![123u8] + ser_fields(jf.subrange(0, i as int)),
                decreases fields@.len() - i,
            {
                if i > 0 {
                    out.push(44);
                }
                write_str_bytes(&fields[i].0, out);
                out.push(58);
                proof {
                    let vv = *v;
                    assert(vv->Obj_0 == *fields);
                    assert(0 <= i < vv->Obj_0@.len());
                    assert(decreases_to!(vv => vv->Obj_0));
                    assert(decreases_to!(vv->Obj_0 => vv->Obj_0@));
                    assert(decreases_to!(vv->Obj_0@ => vv->Obj_0@[i as int]));
                    assert(decreases_to!(vv->Obj_0@[i as int] => vv->Obj_0@[i as int].1));
                    assert(decreases_to!(vv => fields@[i as int].1));
                }
                write_json(&fields[i].1, out);
                proof {
                    lemma_ser_fields_push(jf.subrange(0, i as int), jf[i as int]);
                    assert(jf.subrange(0, i as int).push(jf[i as int]) =~= jf.subrange(0, i + 1));
                    assert(out@ =~= old(out)@ + seq![123u8] + ser_fields(jf.subrange(0, i + 1)));
                }
                i = i + 1;
            }
            assert(jf.subrange(0, jf.len() as int) =~= jf);
            out.push(125);
            assert(out@ =~= old(out)@ + ser(jview(*v)));
        },
    }
}

/// The canonical text of a value, as a fresh buffer.
pub fn to_canonical_bytes(v: &Json) -> (r: Vec<u8>)
    ensures
        r@ == ser(jview(*v)),
{
    let mut out: Vec<u8> = Vec::new();
    write_json(v, &mut out);
    out
}

} // verus!
