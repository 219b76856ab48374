//! The human-readable text form: what the find façade hands back.
//!
//! Scalars and strings print as in the canonical form; arrays and objects
//! spread over lines, indented by two spaces per depth, with a space after
//! each key's colon. Empty containers stay on one line.

use crate::json::{jview, Json, JsonV};
use crate::ser::{esc, ser, write_str_bytes};
use vstd::prelude::*;

verus! {

broadcast use {
    vstd::std_specs::vec::group_vec_axioms,
    vstd::seq::axiom_seq_index_decreases,
    vstd::seq::axiom_seq_subrange_decreases,
};

/// `n` spaces.
pub open spec fn indent(n: nat) -> Seq<u8> {
    Seq::new(n, |i: int| 32u8)
}

/// The pretty text of a value standing at indentation `ind`.
pub open spec fn pretty(v: JsonV, ind: nat) -> Seq<u8>
    decreases v,
{
    match v {
        JsonV::Arr(items) => if items.len() == 0 {
            seq![91u8, 93u8]
        } else {
            seq![91u8, 10u8] + pretty_items(items, ind + 2) + seq![10u8] + indent(ind)
                + seq![93u8]
        },
        JsonV::Obj(fields) => if fields.len() == 0 {
            seq![123u8, 125u8]
        } else {
            seq![123u8, 10u8] + pretty_fields(fields, ind + 2) + seq![10u8] + indent(ind)
                + seq![125u8]
        },
        _ => ser(v),
    }
}

/// The pretty lines of a non-empty array's elements.
pub open spec fn pretty_items(items: Seq<JsonV>, ind: nat) -> Seq<u8>
    decreases items,
{
    if items.len() == 0 {
        Seq::empty()
    } else if items.len() == 1 {
        indent(ind) + pretty(items[0], ind)
    } else {
        indent(ind) + pretty(items[0], ind) + seq![44u8, 10u8] + pretty_items(
            items.subrange(1, items.len() as int),
            ind,
        )
    }
}

/// The pretty lines of a non-empty object's fields.
pub open spec fn pretty_fields(fields: Seq<(Seq<u8>, JsonV)>, ind: nat) -> Seq<u8>
    decreases fields,
{
    if fields.len() == 0 {
        Seq::empty()
    } else if fields.len() == 1 {
        pretty_field(fields[0], ind)
    } else {
        pretty_field(fields[0], ind) + seq![44u8, 10u8] + pretty_fields(
            fields.subrange(1, fields.len() as int),
            ind,
        )
    }
}

/// One pretty field: indentation, the quoted key, a colon and a space, the
/// value.
pub open spec fn pretty_field(f: (Seq<u8>, JsonV), ind: nat) -> Seq<u8>
    decreases f,
{
    indent(ind) + seq![34u8] + esc(f.0) + seq![34u8, 58u8, 32u8] + pretty(f.1, ind)
}

/// Appending an element appends a comma, a line break and its line.
proof fn lemma_pretty_items_push(items: Seq<JsonV>, x: JsonV, ind: nat)
    ensures
        pretty_items(items.push(x), ind) == if items.len() == 0 {
            indent(ind) + pretty(x, ind)
        } else {
            pretty_items(items, ind) + seq![44u8, 10u8] + indent(ind) + pretty(x, ind)
        },
    decreases items.len(),
{
    let p = items.push(x);
    if items.len() == 0 {
        assert(p.len() == 1 && p[0] == x);
    } else {
        lemma_pretty_items_push(items.subrange(1, items.len() as int), x, ind);
        assert(p.subrange(1, p.len() as int) =~= items.subrange(1, items.len() as int).push(x));
        assert(p[0] == items[0]);
        if items.len() == 1 {
            assert(items.subrange(1, 1) =~= Seq::<JsonV>::empty());
            assert(pretty_items(p, ind) =~= pretty_items(items, ind) + seq![44u8, 10u8] + indent(
                ind,
            ) + pretty(x, ind));
        } else {
            assert(pretty_items(p, ind) =~= pretty_items(items, ind) + seq![44u8, 10u8] + indent(
                ind,
            ) + pretty(x, ind));
        }
    }
}

/// Appending a field appends a comma, a line break and its line.
proof fn lemma_pretty_fields_push(fields: Seq<(Seq<u8>, JsonV)>, f: (Seq<u8>, JsonV), ind: nat)
    ensures
        pretty_fields(fields.push(f), ind) == if fields.len() == 0 {
            pretty_field(f, ind)
        } else {
            pretty_fields(fields, ind) + seq![44u8, 10u8] + pretty_field(f, ind)
        },
    decreases fields.len(),
{
    let p = fields.push(f);
    if fields.len() == 0 {
        assert(p.len() == 1 && p[0] == f);
    } else {
        lemma_pretty_fields_push(fields.subrange(1, fields.len() as int), f, ind);
        assert(p.subrange(1, p.len() as int) =~= fields.subrange(1, fields.len() as int).push(f));
        assert(p[0] == fields[0]);
        if fields.len() == 1 {
            assert(fields.subrange(1, 1) =~= Seq::<(Seq<u8>, JsonV)>::empty());
            assert(pretty_fields(p, ind) =~= pretty_fields(fields, ind) + seq![44u8, 10u8]
                + pretty_field(f, ind));
        } else {
            assert(pretty_fields(p, ind) =~= pretty_fields(fields, ind) + seq![44u8, 10u8]
                + pretty_field(f, ind));
        }
    }
}

/// Writes the pad, a run of spaces, onto `out`.
fn write_pad(pad: &Vec<u8>, out: &mut Vec<u8>)
    requires
        forall|i: int| 0 <= i < pad@.len() ==> pad@[i] == 32,
    ensures
        final(out)@ == old(out)@ + indent(pad@.len()),
{
    let mut i: usize = 0;
    while i < pad.len()
        invariant
            i <= pad@.len(),
            forall|j: int| 0 <= j < pad@.len() ==> pad@[j] == 32,
            out@ == old(out)@ + indent(i as nat),
        decreases pad@.len() - i,
    {
        out.push(pad[i]);
        assert(out@ =~= old(out)@ + indent((i + 1) as nat));
        i = i + 1;
    }
    assert(out@ =~= old(out)@ + indent(pad@.len()));
}

/// Writes the pretty text of a value, at the indentation the pad stands
/// for, onto `out`.
#[verifier::loop_isolation(false)]
#[verifier::rlimit(100)]
pub fn write_pretty(v: &Json, pad: &mut Vec<u8>, out: &mut Vec<u8>)
    requires
        forall|i: int| 0 <= i < old(pad)@.len() ==> old(pad)@[i] == 32,
    ensures
        final(out)@ == old(out)@ + pretty(jview(*v), old(pad)@.len()),
        final(pad)@ == old(pad)@,
    decreases v,
{
    match v {
        Json::Null | Json::Bool(_) | Json::Int(_) | Json::Str(_) => {
            crate::ser::write_json(v, out);
            assert(pretty(jview(*v), old(pad)@.len()) == ser(jview(*v)));
        },
        Json::Arr(items) => {
            let ghost ind = pad@.len();
            let ghost jv = jview(*v).arr_items();
            if items.len() == 0 {
                out.push(91);
                out.push(93);
                assert(jv =~= Seq::<JsonV>::empty());
                assert(out@ =~= old(out)@ + pretty(jview(*v), ind));
            } else {
                out.push(91);
                out.push(10);
                pad.push(32);
                pad.push(32);
                assert(pad@.len() == ind + 2);
                let mut i: usize = 0;
                while i < items.len()
                    invariant
                        i <= items@.len(),
                        pad@ == old(pad)@ + seq![32u8, 32u8],
                        forall|j: int| 0 <= j < pad@.len() ==> pad@[j] == 32,
                        out@ == old(out)@ + seq![91u8, 10u8] + pretty_items(
                            jv.subrange(0, i as int),
                            ind + 2,
                        ),
                    decreases items@.len() - i,
                {
                    if i > 0 {
                        out.push(44);
                        out.push(10);
                    }
                    write_pad(pad, out);
                    proof {
                        let vv = *v;
                        assert(vv->Arr_0 == *items);
                        assert(0 <= i < vv->Arr_0@.len());
                        assert(decreases_to!(vv => vv->Arr_0));
                        assert(decreases_to!(vv->Arr_0 => vv->Arr_0@));
                        assert(decreases_to!(vv->Arr_0@ => vv->Arr_0@[i as int]));
                        assert(decreases_to!(vv => items@[i as int]));
                    }
                    write_pretty(&items[i], pad, out);
                    proof {
                        lemma_pretty_items_push(jv.subrange(0, i as int), jv[i as int], ind + 2);
                        assert(jv.subrange(0, i as int).push(jv[i as int]) =~= jv.subrange(
                            0,
                            i + 1,
                        ));
                        assert(out@ =~= old(out)@ + seq![91u8, 10u8] + pretty_items(
                            jv.subrange(0, i + 1),
                            ind + 2,
                        ));
                    }
                    i = i + 1;
                }
                assert(jv.subrange(0, jv.len() as int) =~= jv);
                pad.pop();
                pad.pop();
                assert(pad@ =~= old(pad)@);
                out.push(10);
                write_pad(pad, out);
                out.push(93);
                assert(out@ =~= old(out)@ + pretty(jview(*v), ind));
            }
        },
        Json::Obj(fields) => {
            let ghost ind = pad@.len();
            let ghost jf = jview(*v).obj_fields();
            if fields.len() == 0 {
                out.push(123);
                out.push(125);
                assert(jf =~= Seq::<(Seq<u8>, JsonV)>::empty());
                assert(out@ =~= old(out)@ + pretty(jview(*v), ind));
            } else {
                out.push(123);
                out.push(10);
                pad.push(32);
                pad.push(32);
                let mut i: usize = 0;
                while i < fields.len()
                    invariant
                        i <= fields@.len(),
                        pad@ == old(pad)@ + seq![32u8, 32u8],
                        forall|j: int| 0 <= j < pad@.len() ==> pad@[j] == 32,
                        out@ == old(out)@ + seq![123u8, 10u8] + pretty_fields(
                            jf.subrange(0, i as int),
                            ind + 2,
                        ),
                    decreases fields@.len() - i,
                {
                    if i > 0 {
                        out.push(44);
                        out.push(10);
                    }
                    write_pad(pad, out);
                    write_str_bytes(&fields[i].0, out);
                    out.push(58);
                    out.push(32);
                    proof {
                        let vv = *v;
                        assert(vv->Obj_0 == *fields);
                        assert(0 <= i < vv->Obj_0@.len());
                        assert(decreases_to!(vv => vv->Obj_0));
                        assert(decreases_to!(vv->Obj_0 => vv->Obj_0@));
                        assert(decreases_to!(vv->Obj_0@ => vv->Obj_0@[i as int]));
                        assert(decreases_to!(vv->Obj_0@[i as int] => vv->Obj_0@[i as int].1));
                        assert(decreases_to!(vv => fields@[i as int].1));
                    }
                    write_pretty(&fields[i].1, pad, out);
                    proof {
                        lemma_pretty_fields_push(jf.subrange(0, i as int), jf[i as int], ind + 2);
                        assert(jf.subrange(0, i as int).push(jf[i as int]) =~= jf.subrange(
                            0,
                            i + 1,
                        ));
                        assert(out@ =~= old(out)@ + seq![123u8, 10u8] + pretty_fields(
                            jf.subrange(0, i + 1),
                            ind + 2,
                        ));
                    }
                    i = i + 1;
                }
                assert(jf.subrange(0, jf.len() as int) =~= jf);
                pad.pop();
                pad.pop();
                assert(pad@ =~= old(pad)@);
                out.push(10);
                write_pad(pad, out);
                out.push(125);
                assert(out@ =~= old(out)@ + pretty(jview(*v), ind));
            }
        },
    }
}

/// The pretty text of a value at top level, as a fresh buffer.
pub fn to_pretty_bytes(v: &Json) -> (r: Vec<u8>)
    ensures
        r@ == pretty(jview(*v), 0),
{
    let mut pad: Vec<u8> = Vec::new();
    let mut out: Vec<u8> = Vec::new();
    write_pretty(v, &mut pad, &mut out);
    out
}

} // verus!
