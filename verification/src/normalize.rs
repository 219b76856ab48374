//! Query normalizer: makes a find-query well formed for the database's
//! find API by supplying the default empty sort clause where none is given.

use crate::json::{field_views_of, jview, Json, JsonV};
use vstd::prelude::*;

verus! {

broadcast use vstd::std_specs::vec::group_vec_axioms;

/// The bytes of the `sort` key.
pub open spec fn sort_key() -> Seq<u8> {
    seq![115u8, 111u8, 114u8, 116u8]
}

/// Whether an object's fields carry `key`.
pub open spec fn obj_has_key(fields: Seq<(Seq<u8>, JsonV)>, key: Seq<u8>) -> bool {
    exists|i: int| 0 <= i < fields.len() && fields[i].0 == key
}

/// What normalizing does: an object without a `sort` key gains
/// `sort: []` as its last field; everything else is left alone.
pub open spec fn normalize_spec(q: JsonV) -> JsonV {
    match q {
        JsonV::Obj(fields) => if obj_has_key(fields, sort_key()) {
            q
        } else {
            JsonV::Obj(fields.push((sort_key(), JsonV::Arr(Seq::empty()))))
        },
        _ => q,
    }
}

/// A query that already has a `sort` key passes through unchanged; one
/// without gains exactly `sort: []` at the end, every other field as it
/// was.
pub proof fn law_normalize(q: JsonV)
    requires
        q is Obj,
    ensures
        obj_has_key(q.obj_fields(), sort_key()) ==> normalize_spec(q) == q,
        !obj_has_key(q.obj_fields(), sort_key()) ==> {
            &&& normalize_spec(q) is Obj
            &&& normalize_spec(q).obj_fields().len() == q.obj_fields().len() + 1
            &&& (forall|i: int|
                0 <= i < q.obj_fields().len() ==> normalize_spec(q).obj_fields()[i]
                    == q.obj_fields()[i])
            &&& normalize_spec(q).obj_fields().last() == (sort_key(), JsonV::Arr(Seq::empty()))
            &&& obj_has_key(normalize_spec(q).obj_fields(), sort_key())
        },
{
    let fields = q.obj_fields();
    if !obj_has_key(fields, sort_key()) {
        let nf = normalize_spec(q).obj_fields();
        assert(nf[fields.len() as int].0 == sort_key());
    }
}

/// Whether two byte strings are equal.
pub fn bytes_eq(a: &Vec<u8>, b: &Vec<u8>) -> (r: bool)
    ensures
        r == (a@ == b@),
{
    if a.len() != b.len() {
        return false;
    }
    let mut i: usize = 0;
    while i < a.len()
        invariant
            i <= a@.len(),
            a@.len() == b@.len(),
            forall|j: int| 0 <= j < i ==> a@[j] == b@[j],
        decreases a@.len() - i,
    {
        if a[i] != b[i] {
            return false;
        }
        i = i + 1;
    }
    proof {
        assert(a@ =~= b@);
    }
    true
}

/// The `sort` key as a buffer.
pub fn make_sort_key() -> (r: Vec<u8>)
    ensures
        r@ == sort_key(),
{
    let mut v: Vec<u8> = Vec::new();
    v.push(115);
    v.push(111);
    v.push(114);
    v.push(116);
    assert(v@ =~= sort_key());
    v
}

/// Normalizes a find-query object: inserts `sort: []` when the object
/// lacks a `sort` key, and touches nothing else.
#[verifier::loop_isolation(false)]
pub fn normalize(q: Json) -> (r: Json)
    requires
        q is Obj,
    ensures
        jview(r) == normalize_spec(jview(q)),
{
    let ghost q0 = jview(q);
    match q {
        Json::Obj(mut fields) => {
            let ghost f0 = fields@;
            assert(q0.obj_fields() == field_views_of(f0));
            let key = make_sort_key();
            let mut i: usize = 0;
            while i < fields.len()
                invariant
                    i <= fields@.len(),
                    fields@ == f0,
                    forall|j: int| 0 <= j < i ==> field_views_of(f0)[j].0 != sort_key(),
                decreases fields@.len() - i,
            {
                if bytes_eq(&fields[i].0, &key) {
                    proof {
                        assert(field_views_of(f0)[i as int].0 == sort_key());
                        assert(obj_has_key(q0.obj_fields(), sort_key()));
                    }
                    return Json::Obj(fields);
                }
                i = i + 1;
            }
            proof {
                assert forall|j: int|
                    0 <= j < field_views_of(f0).len() implies field_views_of(f0)[j].0
                    != sort_key() by {}
                assert(!obj_has_key(q0.obj_fields(), sort_key()));
            }
            let empty_items: Vec<Json> = Vec::new();
            fields.push((key, Json::Arr(empty_items)));
            proof {
                assert(crate::json::views_of(Seq::<Json>::empty()) =~= Seq::<JsonV>::empty());
                assert(field_views_of(fields@) =~= field_views_of(f0).push(
                    (sort_key(), JsonV::Arr(Seq::empty())),
                ));
            }
            Json::Obj(fields)
        },
        _ => q,
    }
}

} // verus!
