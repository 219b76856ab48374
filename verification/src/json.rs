//! The JSON-like values that cross the boundary: queries, documents and
//! responses, held as a tree over raw bytes.
//!
//! `Json` is the executable tree; `JsonV` is its mathematical shadow, with
//! sequences for vectors, and is what every contract in the crate speaks of.
//! Strings and keys are byte sequences: the transport is bytes end to end,
//! and only the façade turns the final text into UTF-8.

use vstd::prelude::*;

verus! {

broadcast use {
    vstd::std_specs::vec::group_vec_axioms,
    vstd::seq::axiom_seq_index_decreases,
    vstd::seq::axiom_seq_subrange_decreases,
};

/// The mathematical form of a JSON-like value.
pub enum JsonV {
    Null,
    Bool(bool),
    Int(int),
    Str(Seq<u8>),
    Arr(Seq<JsonV>),
    Obj(Seq<(Seq<u8>, JsonV)>),
}

/// The executable form of a JSON-like value.
#[derive(Debug, PartialEq, Eq)]
pub enum Json {
    Null,
    Bool(bool),
    Int(i64),
    Str(Vec<u8>),
    Arr(Vec<Json>),
    Obj(Vec<(Vec<u8>, Json)>),
}

/// The mathematical value a `Json` tree stands for.
pub open spec fn jview(v: Json) -> JsonV
    decreases v,
{
    match v {
        Json::Null => JsonV::Null,
        Json::Bool(b) => JsonV::Bool(b),
        Json::Int(n) => JsonV::Int(n as int),
        Json::Str(s) => JsonV::Str(s@),
        Json::Arr(items) => JsonV::Arr(views_of(items@)),
        Json::Obj(fields) => JsonV::Obj(field_views_of(fields@)),
    }
}

/// The mathematical values of a sequence of trees.
pub open spec fn views_of(items: Seq<Json>) -> Seq<JsonV>
    decreases items,
{
    Seq::new(
        items.len(),
        |i: int|
            if 0 <= i < items.len() {
                jview(items[i])
            } else {
                JsonV::Null
            },
    )
}

/// The mathematical values of a sequence of keyed trees.
pub open spec fn field_views_of(fields: Seq<(Vec<u8>, Json)>) -> Seq<(Seq<u8>, JsonV)>
    decreases fields,
{
    Seq::new(
        fields.len(),
        |i: int|
            if 0 <= i < fields.len() {
                (fields[i].0@, jview(fields[i].1))
            } else {
                (Seq::empty(), JsonV::Null)
            },
    )
}

impl View for Json {
    type V = JsonV;

    open spec fn view(&self) -> JsonV {
        jview(*self)
    }
}

/// A value whose integers fit the machine representation. Every `Json`
/// tree satisfies it; the codec's laws are stated under it.
pub open spec fn wf(v: JsonV) -> bool
    decreases v,
{
    match v {
        JsonV::Null => true,
        JsonV::Bool(_) => true,
        JsonV::Int(n) => i64::MIN <= n <= i64::MAX,
        JsonV::Str(_) => true,
        JsonV::Arr(items) => forall|i: int| 0 <= i < items.len() ==> wf(#[trigger] items[i]),
        JsonV::Obj(fields) => forall|i: int|
            0 <= i < fields.len() ==> wf(#[trigger] fields[i].1),
    }
}

/// What a `Json` tree stands for is always well formed.
pub proof fn lemma_jview_wf(v: Json)
    ensures
        wf(v@),
    decreases v,
{
    match v {
        Json::Arr(items) => {
            assert forall|i: int| 0 <= i < items@.len() implies wf(
                #[trigger] jview(v).arr_items()[i],
            ) by {
                lemma_jview_wf(items@[i]);
            }
        },
        Json::Obj(fields) => {
            assert forall|i: int| 0 <= i < fields@.len() implies wf(
                #[trigger] jview(v).obj_fields()[i].1,
            ) by {
                lemma_jview_wf(fields@[i].1);
            }
        },
        _ => {},
    }
}

impl JsonV {
    /// The elements of an array value.
    pub open spec fn arr_items(self) -> Seq<JsonV> {
        self->Arr_0
    }

    /// The fields of an object value.
    pub open spec fn obj_fields(self) -> Seq<(Seq<u8>, JsonV)> {
        self->Obj_0
    }
}

} // verus!
