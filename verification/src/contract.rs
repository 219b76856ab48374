//! The contract façade: the two user-facing operations.
//!
//! `find_all` builds the match-all find-query, normalizes it, encodes it,
//! dispatches it under the find id, and pretty-prints the decoded response.
//! `create` encodes one fixed document, dispatches it under the create id,
//! and returns the response text unmodified. Every failure, typed or
//! protocol, ends the call; there is no partial result.

use crate::bridge::{invoke, CallFault, CouchBridge, Operation};
use crate::codec::{encode_payload, encoded_payload, utf8_to_string, MAX_TEXT_LEN};
use crate::envelope::{unwrap, unwrap_bytes};
use crate::json::{field_views_of, jview, Json, JsonV};
use crate::normalize::{normalize, normalize_spec, obj_has_key, sort_key};
use crate::parse::{parse_bytes, parse_json};
use crate::pretty::{pretty, to_pretty_bytes};
use crate::ser::{lemma_esc_id, ser, ser_field, ser_fields, ser_items};
use crate::status::CouchErr;
use vstd::prelude::*;
use vstd::utf8::{decode_utf8, valid_utf8};

verus! {

broadcast use vstd::std_specs::vec::group_vec_axioms;

/// The find-all query as the façade builds it: the match-all selector,
/// `{"selector":{"_id":{"$ne":null}}}` — every document whose id is not
/// null, which is all of them.
pub open spec fn find_query_spec() -> JsonV {
    JsonV::Obj(
        seq![
            (seq![115u8, 101u8, 108u8, 101u8, 99u8, 116u8, 111u8, 114u8], JsonV::Obj(
                seq![
                    (seq![95u8, 105u8, 100u8], JsonV::Obj(
                        seq![(seq![36u8, 110u8, 101u8], JsonV::Null)],
                    )),
                ],
            )),
        ],
    )
}

/// The one document the create operation sends:
/// `{"ink":"substrate","this":"that","asdf":"zxcv"}`.
pub open spec fn create_doc_spec() -> JsonV {
    JsonV::Obj(
        seq![
            (seq![105u8, 110u8, 107u8], JsonV::Str(
                seq![115u8, 117u8, 98u8, 115u8, 116u8, 114u8, 97u8, 116u8, 101u8],
            )),
            (seq![116u8, 104u8, 105u8, 115u8], JsonV::Str(seq![116u8, 104u8, 97u8, 116u8])),
            (seq![97u8, 115u8, 100u8, 102u8], JsonV::Str(seq![122u8, 120u8, 99u8, 118u8])),
        ],
    )
}

/// What the find path makes of a response buffer: open the one envelope,
/// read the canonical text, pretty-print the value, and take the result as
/// UTF-8 text. Each step may refuse, and then the whole response is
/// refused.
pub open spec fn find_result(resp: Seq<u8>) -> Option<Seq<char>> {
    match unwrap(resp) {
        Some(text) => match parse_json(text) {
            Some(v) => if valid_utf8(pretty(v, 0)) {
                Some(decode_utf8(pretty(v, 0)))
            } else {
                None
            },
            None => None,
        },
        None => None,
    }
}

/// What the create path makes of a response buffer: open the one envelope
/// and take the text inside as UTF-8, unmodified.
pub open spec fn create_result(resp: Seq<u8>) -> Option<Seq<char>> {
    match unwrap(resp) {
        Some(text) => if valid_utf8(text) {
            Some(decode_utf8(text))
        } else {
            None
        },
        None => None,
    }
}

/// Builds the find-all query value: the match-all selector.
pub fn build_find_query() -> (q: Json)
    ensures
        jview(q) == find_query_spec(),
        q is Obj,
{
    let mut ne_key: Vec<u8> = Vec::new();
    ne_key.push(36);
    ne_key.push(110);
    ne_key.push(101);
    let mut ne_fields: Vec<(Vec<u8>, Json)> = Vec::new();
    ne_fields.push((ne_key, Json::Null));
    let ne_obj = Json::Obj(ne_fields);
    let mut id_key: Vec<u8> = Vec::new();
    id_key.push(95);
    id_key.push(105);
    id_key.push(100);
    let mut id_fields: Vec<(Vec<u8>, Json)> = Vec::new();
    id_fields.push((id_key, ne_obj));
    let id_obj = Json::Obj(id_fields);
    let mut sel_key: Vec<u8> = Vec::new();
    sel_key.push(115);
    sel_key.push(101);
    sel_key.push(108);
    sel_key.push(101);
    sel_key.push(99);
    sel_key.push(116);
    sel_key.push(111);
    sel_key.push(114);
    let mut fields: Vec<(Vec<u8>, Json)> = Vec::new();
    fields.push((sel_key, id_obj));
    proof {
        let sf = find_query_spec().obj_fields();
        let id_spec = sf[0].1.obj_fields();
        let ne_spec = id_spec[0].1.obj_fields();
        assert(fields@[0].1->Obj_0@[0].1->Obj_0@[0].0@ =~= ne_spec[0].0);
        assert(field_views_of(fields@[0].1->Obj_0@[0].1->Obj_0@) =~= ne_spec);
        assert(fields@[0].1->Obj_0@[0].0@ =~= id_spec[0].0);
        assert(field_views_of(fields@[0].1->Obj_0@) =~= id_spec);
        assert(fields@[0].0@ =~= sf[0].0);
        assert(field_views_of(fields@) =~= sf);
    }
    Json::Obj(fields)
}

/// Builds the fixed create document.
pub fn build_create_doc() -> (d: Json)
    ensures
        jview(d) == create_doc_spec(),
{
    let mut k1: Vec<u8> = Vec::new();
    k1.push(105);
    k1.push(110);
    k1.push(107);
    let mut v1: Vec<u8> = Vec::new();
    v1.push(115);
    v1.push(117);
    v1.push(98);
    v1.push(115);
    v1.push(116);
    v1.push(114);
    v1.push(97);
    v1.push(116);
    v1.push(101);
    let mut k2: Vec<u8> = Vec::new();
    k2.push(116);
    k2.push(104);
    k2.push(105);
    k2.push(115);
    let mut v2: Vec<u8> = Vec::new();
    v2.push(116);
    v2.push(104);
    v2.push(97);
    v2.push(116);
    let mut k3: Vec<u8> = Vec::new();
    k3.push(97);
    k3.push(115);
    k3.push(100);
    k3.push(102);
    let mut v3: Vec<u8> = Vec::new();
    v3.push(122);
    v3.push(120);
    v3.push(99);
    v3.push(118);
    let mut fields: Vec<(Vec<u8>, Json)> = Vec::new();
    fields.push((k1, Json::Str(v1)));
    fields.push((k2, Json::Str(v2)));
    fields.push((k3, Json::Str(v3)));
    proof {
        assert(fields@[0].0@ =~= create_doc_spec().obj_fields()[0].0);
        assert(fields@[0].1->Str_0@ =~= create_doc_spec().obj_fields()[0].1->Str_0);
        assert(fields@[1].0@ =~= create_doc_spec().obj_fields()[1].0);
        assert(fields@[1].1->Str_0@ =~= create_doc_spec().obj_fields()[1].1->Str_0);
        assert(fields@[2].0@ =~= create_doc_spec().obj_fields()[2].0);
        assert(fields@[2].1->Str_0@ =~= create_doc_spec().obj_fields()[2].1->Str_0);
        assert(field_views_of(fields@) =~= create_doc_spec().obj_fields());
    }
    Json::Obj(fields)
}

/// The canonical text of the normalized find-query is
/// `{"selector":{"_id":{"$ne":null}},"sort":[]}`: well under the envelope
/// bound.
proof fn lemma_find_request_small()
    ensures
        ser(normalize_spec(find_query_spec())).len() < MAX_TEXT_LEN,
{
    let sf = find_query_spec().obj_fields();
    assert(!obj_has_key(sf, sort_key())) by {
        assert(sf.len() == 1);
        assert(sf[0].0.len() == 8 && sort_key().len() == 4);
    }
    let f = (sort_key(), JsonV::Arr(Seq::<JsonV>::empty()));
    let nq = normalize_spec(find_query_spec());
    assert(nq == JsonV::Obj(sf.push(f)));
    let fs2 = sf.push(f);
    let rest = fs2.subrange(1, 2);
    assert(fs2[0] == sf[0] && fs2[1] == f);
    assert(rest[0] == f);
    assert(rest.subrange(1, 1) =~= Seq::<(Seq<u8>, JsonV)>::empty());
    lemma_esc_id(sort_key());
    lemma_esc_id(sf[0].0);
    let id_spec = sf[0].1.obj_fields();
    let ne_spec = id_spec[0].1.obj_fields();
    lemma_esc_id(id_spec[0].0);
    lemma_esc_id(ne_spec[0].0);
    assert(ser_items(Seq::<JsonV>::empty()) == Seq::<u8>::empty());
    assert(ser(f.1).len() == 2);
    assert(ser_field(f).len() == 1 + 4 + 2 + 2);
    assert(ser_fields(rest).len() == 9);
    assert(ser(ne_spec[0].1).len() == 4);
    assert(ser_field(ne_spec[0]).len() == 1 + 3 + 2 + 4);
    assert(ser_fields(ne_spec).len() == 10);
    assert(ser(id_spec[0].1).len() == 12);
    assert(ser_field(id_spec[0]).len() == 1 + 3 + 2 + 12);
    assert(ser_fields(id_spec).len() == 18);
    assert(ser(sf[0].1).len() == 20);
    assert(ser_field(sf[0]).len() == 1 + 8 + 2 + 20);
    assert(ser_fields(fs2).len() == 31 + 1 + 9);
    assert(ser(nq).len() == 43);
}

/// The canonical text of the fixed create document is short: well under
/// the envelope bound.
proof fn lemma_create_request_small()
    ensures
        ser(create_doc_spec()).len() < MAX_TEXT_LEN,
{
    let fs = create_doc_spec().obj_fields();
    let rest1 = fs.subrange(1, 3);
    let rest2 = rest1.subrange(1, 2);
    assert(rest1[0] == fs[1] && rest1[1] == fs[2]);
    assert(rest2[0] == fs[2]);
    assert(rest2.subrange(1, 1) =~= Seq::<(Seq<u8>, JsonV)>::empty());
    lemma_esc_id(fs[0].0);
    lemma_esc_id(fs[1].0);
    lemma_esc_id(fs[2].0);
    lemma_esc_id(fs[0].1->Str_0);
    lemma_esc_id(fs[1].1->Str_0);
    lemma_esc_id(fs[2].1->Str_0);
    assert(ser_field(fs[0]).len() == 1 + 3 + 2 + (1 + 9 + 1));
    assert(ser_field(fs[1]).len() == 1 + 4 + 2 + (1 + 4 + 1));
    assert(ser_field(fs[2]).len() == 1 + 4 + 2 + (1 + 4 + 1));
    assert(ser_fields(fs).len() == ser_field(fs[0]).len() + 1 + ser_fields(rest1).len());
    assert(ser_fields(rest1).len() == ser_field(fs[1]).len() + 1 + ser_fields(rest2).len());
    assert(ser_fields(rest2).len() == ser_field(fs[2]).len());
    assert(ser(create_doc_spec()).len() < 100);
}

/// The request bytes the find path sends: the normalized match-all query,
/// encoded for the boundary.
pub fn build_find_request() -> (r: Vec<u8>)
    ensures
        r@ == encoded_payload(normalize_spec(find_query_spec())),
{
    let q = build_find_query();
    let nq = normalize(q);
    proof {
        lemma_find_request_small();
    }
    encode_payload(&nq)
}

/// The request bytes the create path sends: the fixed document, encoded
/// for the boundary.
pub fn build_create_request() -> (r: Vec<u8>)
    ensures
        r@ == encoded_payload(create_doc_spec()),
{
    let d = build_create_doc();
    proof {
        lemma_create_request_small();
    }
    encode_payload(&d)
}

/// Reads a find response: exactly `find_result` of the buffer.
pub fn interpret_find_response(resp: &Vec<u8>) -> (r: Option<String>)
    ensures
        r matches Some(s) ==> find_result(resp@) == Some(s@),
        r is None ==> find_result(resp@) is None,
{
    match unwrap_bytes(resp) {
        None => None,
        Some(text) => match parse_bytes(&text) {
            None => None,
            Some(v) => {
                let pb = to_pretty_bytes(&v);
                utf8_to_string(&pb)
            },
        },
    }
}

/// Reads a create response: exactly `create_result` of the buffer.
pub fn interpret_create_response(resp: &Vec<u8>) -> (r: Option<String>)
    ensures
        r matches Some(s) ==> create_result(resp@) == Some(s@),
        r is None ==> create_result(resp@) is None,
{
    match unwrap_bytes(resp) {
        None => None,
        Some(text) => utf8_to_string(&text),
    }
}

/// The contract: it holds no state of its own; the two operations are pure
/// orchestration around the boundary.
pub struct MyContract {}

impl MyContract {
    /// A fresh contract instance.
    pub fn new() -> (r: MyContract) {
        MyContract {  }
    }

    /// Queries all documents: sends the normalized match-all find-query
    /// and pretty-prints whatever collection the boundary answers with.
    /// `Ok` is exactly a response that the find path decodes; every fault
    /// is handed up unchanged.
    pub fn find_all<B: CouchBridge>(&self, bridge: &mut B) -> (r: Result<String, CallFault>)
        ensures
            r matches Ok(s) ==> exists|resp: Seq<u8>| #[trigger] find_result(resp) == Some(s@),
            r matches Err(f) ==> (f matches CallFault::Source(e) ==> e
                == CouchErr::FailGetRandomSource),
            r matches Err(f) ==> (f matches CallFault::UnknownStatus(c) ==> c != 0 && c != 1),
    {
        let payload = build_find_request();
        match invoke(bridge, Operation::Find, &payload) {
            Err(f) => Err(f),
            Ok(resp) => match interpret_find_response(&resp) {
                Some(s) => {
                    proof {
                        assert(find_result(resp@) == Some(s@));
                    }
                    Ok(s)
                },
                None => Err(CallFault::MalformedResponse),
            },
        }
    }

    /// Creates the fixed document: sends it under the create id and
    /// returns the response text unmodified. `Ok` is exactly a response
    /// that the create path decodes; every fault is handed up unchanged.
    pub fn create<B: CouchBridge>(&self, bridge: &mut B) -> (r: Result<String, CallFault>)
        ensures
            r matches Ok(s) ==> exists|resp: Seq<u8>| #[trigger] create_result(resp) == Some(s@),
            r matches Err(f) ==> (f matches CallFault::Source(e) ==> e
                == CouchErr::FailGetRandomSource),
            r matches Err(f) ==> (f matches CallFault::UnknownStatus(c) ==> c != 0 && c != 1),
    {
        let payload = build_create_request();
        match invoke(bridge, Operation::Create, &payload) {
            Err(f) => Err(f),
            Ok(resp) => match interpret_create_response(&resp) {
                Some(s) => {
                    proof {
                        assert(create_result(resp@) == Some(s@));
                    }
                    Ok(s)
                },
                None => Err(CallFault::MalformedResponse),
            },
        }
    }
}

} // verus!
