//! The payload codec as the boundary sees it: the canonical text inside two
//! envelopes on the way out, two openings and one reading on the way in,
//! and one envelope on the way back.

use crate::envelope::{
    compact, lemma_unwrap_truncated, lemma_unwrap_wrap, unwrap, unwrap_bytes, wrap, wrap_bytes,
};
use crate::json::{jview, wf, Json, JsonV};
use crate::parse::{parse_bytes, parse_json};
use crate::roundtrip::lemma_text_round_trip;
use crate::ser::{ser, to_canonical_bytes};
use vstd::prelude::*;
use vstd::utf8::{decode_utf8, valid_utf8};

verus! {

/// Payloads whose canonical text stays under this length fit both
/// envelopes.
pub const MAX_TEXT_LEN: usize = 0x3fff_fff0;

/// A compact length prefix is at most four bytes.
proof fn lemma_compact_len(n: nat)
    ensures
        compact(n).len() <= 4,
{
}

/// The bytes that cross the boundary for a value: its canonical text,
/// wrapped once as the logical payload and once more by the calling
/// convention.
pub open spec fn encoded_payload(v: JsonV) -> Seq<u8> {
    wrap(wrap(ser(v)))
}

/// What the receiving side makes of an argument buffer: open both
/// envelopes, take the inner bytes as a UTF-8 string, then read the
/// canonical text. Each step may refuse — a short or long envelope, text
/// that is not valid UTF-8, text that is not canonical — and then the
/// whole buffer is refused.
pub open spec fn decoded_argument(b: Seq<u8>) -> Option<JsonV> {
    match unwrap(b) {
        Some(inner) => match unwrap(inner) {
            Some(text) => if valid_utf8(text) {
                parse_json(text)
            } else {
                None
            },
            None => None,
        },
        None => None,
    }
}

/// Relies on std::str::from_utf8: it accepts exactly the valid UTF-8 byte
/// strings, and hands back those bytes read as characters.
#[verifier::external_body]
pub(crate) fn utf8_to_string(b: &Vec<u8>) -> (r: Option<String>)
    ensures
        r is Some <==> valid_utf8(b@),
        r matches Some(s) ==> s@ == decode_utf8(b@),
{
    match std::str::from_utf8(b.as_slice()) {
        Ok(s) => Some(s.to_owned()),
        Err(_) => None,
    }
}

/// Encodes a value for the boundary.
pub fn encode_payload(v: &Json) -> (r: Vec<u8>)
    requires
        ser(jview(*v)).len() < MAX_TEXT_LEN,
    ensures
        r@ == encoded_payload(jview(*v)),
{
    let text = to_canonical_bytes(v);
    proof {
        lemma_compact_len(text@.len() as nat);
    }
    let inner = wrap_bytes(&text);
    let outer = wrap_bytes(&inner);
    outer
}

/// Decodes an argument buffer back to a value, refusing anything that is
/// not exactly a double-wrapped canonical text.
pub fn decode_argument(b: &Vec<u8>) -> (r: Option<Json>)
    ensures
        match r {
            Some(v) => decoded_argument(b@) == Some(jview(v)),
            None => decoded_argument(b@) is None,
        },
{
    match unwrap_bytes(b) {
        None => None,
        Some(inner) => match unwrap_bytes(&inner) {
            None => None,
            Some(text) => match utf8_to_string(&text) {
                Some(_) => parse_bytes(&text),
                None => None,
            },
        },
    }
}

/// Closes the single return-path envelope around a response text.
pub fn encode_response(text: &Vec<u8>) -> (r: Vec<u8>)
    requires
        text@.len() < 0x4000_0000,
    ensures
        r@ == wrap(text@),
{
    wrap_bytes(text)
}

/// The full round trip: what was encoded for the boundary decodes, through
/// both envelopes and the text, to the value that was encoded. It asks
/// that the canonical text be valid UTF-8: a value whose strings hold
/// bytes that no UTF-8 text may hold cannot cross the boundary.
pub proof fn law_payload_round_trip(v: JsonV)
    requires
        wf(v),
        ser(v).len() < MAX_TEXT_LEN,
        valid_utf8(ser(v)),
    ensures
        decoded_argument(encoded_payload(v)) == Some(v),
{
    let text = ser(v);
    lemma_compact_len(text.len() as nat);
    let inner = wrap(text);
    lemma_unwrap_wrap(inner);
    lemma_unwrap_wrap(text);
    lemma_text_round_trip(v);
}

/// A payload with its last byte cut off never decodes: the outer envelope
/// itself refuses, so no partially read value can come back.
pub proof fn law_truncated_payload_fails(v: JsonV)
    requires
        ser(v).len() < MAX_TEXT_LEN,
    ensures
        encoded_payload(v).len() > 0,
        decoded_argument(
            encoded_payload(v).subrange(0, encoded_payload(v).len() - 1),
        ) is None,
{
    let text = ser(v);
    lemma_compact_len(text.len() as nat);
    let inner = wrap(text);
    lemma_unwrap_truncated(inner);
}

} // verus!
