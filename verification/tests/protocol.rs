use couch_bridge::codec::{decode_argument, encode_payload, encode_response};
use couch_bridge::envelope::{unwrap_bytes, wrap_bytes};
use couch_bridge::json::Json;
use couch_bridge::normalize::normalize;
use couch_bridge::parse::parse_bytes;
use couch_bridge::pretty::to_pretty_bytes;
use couch_bridge::ser::to_canonical_bytes;
use couch_bridge::status::CouchErr;

fn obj(fields: Vec<(&str, Json)>) -> Json {
    Json::Obj(fields.into_iter().map(|(k, v)| (k.as_bytes().to_vec(), v)).collect())
}

fn s(text: &str) -> Json {
    Json::Str(text.as_bytes().to_vec())
}

#[test]
fn status_zero_is_success() {
    assert_eq!(CouchErr::try_from_status_code(0), Some(Ok(())));
    assert_eq!(CouchErr::from_status_code(0), Ok(()));
}

#[test]
fn status_one_is_source_unavailable() {
    assert_eq!(
        CouchErr::try_from_status_code(1),
        Some(Err(CouchErr::FailGetRandomSource))
    );
    assert_eq!(
        CouchErr::from_status_code(1),
        Err(CouchErr::FailGetRandomSource)
    );
}

#[test]
fn status_unknown_is_protocol_violation() {
    assert_eq!(CouchErr::try_from_status_code(2), None);
    assert_eq!(CouchErr::try_from_status_code(7), None);
    assert_eq!(CouchErr::try_from_status_code(u32::MAX), None);
}

#[test]
fn normalize_inserts_empty_sort() {
    let q = obj(vec![]);
    let n = normalize(q);
    assert_eq!(n, obj(vec![("sort", Json::Arr(vec![]))]));
}

#[test]
fn normalize_keeps_existing_sort_and_other_keys() {
    let q = obj(vec![
        ("selector", obj(vec![])),
        ("sort", Json::Arr(vec![s("x")])),
    ]);
    let expected = obj(vec![
        ("selector", obj(vec![])),
        ("sort", Json::Arr(vec![s("x")])),
    ]);
    assert_eq!(normalize(q), expected);
}

#[test]
fn normalize_appends_sort_after_other_keys() {
    let q = obj(vec![("limit", Json::Int(10)), ("flag", Json::Bool(true))]);
    let n = normalize(q);
    let expected = obj(vec![
        ("limit", Json::Int(10)),
        ("flag", Json::Bool(true)),
        ("sort", Json::Arr(vec![])),
    ]);
    assert_eq!(n, expected);
}

#[test]
fn canonical_text_of_fixed_doc() {
    let doc = obj(vec![
        ("ink", s("substrate")),
        ("this", s("that")),
        ("asdf", s("zxcv")),
    ]);
    let text = to_canonical_bytes(&doc);
    assert_eq!(
        text,
        br#"{"ink":"substrate","this":"that","asdf":"zxcv"}"#.to_vec()
    );
}

#[test]
fn canonical_text_escapes_quote_and_backslash() {
    let v = s("a\"b\\c");
    let text = to_canonical_bytes(&v);
    assert_eq!(text, b"\"a\\\"b\\\\c\"".to_vec());
    assert_eq!(parse_bytes(&text), Some(s("a\"b\\c")));
}

#[test]
fn canonical_text_of_integers() {
    let v = Json::Arr(vec![
        Json::Int(0),
        Json::Int(-1),
        Json::Int(i64::MAX),
        Json::Int(i64::MIN),
    ]);
    let text = to_canonical_bytes(&v);
    assert_eq!(
        text,
        b"[0,-1,9223372036854775807,-9223372036854775808]".to_vec()
    );
    assert_eq!(parse_bytes(&text), Some(v));
}

#[test]
fn parser_rejects_noncanonical_numbers() {
    assert_eq!(parse_bytes(&b"01".to_vec()), None);
    assert_eq!(parse_bytes(&b"-0".to_vec()), None);
    assert_eq!(parse_bytes(&b"9223372036854775808".to_vec()), None);
    assert_eq!(parse_bytes(&b"-9223372036854775809".to_vec()), None);
    assert_eq!(parse_bytes(&b"-".to_vec()), None);
}

#[test]
fn parser_rejects_trailing_bytes_and_whitespace() {
    assert_eq!(parse_bytes(&b"[] ".to_vec()), None);
    assert_eq!(parse_bytes(&b" []".to_vec()), None);
    assert_eq!(parse_bytes(&b"nullx".to_vec()).is_some(), false);
    assert_eq!(parse_bytes(&b"{\"a\":1,}".to_vec()), None);
}

#[test]
fn parser_reads_nested_values() {
    let text = br#"{"a":[1,true,null],"b":{"c":"d"}}"#.to_vec();
    let expected = obj(vec![
        (
            "a",
            Json::Arr(vec![Json::Int(1), Json::Bool(true), Json::Null]),
        ),
        ("b", obj(vec![("c", s("d"))])),
    ]);
    assert_eq!(parse_bytes(&text), Some(expected));
}

#[test]
fn envelope_round_trip_at_mode_boundaries() {
    for n in [0usize, 1, 63, 64, 300, 16383, 16384, 20000] {
        let b: Vec<u8> = (0..n).map(|i| (i % 251) as u8).collect();
        let w = wrap_bytes(&b);
        assert_eq!(unwrap_bytes(&w), Some(b));
    }
}

#[test]
fn envelope_rejects_short_and_long_buffers() {
    let b = b"hello".to_vec();
    let mut w = wrap_bytes(&b);
    w.push(0);
    assert_eq!(unwrap_bytes(&w), None);
    w.pop();
    w.pop();
    assert_eq!(unwrap_bytes(&w), None);
    assert_eq!(unwrap_bytes(&Vec::new()), None);
}

#[test]
fn payload_round_trip_through_both_envelopes() {
    let v = obj(vec![
        ("list", Json::Arr(vec![Json::Int(-5), s("x\"y"), Json::Null])),
        ("inner", obj(vec![("flag", Json::Bool(false))])),
    ]);
    let copy = obj(vec![
        ("list", Json::Arr(vec![Json::Int(-5), s("x\"y"), Json::Null])),
        ("inner", obj(vec![("flag", Json::Bool(false))])),
    ]);
    let encoded = encode_payload(&v);
    assert_eq!(decode_argument(&encoded), Some(copy));
}

#[test]
fn truncated_payload_is_rejected_whole() {
    let v = obj(vec![("ink", s("substrate"))]);
    let mut encoded = encode_payload(&v);
    encoded.pop();
    assert_eq!(decode_argument(&encoded), None);
}

#[test]
fn single_unwrap_of_double_wrapped_payload_is_not_json() {
    let v = obj(vec![("ink", s("substrate"))]);
    let encoded = encode_payload(&v);
    let once = unwrap_bytes(&encoded).expect("outer envelope opens");
    assert_eq!(parse_bytes(&once), None);
}

#[test]
fn pretty_text_of_empty_array_is_flat() {
    let v = Json::Arr(vec![]);
    assert_eq!(to_pretty_bytes(&v), b"[]".to_vec());
    assert_eq!(to_pretty_bytes(&obj(vec![])), b"{}".to_vec());
}

#[test]
fn pretty_text_indents_nested_values() {
    let v = Json::Arr(vec![obj(vec![("a", Json::Int(1))]), Json::Int(2)]);
    let expected = b"[\n  {\n    \"a\": 1\n  },\n  2\n]".to_vec();
    assert_eq!(to_pretty_bytes(&v), expected);
}

#[test]
fn canonical_text_escapes_control_bytes() {
    let v = Json::Str(vec![1u8, 10u8, 31u8, 65u8]);
    let text = to_canonical_bytes(&v);
    assert_eq!(text, b"\"\\u0001\\u000a\\u001fA\"".to_vec());
    assert_eq!(parse_bytes(&text), Some(Json::Str(vec![1u8, 10u8, 31u8, 65u8])));
}

#[test]
fn control_bytes_survive_the_payload_round_trip() {
    let v = Json::Arr(vec![s("line\nbreak"), Json::Str(vec![0u8])]);
    let copy = Json::Arr(vec![s("line\nbreak"), Json::Str(vec![0u8])]);
    let encoded = encode_payload(&v);
    assert_eq!(decode_argument(&encoded), Some(copy));
}

#[test]
fn argument_with_invalid_utf8_text_is_refused() {
    // A canonical string of the single byte 255 is representable in the
    // tree, but its text is not valid UTF-8, so the inbound decode refuses
    // the whole payload.
    let encoded = encode_payload(&Json::Str(vec![255u8]));
    assert_eq!(decode_argument(&encoded), None);
    let framed = wrap_bytes(&wrap_bytes(&vec![34u8, 255u8, 34u8]));
    assert_eq!(decode_argument(&framed), None);
}

#[test]
fn parser_rejects_unknown_and_uppercase_escapes() {
    assert_eq!(parse_bytes(&b"\"\\n\"".to_vec()), None);
    assert_eq!(parse_bytes(&b"\"\\u001F\"".to_vec()), None);
    assert_eq!(parse_bytes(&b"\"\\u0041\"".to_vec()), None);
}

#[test]
fn response_envelope_round_trip() {
    let text = b"[]".to_vec();
    let w = encode_response(&text);
    assert_eq!(unwrap_bytes(&w), Some(b"[]".to_vec()));
}
