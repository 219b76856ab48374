use couch_bridge::bridge::{invoke, CallFault, CouchBridge, Operation};
use couch_bridge::codec::{decode_argument, encode_response};
use couch_bridge::contract::MyContract;
use couch_bridge::json::Json;
use couch_bridge::status::CouchErr;

/// An in-process boundary over an in-memory document store: it opens both
/// argument envelopes with the library's own codec, serves the query or the
/// create, and closes one envelope around the response text.
struct MemoryBridge {
    store_name: &'static str,
    docs: Vec<Json>,
    calls: u32,
}

fn sort_field_is_empty_array(query: &Json) -> bool {
    match query {
        Json::Obj(fields) => fields
            .iter()
            .any(|(k, v)| k.as_slice() == b"sort" && *v == Json::Arr(vec![])),
        _ => false,
    }
}

fn has_selector_field(query: &Json) -> bool {
    match query {
        Json::Obj(fields) => fields.iter().any(|(k, _)| k.as_slice() == b"selector"),
        _ => false,
    }
}

impl CouchBridge for MemoryBridge {
    fn call(&mut self, func_id: u32, input: &Vec<u8>, output: &mut Vec<u8>) -> u32 {
        assert_eq!(self.store_name, "test_db");
        self.calls += 1;
        let argument = match decode_argument(input) {
            Some(v) => v,
            None => return 1,
        };
        match func_id {
            2 => {
                // The find path must carry the match-all selector and have
                // normalized the query: a `sort` key with an empty ordering
                // must be present.
                assert!(has_selector_field(&argument));
                assert!(sort_field_is_empty_array(&argument));
                let listing = Json::Arr(std::mem::take(&mut self.docs));
                let text = couch_bridge::ser::to_canonical_bytes(&listing);
                let framed = encode_response(&text);
                output.extend(framed);
                0
            },
            3 => {
                let expected = Json::Obj(vec![
                    (b"ink".to_vec(), Json::Str(b"substrate".to_vec())),
                    (b"this".to_vec(), Json::Str(b"that".to_vec())),
                    (b"asdf".to_vec(), Json::Str(b"zxcv".to_vec())),
                ]);
                assert_eq!(argument, expected);
                let text = br#"{"_id":"doc-1","_rev":"1-abc","ink":"substrate","this":"that","asdf":"zxcv"}"#
                    .to_vec();
                let framed = encode_response(&text);
                output.extend(framed);
                0
            },
            _ => 1,
        }
    }
}

#[test]
fn find_all_works() {
    let mut bridge = MemoryBridge { store_name: "test_db", docs: vec![], calls: 0 };
    let contract = MyContract::new();
    let listing = contract.find_all(&mut bridge).expect("find-all succeeds");
    println!("{}", listing);
    assert_eq!(listing, "[]");
    assert_eq!(bridge.calls, 1);
}

#[test]
fn create_works() {
    let mut bridge = MemoryBridge { store_name: "test_db", docs: vec![], calls: 0 };
    let contract = MyContract::new();
    let stored = contract.create(&mut bridge).expect("create succeeds");
    println!("{}", stored);
    assert_eq!(
        stored,
        r#"{"_id":"doc-1","_rev":"1-abc","ink":"substrate","this":"that","asdf":"zxcv"}"#
    );
    assert_eq!(bridge.calls, 1);
}

#[test]
fn find_all_pretty_prints_documents() {
    let doc = Json::Obj(vec![(b"a".to_vec(), Json::Int(1))]);
    let mut bridge = MemoryBridge { store_name: "test_db", docs: vec![doc], calls: 0 };
    let contract = MyContract::new();
    let listing = contract.find_all(&mut bridge).expect("find-all succeeds");
    assert_eq!(listing, "[\n  {\n    \"a\": 1\n  }\n]");
}

struct StatusBridge {
    code: u32,
}

impl CouchBridge for StatusBridge {
    fn call(&mut self, _func_id: u32, _input: &Vec<u8>, _output: &mut Vec<u8>) -> u32 {
        self.code
    }
}

#[test]
fn status_one_surfaces_as_typed_fault() {
    let contract = MyContract::new();
    let mut bridge = StatusBridge { code: 1 };
    assert_eq!(
        contract.find_all(&mut bridge),
        Err(CallFault::Source(CouchErr::FailGetRandomSource))
    );
}

#[test]
fn unknown_status_surfaces_as_protocol_fault() {
    let contract = MyContract::new();
    let mut bridge = StatusBridge { code: 7 };
    assert_eq!(contract.create(&mut bridge), Err(CallFault::UnknownStatus(7)));
}

#[test]
fn garbage_response_surfaces_as_malformed() {
    // Status zero with an empty output buffer: the envelope never opens.
    let contract = MyContract::new();
    let mut bridge = StatusBridge { code: 0 };
    assert_eq!(
        contract.find_all(&mut bridge),
        Err(CallFault::MalformedResponse)
    );
}

struct RecordingBridge {
    seen_id: Option<u32>,
}

impl CouchBridge for RecordingBridge {
    fn call(&mut self, func_id: u32, _input: &Vec<u8>, output: &mut Vec<u8>) -> u32 {
        self.seen_id = Some(func_id);
        output.extend(encode_response(&b"[]".to_vec()));
        0
    }
}

#[test]
fn operations_dispatch_under_their_wire_ids() {
    let mut bridge = RecordingBridge { seen_id: None };
    let payload = couch_bridge::contract::build_find_request();
    invoke(&mut bridge, Operation::Find, &payload).expect("status zero");
    assert_eq!(bridge.seen_id, Some(2));
    let payload = couch_bridge::contract::build_create_request();
    invoke(&mut bridge, Operation::Create, &payload).expect("status zero");
    assert_eq!(bridge.seen_id, Some(3));
}

fn match_all_selector() -> Json {
    Json::Obj(vec![(
        b"_id".to_vec(),
        Json::Obj(vec![(b"$ne".to_vec(), Json::Null)]),
    )])
}

#[test]
fn find_request_carries_selector_and_normalized_sort() {
    let payload = couch_bridge::contract::build_find_request();
    let argument = decode_argument(&payload).expect("request decodes");
    assert_eq!(
        argument,
        Json::Obj(vec![
            (b"selector".to_vec(), match_all_selector()),
            (b"sort".to_vec(), Json::Arr(vec![])),
        ])
    );
}

#[test]
fn find_query_is_the_match_all_selector() {
    let query = couch_bridge::contract::build_find_query();
    let text = couch_bridge::ser::to_canonical_bytes(&query);
    assert_eq!(text, br#"{"selector":{"_id":{"$ne":null}}}"#.to_vec());
}

#[test]
fn corrupted_find_response_fails_deterministically() {
    let text = b"[]".to_vec();
    let mut framed = encode_response(&text);
    framed.pop();
    assert_eq!(couch_bridge::contract::interpret_find_response(&framed), None);
}
