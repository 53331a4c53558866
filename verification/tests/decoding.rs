use incremental_consumer::decode::{
    decode, decode_document, merge_path, parse_document, parse_index, DecodeError,
};
use incremental_consumer::json::Document;
use incremental_consumer::path::{decimal_text, lookup, path_document, PathSegment};
use incremental_consumer::result::{
    DeferPayload, ExecutionResult, GraphQLResult, IncrementalPayload, StreamPayload,
    StreamedExecutionResult,
};

fn number(text: &str) -> Document {
    Document::Number(text.to_string())
}

fn string(text: &str) -> Document {
    Document::String(text.to_string())
}

fn object(members: Vec<(&str, Document)>) -> Document {
    Document::Object(members.into_iter().map(|(k, v)| (k.to_string(), v)).collect())
}

fn key(name: &str) -> PathSegment {
    PathSegment::Key(name.to_string())
}

fn as_value(doc: &Document) -> serde_json::Value {
    match doc {
        Document::Null => serde_json::Value::Null,
        Document::Bool(b) => serde_json::Value::Bool(*b),
        Document::Number(n) => serde_json::Value::Number(serde_json::from_str(n).unwrap()),
        Document::String(s) => serde_json::Value::String(s.clone()),
        Document::Array(items) => serde_json::Value::Array(items.iter().map(as_value).collect()),
        Document::Object(members) => {
            let mut map = serde_json::Map::new();
            for (k, v) in members {
                map.insert(k.clone(), as_value(v));
            }
            serde_json::Value::Object(map)
        }
    }
}

fn same_json(doc: &Document, text: &str) -> bool {
    as_value(doc) == serde_json::from_str::<serde_json::Value>(text).unwrap()
}

#[test]
fn parse_document_reads_every_kind_of_value() {
    let doc = parse_document(b"{\"n\":null,\"t\":true,\"i\":-12,\"f\":2.5,\"s\":\"x\",\"a\":[1,[2]],\"o\":{}}")
        .unwrap();
    assert_eq!(doc.get(&"n".to_string()), Some(&Document::Null));
    assert_eq!(doc.get(&"t".to_string()), Some(&Document::Bool(true)));
    assert_eq!(doc.get(&"i".to_string()), Some(&number("-12")));
    assert_eq!(doc.get(&"f".to_string()), Some(&number("2.5")));
    assert_eq!(doc.get(&"s".to_string()), Some(&string("x")));
    assert_eq!(
        doc.get(&"a".to_string()),
        Some(&Document::Array(vec![number("1"), Document::Array(vec![number("2")])]))
    );
    assert_eq!(doc.get(&"o".to_string()), Some(&Document::Object(vec![])));
    assert_eq!(doc.get(&"missing".to_string()), None);
}

#[test]
fn parse_document_keeps_the_last_of_two_members_with_one_key() {
    let doc = parse_document(b"{\"a\":1,\"a\":2}").unwrap();
    assert_eq!(doc.get(&"a".to_string()), Some(&number("2")));
}

#[test]
fn parse_document_refuses_what_is_not_json() {
    assert_eq!(parse_document(b"{\"a\":"), None);
    assert_eq!(parse_document(b""), None);
    assert_eq!(parse_document(b"{} trailing"), None);
    assert_eq!(parse_document(&[0xff, 0xfe]), None);
}

#[test]
fn parse_document_does_not_hand_the_text_back() {
    let doc = parse_document(b"\"{}\"").unwrap();
    assert_eq!(doc, string("{}"));
}

#[test]
fn get_reads_the_last_member_with_a_key() {
    let doc = object(vec![("a", number("1")), ("b", number("2")), ("a", number("3"))]);
    assert_eq!(doc.get(&"a".to_string()), Some(&number("3")));
    assert_eq!(doc.get(&"b".to_string()), Some(&number("2")));
    assert_eq!(number("1").get(&"a".to_string()), None);
}

#[test]
fn clone_copies_the_whole_tree() {
    let doc = object(vec![("a", Document::Array(vec![Document::Null, string("x")]))]);
    assert_eq!(doc.clone(), doc);
}

#[test]
fn parse_index_reads_decimal_digits() {
    assert_eq!(parse_index(&"0".to_string()), Some(0));
    assert_eq!(parse_index(&"42".to_string()), Some(42));
    assert_eq!(parse_index(&"007".to_string()), Some(7));
    assert_eq!(parse_index(&usize::MAX.to_string()), Some(usize::MAX));
}

#[test]
fn parse_index_refuses_what_is_no_index() {
    assert_eq!(parse_index(&"".to_string()), None);
    assert_eq!(parse_index(&"-1".to_string()), None);
    assert_eq!(parse_index(&"1.0".to_string()), None);
    assert_eq!(parse_index(&"1e3".to_string()), None);
    assert_eq!(parse_index(&"12a".to_string()), None);
    assert_eq!(parse_index(&format!("{}0", usize::MAX)), None);
    assert_eq!(parse_index(&"99999999999999999999999999".to_string()), None);
}

#[test]
fn decimal_text_writes_a_number() {
    assert_eq!(decimal_text(0), "0");
    assert_eq!(decimal_text(7), "7");
    assert_eq!(decimal_text(10), "10");
    assert_eq!(decimal_text(1203), "1203");
    assert_eq!(decimal_text(usize::MAX), usize::MAX.to_string());
}

#[test]
fn path_document_writes_names_and_indices() {
    let path = vec![key("alphabet"), PathSegment::Index(12)];
    assert_eq!(path_document(&path), Document::Array(vec![string("alphabet"), number("12")]));
    assert_eq!(path_document(&vec![]), Document::Array(vec![]));
}

#[test]
fn lookup_follows_names_and_indices() {
    let doc = parse_document(b"{\"a\":[{\"b\":1},{\"b\":2}]}").unwrap();
    let path = vec![key("a"), PathSegment::Index(1), key("b")];
    assert_eq!(lookup(&doc, &path), Some(&number("2")));
    assert_eq!(lookup(&doc, &vec![]), Some(&doc));
    assert_eq!(lookup(&doc, &vec![key("a"), PathSegment::Index(2)]), None);
    assert_eq!(lookup(&doc, &vec![key("a"), key("b")]), None);
    assert_eq!(lookup(&doc, &vec![PathSegment::Index(0)]), None);
    assert_eq!(lookup(&doc, &vec![key("a"), PathSegment::Index(0), key("b"), key("c")]), None);
}

#[test]
fn merge_path_reads_names_and_indices() {
    let doc = parse_document(b"[\"alphabet\",2,\"x\"]").unwrap();
    assert_eq!(merge_path(&doc), Some(vec![key("alphabet"), PathSegment::Index(2), key("x")]));
    assert_eq!(merge_path(&parse_document(b"[]").unwrap()), Some(vec![]));
    assert_eq!(merge_path(&parse_document(b"[1.5]").unwrap()), None);
    assert_eq!(merge_path(&parse_document(b"[\"a\",true]").unwrap()), None);
    assert_eq!(merge_path(&parse_document(b"\"a.b\"").unwrap()), None);
}

#[test]
fn decode_initial_result() {
    let decoded = decode(b"{\"data\":{\"fastField\":1},\"hasNext\":true}").unwrap();
    assert_eq!(
        decoded,
        GraphQLResult::ExecutionResult(ExecutionResult {
            data: object(vec![("fastField", number("1"))]),
            errors: vec![],
            has_next: true,
        })
    );
}

#[test]
fn decode_initial_result_without_has_next_expects_more() {
    let decoded = decode(b"{\"data\":null,\"errors\":[{\"message\":\"m\"}]}").unwrap();
    assert_eq!(
        decoded,
        GraphQLResult::ExecutionResult(ExecutionResult {
            data: Document::Null,
            errors: vec![object(vec![("message", string("m"))])],
            has_next: true,
        })
    );
}

#[test]
fn decode_initial_result_that_is_already_complete() {
    match decode(b"{\"data\":{},\"hasNext\":false,\"errors\":null}").unwrap() {
        GraphQLResult::ExecutionResult(result) => {
            assert!(!result.has_next);
            assert!(result.errors.is_empty());
        }
        other => panic!("not an initial result: {:?}", other),
    }
}

#[test]
fn decode_patch_with_both_kinds_of_payload() {
    let text = b"{\"hasNext\":false,\"incremental\":[{\"data\":{\"slowField\":2},\"path\":[]},{\"items\":[\"c\"],\"path\":[\"alphabet\",2],\"errors\":[{\"message\":\"e\"}]}]}";
    let decoded = decode(text).unwrap();
    assert_eq!(
        decoded,
        GraphQLResult::StreamedExecutionResult(StreamedExecutionResult {
            has_next: false,
            incremental: vec![
                IncrementalPayload::DeferPayload(DeferPayload {
                    data: object(vec![("slowField", number("2"))]),
                    errors: vec![],
                    path: vec![],
                }),
                IncrementalPayload::StreamPayload(StreamPayload {
                    items: vec![string("c")],
                    errors: vec![object(vec![("message", string("e"))])],
                    path: vec![key("alphabet"), PathSegment::Index(2)],
                }),
            ],
        })
    );
}

#[test]
fn decode_goes_by_the_incremental_member_first() {
    match decode(b"{\"data\":{\"a\":1},\"incremental\":[],\"hasNext\":true}").unwrap() {
        GraphQLResult::StreamedExecutionResult(patch) => {
            assert!(patch.has_next);
            assert!(patch.incremental.is_empty());
        }
        other => panic!("not a patch: {:?}", other),
    }
}

#[test]
fn decode_payload_with_items_is_a_stream_payload() {
    let text = b"{\"hasNext\":true,\"incremental\":[{\"items\":[1],\"data\":{\"a\":1},\"path\":[\"l\",0]}]}";
    match decode(text).unwrap() {
        GraphQLResult::StreamedExecutionResult(patch) => match &patch.incremental[0] {
            IncrementalPayload::StreamPayload(p) => assert_eq!(p.items, vec![number("1")]),
            other => panic!("not a stream payload: {:?}", other),
        },
        other => panic!("not a patch: {:?}", other),
    }
}

#[test]
fn decode_bare_has_next_is_a_patch_without_payloads() {
    assert_eq!(
        decode(b"{\"hasNext\":false}").unwrap(),
        GraphQLResult::StreamedExecutionResult(StreamedExecutionResult {
            has_next: false,
            incremental: vec![],
        })
    );
    assert_eq!(
        decode(b"{\"hasNext\":true,\"incremental\":null}").unwrap(),
        GraphQLResult::StreamedExecutionResult(StreamedExecutionResult {
            has_next: true,
            incremental: vec![],
        })
    );
}

#[test]
fn decode_error_carries_the_text() {
    let text = b"{\"data\":".to_vec();
    assert_eq!(decode(&text), Err(DecodeError { text: text.clone() }));
    let text = b"[1,2]".to_vec();
    assert_eq!(decode(&text), Err(DecodeError { text: text.clone() }));
}

#[test]
fn decode_refuses_what_has_neither_shape() {
    assert!(decode(b"{}").is_err());
    assert!(decode(b"{\"errors\":[]}").is_err());
    assert!(decode(b"{\"hasNext\":\"no\"}").is_err());
    assert!(decode(b"{\"data\":{},\"hasNext\":1}").is_err());
    assert!(decode(b"{\"data\":{},\"errors\":{}}").is_err());
    assert!(decode(b"{\"incremental\":[]}").is_err());
    assert!(decode(b"{\"incremental\":{},\"hasNext\":true}").is_err());
    assert!(decode(b"\"text\"").is_err());
}

#[test]
fn decode_refuses_a_malformed_payload() {
    assert!(decode(b"{\"hasNext\":true,\"incremental\":[{\"data\":{}}]}").is_err());
    assert!(decode(b"{\"hasNext\":true,\"incremental\":[{\"path\":[]}]}").is_err());
    assert!(decode(b"{\"hasNext\":true,\"incremental\":[{\"items\":{},\"path\":[\"a\",0]}]}").is_err());
    assert!(decode(b"{\"hasNext\":true,\"incremental\":[{\"data\":{},\"path\":\"a\"}]}").is_err());
    assert!(decode(b"{\"hasNext\":true,\"incremental\":[{\"data\":{},\"path\":[1.5]}]}").is_err());
    assert!(decode(b"{\"hasNext\":true,\"incremental\":[{\"data\":{},\"path\":[-1]}]}").is_err());
    assert!(decode(b"{\"hasNext\":true,\"incremental\":[{\"data\":{},\"path\":[null]}]}").is_err());
    assert!(decode(b"{\"hasNext\":true,\"incremental\":[{\"data\":{},\"path\":[],\"errors\":1}]}").is_err());
    assert!(decode(b"{\"hasNext\":true,\"incremental\":[7]}").is_err());
}

#[test]
fn decode_document_takes_a_document_built_by_hand() {
    let doc = object(vec![("data", object(vec![("a", number("1"))])), ("hasNext", Document::Bool(false))]);
    match decode_document(&doc).unwrap() {
        GraphQLResult::ExecutionResult(result) => {
            assert!(same_json(&result.data, "{\"a\":1}"));
            assert!(!result.has_next);
        }
        other => panic!("not an initial result: {:?}", other),
    }
    assert_eq!(decode_document(&Document::Null), None);
}
