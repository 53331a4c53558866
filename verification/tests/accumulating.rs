use incremental_consumer::accumulator::{Accumulator, ConsumeError, Phase};
use incremental_consumer::consumer::Consumer;
use incremental_consumer::decode::{parse_document, DecodeError};
use incremental_consumer::framer::{Encoding, Framer};
use incremental_consumer::json::Document;
use incremental_consumer::parse::{FramingError, StreamState, StreamedChunk};
use incremental_consumer::result::ExecutionResult;

fn to_json(doc: &Document) -> serde_json::Value {
    match doc {
        Document::Null => serde_json::Value::Null,
        Document::Bool(b) => serde_json::Value::Bool(*b),
        Document::Number(n) => serde_json::Value::Number(serde_json::from_str(n).unwrap()),
        Document::String(s) => serde_json::Value::String(s.clone()),
        Document::Array(items) => serde_json::Value::Array(items.iter().map(to_json).collect()),
        Document::Object(members) => {
            let mut map = serde_json::Map::new();
            for (k, v) in members {
                map.insert(k.clone(), to_json(v));
            }
            serde_json::Value::Object(map)
        }
    }
}

fn rendered(result: &ExecutionResult) -> serde_json::Value {
    let mut map = serde_json::Map::new();
    map.insert("data".to_string(), to_json(&result.data));
    map.insert(
        "errors".to_string(),
        serde_json::Value::Array(result.errors.iter().map(to_json).collect()),
    );
    map.insert("complete".to_string(), serde_json::Value::Bool(!result.has_next));
    serde_json::Value::Object(map)
}

fn expected(text: &str) -> serde_json::Value {
    serde_json::from_str(text).unwrap()
}

fn in_progress(text: &str) -> StreamedChunk {
    StreamedChunk { state: StreamState::InProgress, payload: text.as_bytes().to_vec() }
}

fn terminal(text: &str) -> StreamedChunk {
    StreamedChunk { state: StreamState::Final, payload: text.as_bytes().to_vec() }
}

#[test]
fn accumulator_starts_awaiting_the_initial_result() {
    let accumulator = Accumulator::new();
    assert_eq!(accumulator.phase(), Phase::AwaitingInitial);
    assert_eq!(accumulator.result, None);
}

#[test]
fn initial_result_alone_ends_complete_with_its_data() {
    let mut accumulator = Accumulator::new();
    assert_eq!(accumulator.accept(&in_progress("{\"data\":{\"a\":[1,2]},\"hasNext\":true}")), Ok(()));
    assert_eq!(accumulator.phase(), Phase::Streaming);
    accumulator.finish();
    assert_eq!(accumulator.phase(), Phase::Done);
    assert_eq!(
        rendered(accumulator.result.as_ref().unwrap()),
        expected("{\"data\":{\"a\":[1,2]},\"errors\":[],\"complete\":true}")
    );
}

#[test]
fn end_to_end_defer_at_the_root() {
    let mut accumulator = Accumulator::new();
    assert_eq!(accumulator.accept(&in_progress("{\"data\":{\"fastField\":1},\"hasNext\":true}")), Ok(()));
    assert_eq!(
        accumulator.accept(&in_progress(
            "{\"hasNext\":false,\"incremental\":[{\"data\":{\"slowField\":2},\"path\":[]}]}"
        )),
        Ok(())
    );
    assert_eq!(accumulator.phase(), Phase::Streaming);
    assert_eq!(
        rendered(accumulator.result.as_ref().unwrap()),
        expected("{\"data\":{\"fastField\":1,\"slowField\":2},\"errors\":[],\"complete\":true}")
    );
    accumulator.finish();
    assert_eq!(
        rendered(accumulator.result.as_ref().unwrap()),
        expected("{\"data\":{\"fastField\":1,\"slowField\":2},\"errors\":[],\"complete\":true}")
    );
}

#[test]
fn frames_without_payload_are_passed_over() {
    let mut accumulator = Accumulator::new();
    assert_eq!(accumulator.accept(&in_progress("")), Ok(()));
    assert_eq!(accumulator.phase(), Phase::AwaitingInitial);
    accumulator.accept(&in_progress("{\"data\":{},\"hasNext\":true}")).unwrap();
    assert_eq!(accumulator.accept(&in_progress("")), Ok(()));
    assert_eq!(accumulator.phase(), Phase::Streaming);
    assert!(accumulator.result.as_ref().unwrap().has_next);
}

#[test]
fn terminal_frame_without_payload_ends_the_accumulation() {
    let mut accumulator = Accumulator::new();
    accumulator.accept(&in_progress("{\"data\":{\"a\":1},\"hasNext\":true}")).unwrap();
    assert_eq!(accumulator.accept(&terminal("")), Ok(()));
    assert_eq!(accumulator.phase(), Phase::Done);
    assert_eq!(
        rendered(accumulator.result.as_ref().unwrap()),
        expected("{\"data\":{\"a\":1},\"errors\":[],\"complete\":true}")
    );
    assert_eq!(accumulator.accept(&in_progress("{\"data\":{\"b\":2},\"hasNext\":true}")), Ok(()));
    assert_eq!(
        rendered(accumulator.result.as_ref().unwrap()),
        expected("{\"data\":{\"a\":1},\"errors\":[],\"complete\":true}")
    );
}

#[test]
fn terminal_frame_before_any_result_ends_without_one() {
    let mut accumulator = Accumulator::new();
    assert_eq!(accumulator.accept(&terminal("")), Ok(()));
    assert_eq!(accumulator.phase(), Phase::Done);
    assert_eq!(accumulator.result, None);
}

#[test]
fn terminal_frame_with_a_result_ends_the_accumulation() {
    let mut accumulator = Accumulator::new();
    assert_eq!(accumulator.accept(&terminal("{\"data\":{\"a\":1}}")), Ok(()));
    assert_eq!(accumulator.phase(), Phase::Done);
    assert_eq!(
        rendered(accumulator.result.as_ref().unwrap()),
        expected("{\"data\":{\"a\":1},\"errors\":[],\"complete\":true}")
    );
}

#[test]
fn nothing_is_accepted_once_done() {
    let mut accumulator = Accumulator::new();
    accumulator.accept(&terminal("{\"data\":{\"a\":1}}")).unwrap();
    let held = rendered(accumulator.result.as_ref().unwrap());
    assert_eq!(accumulator.accept(&in_progress("{\"data\":{\"b\":2},\"hasNext\":true}")), Ok(()));
    assert_eq!(accumulator.accept(&in_progress("not json")), Ok(()));
    assert_eq!(rendered(accumulator.result.as_ref().unwrap()), held);
    accumulator.finish();
    assert_eq!(rendered(accumulator.result.as_ref().unwrap()), held);
}

#[test]
fn a_frame_that_does_not_decode_is_skipped() {
    let mut accumulator = Accumulator::new();
    accumulator.accept(&in_progress("{\"data\":{\"a\":1},\"hasNext\":true}")).unwrap();
    assert_eq!(
        accumulator.accept(&in_progress("{\"oops\"")),
        Err(ConsumeError::Decode(DecodeError { text: b"{\"oops\"".to_vec() }))
    );
    assert_eq!(accumulator.phase(), Phase::Streaming);
    assert_eq!(
        accumulator.accept(&in_progress(
            "{\"hasNext\":true,\"incremental\":[{\"data\":{\"b\":2},\"path\":[]}]}"
        )),
        Ok(())
    );
    assert_eq!(
        to_json(&accumulator.result.as_ref().unwrap().data),
        expected("{\"a\":1,\"b\":2}")
    );
}

#[test]
fn a_terminal_frame_that_does_not_decode_still_ends_the_accumulation() {
    let mut accumulator = Accumulator::new();
    accumulator.accept(&in_progress("{\"data\":{\"a\":1},\"hasNext\":true}")).unwrap();
    assert!(accumulator.accept(&terminal("garbage")).is_err());
    assert_eq!(accumulator.phase(), Phase::Done);
    assert!(!accumulator.result.as_ref().unwrap().has_next);
}

#[test]
fn a_patch_before_the_initial_result_is_skipped() {
    let mut accumulator = Accumulator::new();
    assert_eq!(
        accumulator.accept(&in_progress("{\"hasNext\":true,\"incremental\":[]}")),
        Err(ConsumeError::PatchBeforeInitial)
    );
    assert_eq!(accumulator.phase(), Phase::AwaitingInitial);
    accumulator.finish();
    assert_eq!(accumulator.phase(), Phase::Done);
    assert_eq!(accumulator.result, None);
}

#[test]
fn a_later_initial_result_takes_the_place_of_the_one_held() {
    let mut accumulator = Accumulator::new();
    accumulator.accept(&in_progress("{\"data\":{\"a\":1},\"hasNext\":true}")).unwrap();
    accumulator.accept(&in_progress("{\"data\":{\"b\":2},\"hasNext\":true}")).unwrap();
    assert_eq!(to_json(&accumulator.result.as_ref().unwrap().data), expected("{\"b\":2}"));
}

#[test]
fn consumer_takes_an_event_stream_cut_anywhere() {
    let body = "event: next\ndata: {\"data\":{\"fastField\":1},\"hasNext\":true}\n\nevent: next\ndata: {\"hasNext\":false,\"incremental\":[{\"data\":{\"slowField\":2},\"path\":[]}]}\n\nevent: complete\n\n";
    let whole = expected("{\"data\":{\"fastField\":1,\"slowField\":2},\"errors\":[],\"complete\":true}");
    for size in [1, 2, 3, 7, 16, 64, body.len()] {
        let mut consumer = Consumer::new("text/event-stream").unwrap();
        for chunk in body.as_bytes().chunks(size) {
            assert_eq!(consumer.feed(chunk), vec![]);
        }
        assert_eq!(consumer.finish(), vec![]);
        assert_eq!(consumer.accumulator.phase(), Phase::Done);
        assert_eq!(rendered(consumer.result().unwrap()), whole);
    }
}

#[test]
fn consumer_is_done_with_the_complete_event() {
    let mut consumer = Consumer::new("text/event-stream").unwrap();
    assert_eq!(
        consumer.feed(b"event: next\ndata: {\"data\":{\"a\":1},\"hasNext\":true}\n\nevent: complete\n\n"),
        vec![]
    );
    assert_eq!(consumer.accumulator.phase(), Phase::Done);
    assert!(consumer.framer.closed);
    assert_eq!(
        rendered(consumer.result().unwrap()),
        expected("{\"data\":{\"a\":1},\"errors\":[],\"complete\":true}")
    );
    assert_eq!(
        consumer.feed(b"event: next\ndata: {\"data\":{\"b\":2},\"hasNext\":true}\n\n"),
        vec![]
    );
    assert_eq!(consumer.finish(), vec![]);
    assert_eq!(
        rendered(consumer.result().unwrap()),
        expected("{\"data\":{\"a\":1},\"errors\":[],\"complete\":true}")
    );
}

#[test]
fn consumer_takes_a_multipart_body_cut_anywhere() {
    let body = "\r\n---\r\nContent-Type: application/json; charset=utf-8\r\n\r\n{\"data\":{\"alphabet\":[]},\"hasNext\":true}\r\n---\r\nContent-Type: application/json; charset=utf-8\r\n\r\n{\"hasNext\":true,\"incremental\":[{\"items\":[\"a\"],\"path\":[\"alphabet\",0]}]}\r\n---\r\nContent-Type: application/json; charset=utf-8\r\n\r\n{\"hasNext\":false,\"incremental\":[{\"items\":[\"b\",\"c\"],\"path\":[\"alphabet\",1]}]}\r\n-----\r\n";
    let whole = expected("{\"data\":{\"alphabet\":[\"a\",\"b\",\"c\"]},\"errors\":[],\"complete\":true}");
    for size in [1, 2, 5, 33, body.len()] {
        let mut consumer = Consumer::new("multipart/mixed; boundary=\"-\"").unwrap();
        for chunk in body.as_bytes().chunks(size) {
            assert_eq!(consumer.feed(chunk), vec![]);
        }
        assert_eq!(consumer.finish(), vec![]);
        assert_eq!(rendered(consumer.result().unwrap()), whole);
    }
}

#[test]
fn consumer_takes_a_single_json_body_at_the_end() {
    let mut consumer = Consumer::new("application/json").unwrap();
    assert_eq!(consumer.feed(b"{\"data\":{\"a\""), vec![]);
    assert_eq!(consumer.result(), None);
    assert_eq!(consumer.feed(b":1}}"), vec![]);
    assert_eq!(consumer.result(), None);
    assert_eq!(consumer.finish(), vec![]);
    assert_eq!(consumer.accumulator.phase(), Phase::Done);
    assert_eq!(
        rendered(consumer.result().unwrap()),
        expected("{\"data\":{\"a\":1},\"errors\":[],\"complete\":true}")
    );
}

#[test]
fn consumer_skips_what_is_malformed_and_goes_on() {
    let mut consumer = Consumer::with_framer(Framer::with_encoding(Encoding::EventStream, Vec::new()));
    let skipped = consumer.feed(
        b"event: next\n\nevent: next\ndata: {\"data\":{\"a\":1},\"hasNext\":true}\n\nevent: next\ndata: nonsense\n\nevent: next\ndata: {\"hasNext\":true,\"incremental\":[{\"data\":{\"b\":2},\"path\":[\"zzz\"]}]}\n\nevent: ne",
    );
    assert_eq!(
        skipped,
        vec![
            ConsumeError::Framing(FramingError::MissingData),
            ConsumeError::Decode(DecodeError { text: b"nonsense".to_vec() }),
        ]
    );
    assert_eq!(consumer.finish(), vec![ConsumeError::Framing(FramingError::Unterminated)]);
    let result = consumer.result().unwrap();
    assert_eq!(to_json(&result.data), expected("{\"a\":1}"));
    assert_eq!(result.errors.len(), 1);
    assert_eq!(
        to_json(&result.errors[0]),
        expected("{\"message\":\"the path of an incremental payload does not resolve\",\"path\":[\"zzz\"]}")
    );
    assert!(!result.has_next);
}

#[test]
fn consumer_for_a_multipart_body_needs_a_boundary() {
    assert_eq!(Consumer::new("multipart/mixed").err(), Some(FramingError::MissingBoundary));
}

#[test]
fn consumer_without_any_frame_ends_without_a_result() {
    let mut consumer = Consumer::new("text/event-stream").unwrap();
    assert_eq!(consumer.feed(b""), vec![]);
    assert_eq!(consumer.finish(), vec![]);
    assert_eq!(consumer.result(), None);
    assert_eq!(consumer.accumulator.phase(), Phase::Done);
}

#[test]
fn parse_document_and_back_agree_with_serde_json() {
    let text = "{\"a\":[1,-2,3.5,1e30,\"s\",null,true,{\"k\":{}}]}";
    let doc = parse_document(text.as_bytes()).unwrap();
    assert_eq!(to_json(&doc), expected(text));
}
