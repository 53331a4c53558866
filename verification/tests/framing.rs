use incremental_consumer::framer::{select_encoding, Encoding, Framer};
use incremental_consumer::parse::{
    boundary, delimiter, parse_application_json_chunk, parse_multipart_part,
    parse_multipart_stream_chunk, parse_text_event_stream_chunk, FramingError, StreamState,
    StreamedChunk,
};
use incremental_consumer::scan::{find, find_line, stands_at, trimmed};

fn frame(state: StreamState, payload: &[u8]) -> StreamedChunk {
    StreamedChunk { state, payload: payload.to_vec() }
}

#[test]
fn find_gives_the_first_occurrence_at_or_after_the_start() {
    assert_eq!(find(b"abcabc", b"bc", 0), Some(1));
    assert_eq!(find(b"abcabc", b"bc", 1), Some(1));
    assert_eq!(find(b"abcabc", b"bc", 2), Some(4));
    assert_eq!(find(b"abcabc", b"bc", 5), None);
    assert_eq!(find(b"abcabc", b"x", 0), None);
    assert_eq!(find(b"abc", b"abcd", 0), None);
    assert_eq!(find(b"abc", b"", 3), Some(3));
    assert_eq!(find(b"abc", b"", 4), None);
}

#[test]
fn stands_at_checks_one_place() {
    assert!(stands_at(b"hello", b"ll", 2));
    assert!(!stands_at(b"hello", b"ll", 3));
    assert!(!stands_at(b"hello", b"lo!", 3));
    assert!(!stands_at(b"hello", b"o", 9));
}

#[test]
fn trimmed_cuts_trailing_white_space_only() {
    assert_eq!(trimmed(b"  a b \t\r\n"), b"  a b");
    assert_eq!(trimmed(b"\r\n"), b"");
    assert_eq!(trimmed(b""), b"");
    assert_eq!(trimmed(b"x"), b"x");
}

#[test]
fn event_stream_next_frame_carries_its_data() {
    let input = b"event: next\ndata: {\"data\":{\"x\":1},\"hasNext\":true}\n\n";
    let chunk = parse_text_event_stream_chunk(input).unwrap();
    assert_eq!(chunk.state, StreamState::InProgress);
    assert_eq!(chunk.payload, b"{\"data\":{\"x\":1},\"hasNext\":true}".to_vec());
}

#[test]
fn event_stream_complete_frame_is_terminal_and_empty() {
    let chunk = parse_text_event_stream_chunk(b"event: complete\n\n").unwrap();
    assert_eq!(chunk, frame(StreamState::Final, b""));
}

#[test]
fn event_stream_keep_alive_has_no_payload() {
    let chunk = parse_text_event_stream_chunk(b": ping\n\n").unwrap();
    assert_eq!(chunk, frame(StreamState::Final, b""));
}

#[test]
fn event_stream_payload_ends_at_the_first_blank_line() {
    let chunk = parse_text_event_stream_chunk(b"event: next\ndata: one\n\ndata: two\n\n").unwrap();
    assert_eq!(chunk, frame(StreamState::InProgress, b"one"));
}

#[test]
fn event_stream_data_is_sought_after_the_event_line() {
    let chunk = parse_text_event_stream_chunk(b"data: old\nevent: next\ndata: new\n\n").unwrap();
    assert_eq!(chunk, frame(StreamState::InProgress, b"new"));
}

#[test]
fn event_marker_counts_only_as_a_whole_line() {
    for input in [
        &b"data: event: next\n\n"[..],
        b"event: complete\ndata: event: next\n\n",
        b"xevent: next\ndata: y\n\n",
        b" event: next\ndata: y\n\n",
        b"event: nextish\ndata: y\n\n",
        b"event: next",
        b"id: 1\nevent: next",
    ] {
        assert_eq!(parse_text_event_stream_chunk(input), Ok(frame(StreamState::Final, b"")));
    }
    assert_eq!(
        parse_text_event_stream_chunk(b"id: 1\nevent: next\ndata: y\n\n"),
        Ok(frame(StreamState::InProgress, b"y"))
    );
}

#[test]
fn data_marker_counts_only_at_the_start_of_a_later_line() {
    assert_eq!(
        parse_text_event_stream_chunk(b"event: next\nid: data: x\n\n"),
        Err(FramingError::MissingData)
    );
    assert_eq!(
        parse_text_event_stream_chunk(b"data: x\nevent: next\n\n"),
        Err(FramingError::MissingData)
    );
    assert_eq!(
        parse_text_event_stream_chunk(b"event: next\nid: data: x\ndata: y\n\n"),
        Ok(frame(StreamState::InProgress, b"y"))
    );
    assert_eq!(
        parse_text_event_stream_chunk(b"event: next\ndata: data: z\n\n"),
        Ok(frame(StreamState::InProgress, b"data: z"))
    );
}

#[test]
fn find_line_looks_at_line_starts_only() {
    assert_eq!(find_line(b"ab\nab\n", b"ab", 0, true), Some(0));
    assert_eq!(find_line(b"ab\nab\n", b"ab", 1, true), Some(3));
    assert_eq!(find_line(b"xab\nabc\nab", b"ab", 0, false), Some(4));
    assert_eq!(find_line(b"xab\nabc\nab", b"ab", 0, true), None);
    assert_eq!(find_line(b"xab\nabc\nab", b"ab", 5, false), Some(8));
    assert_eq!(find_line(b"", b"ab", 0, false), None);
    assert_eq!(find_line(b"ab", b"ab", 3, false), None);
}

#[test]
fn event_without_data_line_is_malformed() {
    assert_eq!(
        parse_text_event_stream_chunk(b"event: next\n\n"),
        Err(FramingError::MissingData)
    );
}

#[test]
fn event_without_blank_line_is_malformed() {
    assert_eq!(
        parse_text_event_stream_chunk(b"event: next\ndata: {\"a\":1}\n"),
        Err(FramingError::UnterminatedData)
    );
}

#[test]
fn json_body_is_one_terminal_frame() {
    let chunk = parse_application_json_chunk(b"{\"data\":null}");
    assert_eq!(chunk, frame(StreamState::Final, b"{\"data\":null}"));
}

#[test]
fn boundary_is_read_quoted_and_unquoted() {
    assert_eq!(boundary("multipart/mixed; boundary=graphql"), Ok("graphql".to_string()));
    assert_eq!(boundary("multipart/mixed; boundary=\"-\""), Ok("-".to_string()));
    assert_eq!(
        boundary("multipart/mixed; boundary=abc; charset=utf-8"),
        Ok("abc".to_string())
    );
}

#[test]
fn boundary_is_not_the_media_type_itself() {
    let found = boundary("multipart/mixed; boundary=graphql").unwrap();
    assert_ne!(found, "multipart/mixed; boundary=graphql");
    assert_ne!(found, "boundary=\"?([^=\";]+)\"?");
}

#[test]
fn missing_boundary_is_an_error() {
    assert_eq!(boundary("multipart/mixed"), Err(FramingError::MissingBoundary));
    assert_eq!(boundary("multipart/mixed; boundary="), Err(FramingError::MissingBoundary));
    assert_eq!(
        parse_multipart_stream_chunk(b"--x\r\n\r\n{}", "multipart/mixed"),
        Err(FramingError::MissingBoundary)
    );
}

#[test]
fn delimiter_is_two_dashes_and_the_token() {
    assert_eq!(delimiter("graphql"), b"--graphql".to_vec());
    assert_eq!(delimiter("-"), b"---".to_vec());
}

#[test]
fn multipart_part_gives_its_body() {
    let chunk = b"\r\n--graphql\r\nContent-Type: application/json\r\n\r\n{\"hasNext\":true}\r\n";
    let parsed = parse_multipart_stream_chunk(chunk, "multipart/mixed; boundary=\"graphql\"");
    assert_eq!(parsed, Ok(frame(StreamState::InProgress, b"{\"hasNext\":true}")));
}

#[test]
fn multipart_body_ends_at_the_next_marker() {
    let chunk = b"preamble--b\r\nA: 1\r\n\r\n{\"a\":-1}\r\n--b\r\nA: 1\r\n\r\n{\"b\":2}\r\n--b--";
    assert_eq!(
        parse_multipart_part(chunk, b"--b"),
        Ok(frame(StreamState::InProgress, b"{\"a\":-1}"))
    );
}

#[test]
fn multipart_close_marker_is_terminal_and_empty() {
    assert_eq!(
        parse_multipart_stream_chunk(b"\r\n--graphql--\r\n", "multipart/mixed; boundary=graphql"),
        Ok(frame(StreamState::Final, b""))
    );
}

#[test]
fn multipart_part_without_blank_line_has_no_payload() {
    assert_eq!(
        parse_multipart_part(b"--b\r\nContent-Type: application/json\r\n", b"--b"),
        Ok(frame(StreamState::InProgress, b""))
    );
}

#[test]
fn multipart_unit_without_marker_is_malformed() {
    assert_eq!(
        parse_multipart_part(b"Content-Type: x\r\n\r\n{}", b"--b"),
        Err(FramingError::MissingDelimiter)
    );
}

#[test]
fn encoding_is_selected_by_the_media_type() {
    assert_eq!(select_encoding("text/event-stream; charset=utf-8"), Encoding::EventStream);
    assert_eq!(select_encoding("multipart/mixed; boundary=\"-\""), Encoding::Multipart);
    assert_eq!(select_encoding("application/json"), Encoding::SingleJson);
    assert_eq!(select_encoding(""), Encoding::SingleJson);
}

#[test]
fn framer_for_multipart_needs_a_boundary() {
    assert_eq!(Framer::new("multipart/mixed"), Err(FramingError::MissingBoundary));
    let framer = Framer::new("multipart/mixed; boundary=graphql").unwrap();
    assert_eq!(framer.encoding, Encoding::Multipart);
    assert_eq!(framer.delimiter, b"--graphql".to_vec());
    assert!(framer.buffer.is_empty());
    assert!(!framer.closed);
}

#[test]
fn framer_waits_for_the_end_of_an_event() {
    let mut framer = Framer::new("text/event-stream").unwrap();
    framer.push(b"event: next\nda");
    assert_eq!(framer.next_frame(), None);
    framer.push(b"ta: {\"a\":1}\n");
    assert_eq!(framer.next_frame(), None);
    framer.push(b"\nevent: comp");
    assert_eq!(framer.next_frame(), Some(Ok(frame(StreamState::InProgress, b"{\"a\":1}"))));
    assert_eq!(framer.buffer, b"event: comp".to_vec());
    assert_eq!(framer.next_frame(), None);
    framer.push(b"lete\n\n");
    assert_eq!(framer.next_frame(), Some(Ok(frame(StreamState::Final, b""))));
    assert_eq!(framer.next_frame(), None);
    assert!(framer.buffer.is_empty());
}

#[test]
fn framer_hands_out_several_events_of_one_chunk_in_order() {
    let mut framer = Framer::with_encoding(Encoding::EventStream, Vec::new());
    framer.push(b"event: next\ndata: 1\n\nevent: next\ndata: 2\n\n");
    assert_eq!(framer.next_frame(), Some(Ok(frame(StreamState::InProgress, b"1"))));
    assert_eq!(framer.next_frame(), Some(Ok(frame(StreamState::InProgress, b"2"))));
    assert_eq!(framer.next_frame(), None);
}

#[test]
fn framer_goes_on_after_a_malformed_event() {
    let mut framer = Framer::new("text/event-stream").unwrap();
    framer.push(b"event: next\n\nevent: next\ndata: ok\n\n");
    assert_eq!(framer.next_frame(), Some(Err(FramingError::MissingData)));
    assert_eq!(framer.next_frame(), Some(Ok(frame(StreamState::InProgress, b"ok"))));
    assert_eq!(framer.next_frame(), None);
}

#[test]
fn framer_cuts_multipart_parts_at_their_markers() {
    let mut framer = Framer::new("multipart/mixed; boundary=\"-\"").unwrap();
    framer.push(b"preamble\r\n---\r\nContent-Type: application/json\r\n\r\n{\"a\":1}\r\n--");
    assert_eq!(framer.next_frame(), None);
    framer.push(b"-\r\nContent-Type: application/json\r\n\r\n{\"b\":2}\r\n-----\r\n");
    assert_eq!(framer.next_frame(), Some(Ok(frame(StreamState::InProgress, b"{\"a\":1}"))));
    assert_eq!(framer.next_frame(), Some(Ok(frame(StreamState::InProgress, b"{\"b\":2}"))));
    assert_eq!(framer.next_frame(), Some(Ok(frame(StreamState::Final, b""))));
    assert!(framer.closed);
    assert_eq!(framer.next_frame(), None);
    framer.push(b"epilogue");
    assert!(framer.buffer.is_empty());
    assert_eq!(framer.finish(), None);
}

#[test]
fn framer_waits_for_two_bytes_after_a_marker() {
    let mut framer = Framer::with_encoding(Encoding::Multipart, b"--b".to_vec());
    framer.push(b"--b-");
    assert_eq!(framer.next_frame(), None);
    framer.push(b"-");
    assert_eq!(framer.next_frame(), Some(Ok(frame(StreamState::Final, b""))));
}

#[test]
fn framer_without_delimiter_hands_out_nothing() {
    let mut framer = Framer::with_encoding(Encoding::Multipart, Vec::new());
    framer.push(b"--b\r\n\r\n{}\r\n--b--");
    assert_eq!(framer.next_frame(), None);
}

#[test]
fn framer_gives_a_json_body_at_the_end() {
    let mut framer = Framer::new("application/json; charset=utf-8").unwrap();
    framer.push(b"{\"data\":");
    assert_eq!(framer.next_frame(), None);
    framer.push(b"{\"a\":1}}");
    assert_eq!(framer.next_frame(), None);
    assert_eq!(framer.finish(), Some(Ok(frame(StreamState::Final, b"{\"data\":{\"a\":1}}"))));
    assert!(framer.closed);
    assert!(framer.buffer.is_empty());
    assert_eq!(framer.finish(), None);
}

#[test]
fn framer_reports_a_body_that_ends_inside_a_frame() {
    let mut framer = Framer::new("text/event-stream").unwrap();
    framer.push(b"event: next\ndata: {\"a\"");
    assert_eq!(framer.next_frame(), None);
    assert_eq!(framer.finish(), Some(Err(FramingError::Unterminated)));
    assert!(framer.closed);
}

#[test]
fn framer_closes_with_a_terminal_event() {
    let mut framer = Framer::new("text/event-stream").unwrap();
    framer.push(b"event: next\ndata: 1\n\nevent: complete\n\nevent: next\ndata: 2\n\n");
    assert_eq!(framer.next_frame(), Some(Ok(frame(StreamState::InProgress, b"1"))));
    assert!(!framer.closed);
    assert_eq!(framer.next_frame(), Some(Ok(frame(StreamState::Final, b""))));
    assert!(framer.closed);
    assert!(framer.buffer.is_empty());
    assert_eq!(framer.next_frame(), None);
    framer.push(b"event: next\ndata: 3\n\n");
    assert_eq!(framer.next_frame(), None);
    assert_eq!(framer.finish(), None);
}

#[test]
fn framer_ends_quietly_on_trailing_white_space() {
    let mut framer = Framer::new("text/event-stream").unwrap();
    framer.push(b"event: complete\n\n\n");
    assert_eq!(framer.next_frame(), Some(Ok(frame(StreamState::Final, b""))));
    assert_eq!(framer.finish(), None);
}
