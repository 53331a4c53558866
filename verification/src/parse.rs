//! Frames: what one unit of a response body says, in each of the three
//! encodings.

use crate::scan::{
    find, find_line, first_at, first_line, occurs_at, stands_at, trim_end, trimmed,
};
use vstd::prelude::*;
use vstd::slice::{slice_subrange, slice_to_vec};
use vstd::string::StringSliceAdditionalSpecFns;
use vstd::utf8::encode_utf8;

verus! {

broadcast use vstd::slice::group_slice_axioms;

/// Whether a frame closes the stream.
#[derive(Debug, PartialEq, Eq, Clone, Copy)]
pub enum StreamState {
    Final,
    InProgress,
}

/// A frame as a mathematical value: its payload text, and whether it is the
/// terminal frame of the stream.
pub struct Frame {
    pub text: Seq<u8>,
    pub terminal: bool,
}

/// A frame: its payload text and its state.
#[derive(Debug, PartialEq, Eq)]
pub struct StreamedChunk {
    pub state: StreamState,
    pub payload: Vec<u8>,
}

impl View for StreamedChunk {
    type V = Frame;

    open spec fn view(&self) -> Frame {
        Frame { text: self.payload@, terminal: self.state is Final }
    }
}

/// Why a unit of the body is no frame.
#[derive(Debug, PartialEq, Eq, Clone, Copy)]
pub enum FramingError {
    /// The media type names no boundary.
    MissingBoundary,
    /// An event has the line `event: next` and no later line that begins with
    /// `data: `.
    MissingData,
    /// The data line of an event is not closed by a blank line.
    UnterminatedData,
    /// A multipart unit holds no boundary marker.
    MissingDelimiter,
    /// The body ended inside a frame.
    Unterminated,
}

/// The line that announces a payload in an event stream. It counts only as a
/// whole line.
pub open spec fn event_marker() -> Seq<u8> {
    "event: next".spec_bytes()
}

/// The start of the data line of an event. It counts only at the start of a
/// line.
pub open spec fn data_marker() -> Seq<u8> {
    "data: ".spec_bytes()
}

/// The blank line that closes an event.
pub open spec fn blank_line() -> Seq<u8> {
    "\n\n".spec_bytes()
}

/// The blank line between the headers of a part and its body.
pub open spec fn part_separator() -> Seq<u8> {
    "\r\n\r\n".spec_bytes()
}

/// The two dashes that open a boundary marker and, after it, close the body.
pub open spec fn dashes() -> Seq<u8> {
    "--".spec_bytes()
}

/// The terminal frame without payload.
pub open spec fn closing_frame() -> Frame {
    Frame { text: Seq::empty(), terminal: true }
}

/// The frame of one event.
///
/// An event none of whose lines is `event: next` is terminal and has no
/// payload, whatever its lines hold. One with such a line carries, as its
/// payload, what follows `data: ` at the start of the first later line that
/// begins so, up to the next blank line; without such a data line, or without
/// a blank line after it, the event is malformed.
pub open spec fn event_frame(chunk: Seq<u8>) -> Result<Frame, FramingError> {
    match first_line(chunk, event_marker(), 0, true) {
        None => Ok(closing_frame()),
        Some(event) => match first_line(
            chunk,
            data_marker(),
            event + event_marker().len() + 1,
            false,
        ) {
            None => Err(FramingError::MissingData),
            Some(data) => {
                let start = data + data_marker().len();
                match first_at(chunk, blank_line(), start) {
                    None => Err(FramingError::UnterminatedData),
                    Some(end) => Ok(Frame { text: chunk.subrange(start, end), terminal: false }),
                }
            },
        },
    }
}

/// The frame of one multipart unit, for a boundary marker `delimiter`.
///
/// What stands before the first marker is left aside. A marker followed by two
/// dashes closes the body: the frame is terminal and has no payload. After any
/// other marker come the headers of a part, a blank line, and the body of the
/// part, which ends at the next marker or with the unit and gives the payload
/// once its trailing white space is cut; a part without that blank line has no
/// payload. A unit without a marker is malformed.
pub open spec fn multipart_frame(chunk: Seq<u8>, delimiter: Seq<u8>) -> Result<
    Frame,
    FramingError,
> {
    match first_at(chunk, delimiter, 0) {
        None => Err(FramingError::MissingDelimiter),
        Some(marker) => {
            let after = marker + delimiter.len();
            if occurs_at(chunk, dashes(), after) {
                Ok(closing_frame())
            } else {
                match first_at(chunk, part_separator(), after) {
                    None => Ok(Frame { text: Seq::empty(), terminal: false }),
                    Some(separator) => {
                        let body = separator + part_separator().len();
                        let end = match first_at(chunk, delimiter, body) {
                            Some(next) => next,
                            None => chunk.len() as int,
                        };
                        Ok(Frame { text: trim_end(chunk.subrange(body, end)), terminal: false })
                    },
                }
            }
        },
    }
}

/// The frame of a body that is one JSON text: terminal, with the body as its
/// payload.
pub open spec fn json_frame(chunk: Seq<u8>) -> Frame {
    Frame { text: chunk, terminal: true }
}

/// A frame read by one of the functions below agrees with what the encoding
/// prescribes.
pub open spec fn reads_as(r: Result<StreamedChunk, FramingError>, frame: Result<Frame, FramingError>) -> bool {
    match frame {
        Ok(f) => r is Ok && r->Ok_0@ == f,
        Err(e) => r is Err && r->Err_0 == e,
    }
}

/// Reads one event of an event stream.
pub fn parse_text_event_stream_chunk(chunk: &[u8]) -> (r: Result<StreamedChunk, FramingError>)
    ensures
        reads_as(r, event_frame(chunk@)),
{
    assert(chunk.len() == chunk@.len());
    let event_line = "event: next".as_bytes();
    let data_line = "data: ".as_bytes();
    let blank = "\n\n".as_bytes();
    match find_line(chunk, event_line, 0, true) {
        None => Ok(StreamedChunk { state: StreamState::Final, payload: Vec::new() }),
        Some(event) => match find_line(chunk, data_line, event + event_line.len() + 1, false) {
            None => Err(FramingError::MissingData),
            Some(data) => {
                let start = data + data_line.len();
                match find(chunk, blank, start) {
                    None => Err(FramingError::UnterminatedData),
                    Some(end) => Ok(
                        StreamedChunk {
                            state: StreamState::InProgress,
                            payload: slice_to_vec(slice_subrange(chunk, start, end)),
                        },
                    ),
                }
            },
        },
    }
}

/// Reads one unit of a multipart body, for a boundary marker `delimiter`.
pub fn parse_multipart_part(chunk: &[u8], delimiter: &[u8]) -> (r: Result<
    StreamedChunk,
    FramingError,
>)
    ensures
        reads_as(r, multipart_frame(chunk@, delimiter@)),
{
    assert(chunk.len() == chunk@.len());
    let two_dashes = "--".as_bytes();
    let separator_line = "\r\n\r\n".as_bytes();
    match find(chunk, delimiter, 0) {
        None => Err(FramingError::MissingDelimiter),
        Some(marker) => {
            let after = marker + delimiter.len();
            if stands_at(chunk, two_dashes, after) {
                Ok(StreamedChunk { state: StreamState::Final, payload: Vec::new() })
            } else {
                match find(chunk, separator_line, after) {
                    None => Ok(
                        StreamedChunk { state: StreamState::InProgress, payload: Vec::new() },
                    ),
                    Some(separator) => {
                        let body = separator + separator_line.len();
                        let end = match find(chunk, delimiter, body) {
                            Some(next) => next,
                            None => chunk.len(),
                        };
                        Ok(
                            StreamedChunk {
                                state: StreamState::InProgress,
                                payload: slice_to_vec(trimmed(slice_subrange(chunk, body, end))),
                            },
                        )
                    },
                }
            }
        },
    }
}

/// Reads a body that is one JSON text.
pub fn parse_application_json_chunk(chunk: &[u8]) -> (r: StreamedChunk)
    ensures
        r@ == json_frame(chunk@),
{
    StreamedChunk { state: StreamState::Final, payload: slice_to_vec(chunk) }
}

/// `regex::Error`, carried through as it is.
#[verifier::external_type_specification]
#[verifier::external_body]
pub struct ExRegexError(regex::Error);

/// What the `regex` crate captures: `None` where it refuses the pattern;
/// otherwise the text of the numbered group in the leftmost match of the
/// pattern in `text`, or `None` inside where there is no match or the group
/// took no part in it.
pub uninterp spec fn regex_capture(pattern: Seq<char>, text: Seq<char>, group: nat) -> Option<
    Option<Seq<char>>,
>;

/// Compiles `pattern` with `regex::Regex::new`, searches `text` with
/// `Regex::captures`, and takes the numbered group with `Captures::get` and
/// `Match::as_str`. The contract says that the outcome is the one named by
/// `regex_capture` for these arguments.
#[verifier::external_body]
fn capture(pattern: &str, text: &str, group: usize) -> (r: Result<Option<String>, regex::Error>)
    ensures
        match r {
            Ok(Some(found)) => regex_capture(pattern@, text@, group as nat) == Some(Some(found@)),
            Ok(None) => regex_capture(pattern@, text@, group as nat) == Some(None::<Seq<char>>),
            Err(_) => regex_capture(pattern@, text@, group as nat) is None,
        },
{
    let re = regex::Regex::new(pattern)?;
    Ok(re.captures(text).and_then(|c| c.get(group)).map(|m| m.as_str().to_string()))
}

/// The pattern of the boundary parameter of a media type: `boundary=`, then the
/// token, quoted or not.
pub open spec fn boundary_pattern() -> Seq<char> {
    "boundary=\"?([^=\";]+)\"?"@
}

/// The boundary token that a media type names, if it names one.
pub open spec fn boundary_of(content_type: Seq<char>) -> Option<Seq<char>> {
    match regex_capture(boundary_pattern(), content_type, 1) {
        Some(Some(token)) => Some(token),
        _ => None,
    }
}

/// The boundary marker of a token: two dashes and the token.
pub open spec fn delimiter_of(boundary: Seq<char>) -> Seq<u8> {
    dashes() + encode_utf8(boundary)
}

/// Takes the boundary token out of a media type.
pub fn boundary(content_type: &str) -> (r: Result<String, FramingError>)
    ensures
        match boundary_of(content_type@) {
            Some(token) => r is Ok && r->Ok_0@ == token,
            None => r is Err && r->Err_0 == FramingError::MissingBoundary,
        },
{
    match capture("boundary=\"?([^=\";]+)\"?", content_type, 1) {
        Ok(Some(token)) => Ok(token),
        Ok(None) => Err(FramingError::MissingBoundary),
        Err(_) => Err(FramingError::MissingBoundary),
    }
}

/// Builds the boundary marker of a token.
pub fn delimiter(boundary: &str) -> (d: Vec<u8>)
    ensures
        d@ == delimiter_of(boundary@),
{
    let mut d = slice_to_vec("--".as_bytes());
    d.extend_from_slice(boundary.as_bytes());
    assert(d@ =~= delimiter_of(boundary@));
    d
}

/// The frame of one multipart unit, for the boundary that the media type
/// names; without a boundary there is no frame.
pub open spec fn multipart_frame_for(chunk: Seq<u8>, content_type: Seq<char>) -> Result<
    Frame,
    FramingError,
> {
    match boundary_of(content_type) {
        Some(token) => multipart_frame(chunk, delimiter_of(token)),
        None => Err(FramingError::MissingBoundary),
    }
}

/// Reads one unit of a multipart body, for the boundary that the media type
/// names.
pub fn parse_multipart_stream_chunk(chunk: &[u8], content_type: &str) -> (r: Result<
    StreamedChunk,
    FramingError,
>)
    ensures
        reads_as(r, multipart_frame_for(chunk@, content_type@)),
{
    match boundary(content_type) {
        Ok(token) => {
            let marker = delimiter(token.as_str());
            parse_multipart_part(chunk, marker.as_slice())
        },
        Err(error) => Err(error),
    }
}

} // verus!
