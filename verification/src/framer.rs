//! The framer: it keeps what has arrived of the body and hands out each frame
//! once the frame is complete.

use crate::parse::{
    blank_line, boundary, boundary_of, dashes, delimiter, delimiter_of, event_frame, json_frame,
    multipart_frame, parse_application_json_chunk, parse_multipart_part,
    parse_text_event_stream_chunk, reads_as, Frame, FramingError, StreamState, StreamedChunk,
};
use crate::scan::{
    find, first_at, lemma_first_at, lemma_trimmed_len, occurs_at, stands_at, trimmed, trimmed_len,
};
use vstd::prelude::*;
use vstd::slice::{slice_subrange, slice_to_vec};
use vstd::string::StringSliceAdditionalSpecFns;
use vstd::utf8::{encode_utf8, is_ascii_chars_encode_utf8};

verus! {

broadcast use vstd::slice::group_slice_axioms;

/// How the body of a response is cut into frames.
#[derive(Debug, PartialEq, Eq, Clone, Copy)]
pub enum Encoding {
    /// Events, each closed by a blank line.
    EventStream,
    /// Parts, each opened by a boundary marker.
    Multipart,
    /// One JSON text.
    SingleJson,
}

/// A framer as a mathematical value.
pub struct FramerModel {
    pub encoding: Encoding,
    pub delimiter: Seq<u8>,
    pub buffer: Seq<u8>,
    pub closed: bool,
}

/// The framer of one response.
#[derive(Debug, PartialEq, Eq)]
pub struct Framer {
    pub encoding: Encoding,
    /// The boundary marker of a multipart body; empty for the other encodings.
    pub delimiter: Vec<u8>,
    /// What has arrived and belongs to no frame handed out yet.
    pub buffer: Vec<u8>,
    /// The body is over: nothing more is taken in or handed out.
    pub closed: bool,
}

impl View for Framer {
    type V = FramerModel;

    open spec fn view(&self) -> FramerModel {
        FramerModel {
            encoding: self.encoding,
            delimiter: self.delimiter@,
            buffer: self.buffer@,
            closed: self.closed,
        }
    }
}

/// The media type mentions `name`.
pub open spec fn mentions(content_type: Seq<char>, name: Seq<u8>) -> bool {
    first_at(encode_utf8(content_type), name, 0) is Some
}

/// The encoding that a media type declares: an event stream or a multipart
/// body where it mentions one, a single JSON text otherwise.
pub open spec fn encoding_of(content_type: Seq<char>) -> Encoding {
    if mentions(content_type, "text/event-stream".spec_bytes()) {
        Encoding::EventStream
    } else if mentions(content_type, "multipart/mixed".spec_bytes()) {
        Encoding::Multipart
    } else {
        Encoding::SingleJson
    }
}

/// A framer that has taken in nothing yet.
pub open spec fn fresh(encoding: Encoding, delimiter: Seq<u8>) -> FramerModel {
    FramerModel { encoding, delimiter, buffer: Seq::empty(), closed: false }
}

/// The framer for a media type. A multipart body needs a boundary.
pub open spec fn framer_for(content_type: Seq<char>) -> Result<FramerModel, FramingError> {
    match encoding_of(content_type) {
        Encoding::Multipart => match boundary_of(content_type) {
            Some(token) => Ok(fresh(Encoding::Multipart, delimiter_of(token))),
            None => Err(FramingError::MissingBoundary),
        },
        other => Ok(fresh(other, Seq::empty())),
    }
}

/// The framer after more of the body arrived. A closed framer takes nothing.
pub open spec fn pushed(framer: FramerModel, chunk: Seq<u8>) -> FramerModel {
    if framer.closed {
        framer
    } else {
        FramerModel { buffer: framer.buffer + chunk, ..framer }
    }
}

/// The place of a complete unit in the buffer.
pub struct Unit {
    pub start: int,
    pub end: int,
}

/// The next complete unit in the buffer, if there is one.
///
/// An event is complete with its blank line. A part reaches from its boundary
/// marker to the next one, and is complete once that next marker has arrived;
/// a marker followed by two dashes is complete by itself. What stands before
/// the first marker belongs to no unit. A single JSON text
/// is complete only when the body ends.
pub open spec fn next_unit(framer: FramerModel) -> Option<Unit> {
    if framer.closed {
        None
    } else {
        match framer.encoding {
            Encoding::EventStream => match first_at(framer.buffer, blank_line(), 0) {
                Some(end) => Some(Unit { start: 0, end: end + blank_line().len() }),
                None => None,
            },
            Encoding::Multipart => if framer.delimiter.len() == 0 {
                None
            } else {
                match first_at(framer.buffer, framer.delimiter, 0) {
                    Some(marker) => {
                        let after = marker + framer.delimiter.len();
                        if after + dashes().len() > framer.buffer.len() {
                            None
                        } else if occurs_at(framer.buffer, dashes(), after) {
                            Some(Unit { start: marker, end: after + dashes().len() })
                        } else {
                            match first_at(framer.buffer, framer.delimiter, after) {
                                Some(next) => Some(Unit { start: marker, end: next }),
                                None => None,
                            }
                        }
                    },
                    None => None,
                }
            },
            Encoding::SingleJson => None,
        }
    }
}

/// The frame that a unit gives.
pub open spec fn unit_frame(framer: FramerModel, unit: Unit) -> Result<Frame, FramingError> {
    let bytes = framer.buffer.subrange(unit.start, unit.end);
    match framer.encoding {
        Encoding::EventStream => event_frame(bytes),
        Encoding::Multipart => multipart_frame(bytes, framer.delimiter),
        Encoding::SingleJson => Ok(json_frame(bytes)),
    }
}

/// A unit closes the body where its frame is terminal: an event none of whose
/// lines is `event: next`, or the boundary marker followed by two dashes.
pub open spec fn closes(framer: FramerModel, unit: Unit) -> bool {
    unit_frame(framer, unit) matches Ok(frame) && frame.terminal
}

/// The framer after a unit was handed out: the buffer without the unit and
/// what stood before it, or closed and empty after the unit that closes the
/// body.
pub open spec fn consumed(framer: FramerModel, unit: Unit) -> FramerModel {
    if closes(framer, unit) {
        FramerModel { buffer: Seq::empty(), closed: true, ..framer }
    } else {
        FramerModel { buffer: framer.buffer.skip(unit.end), ..framer }
    }
}

/// What the end of the body gives: for a single JSON text, the body as the
/// terminal frame; for the other encodings nothing, unless the body ended
/// inside a frame.
pub open spec fn last_frame(framer: FramerModel) -> Option<Result<Frame, FramingError>> {
    if framer.closed {
        None
    } else {
        match framer.encoding {
            Encoding::SingleJson => Some(Ok(json_frame(framer.buffer))),
            _ => if trimmed_len(framer.buffer) == 0 {
                None
            } else {
                Some(Err(FramingError::Unterminated))
            },
        }
    }
}

/// The framer after the body ended.
pub open spec fn ended(framer: FramerModel) -> FramerModel {
    FramerModel { buffer: Seq::empty(), closed: true, ..framer }
}

/// The fixed markers are as long as they look.
pub proof fn lemma_marker_lengths()
    ensures
        blank_line().len() == 2,
        dashes().len() == 2,
{
    reveal_strlit("\n\n");
    reveal_strlit("--");
    is_ascii_chars_encode_utf8("\n\n"@);
    is_ascii_chars_encode_utf8("--"@);
}

/// A unit takes bytes off the buffer.
pub proof fn lemma_unit_bounds(framer: FramerModel)
    ensures
        match next_unit(framer) {
            Some(unit) => 0 <= unit.start <= unit.end <= framer.buffer.len() && 0 < unit.end,
            None => true,
        },
{
    lemma_marker_lengths();
    lemma_first_at(framer.buffer, blank_line(), 0);
    lemma_first_at(framer.buffer, framer.delimiter, 0);
    match first_at(framer.buffer, framer.delimiter, 0) {
        Some(marker) => {
            lemma_first_at(framer.buffer, framer.delimiter, marker + framer.delimiter.len());
        },
        None => {},
    }
}

/// Whether `name` occurs in the media type.
fn names(content_type: &str, name: &str) -> (r: bool)
    ensures
        r == mentions(content_type@, name.spec_bytes()),
{
    find(content_type.as_bytes(), name.as_bytes(), 0).is_some()
}

/// Picks the encoding that a media type declares.
pub fn select_encoding(content_type: &str) -> (r: Encoding)
    ensures
        r == encoding_of(content_type@),
{
    if names(content_type, "text/event-stream") {
        Encoding::EventStream
    } else if names(content_type, "multipart/mixed") {
        Encoding::Multipart
    } else {
        Encoding::SingleJson
    }
}

impl Framer {
    /// A framer for an encoding and, for a multipart body, its boundary marker.
    pub fn with_encoding(encoding: Encoding, delimiter: Vec<u8>) -> (r: Framer)
        ensures
            r@ == fresh(encoding, delimiter@),
    {
        Framer { encoding, delimiter, buffer: Vec::new(), closed: false }
    }

    /// The framer for the media type of a response.
    pub fn new(content_type: &str) -> (r: Result<Framer, FramingError>)
        ensures
            match framer_for(content_type@) {
                Ok(framer) => r is Ok && r->Ok_0@ == framer,
                Err(error) => r is Err && r->Err_0 == error,
            },
    {
        match select_encoding(content_type) {
            Encoding::Multipart => match boundary(content_type) {
                Ok(token) => Ok(Framer::with_encoding(Encoding::Multipart, delimiter(token.as_str()))),
                Err(error) => Err(error),
            },
            other => Ok(Framer::with_encoding(other, Vec::new())),
        }
    }

    /// Takes in the next chunk of the body.
    pub fn push(&mut self, chunk: &[u8])
        ensures
            final(self)@ == pushed(old(self)@, chunk@),
    {
        if !self.closed {
            let ghost before = self.buffer@;
            self.buffer.extend_from_slice(chunk);
            assert(self.buffer@ =~= before + chunk@);
        }
    }

    /// Finds the next complete unit in the buffer.
    fn locate(&self) -> (r: Option<(usize, usize)>)
        ensures
            match next_unit(self@) {
                Some(unit) => r == Some((unit.start as usize, unit.end as usize)) && 0
                    <= unit.start <= unit.end <= self.buffer@.len() && 0 < unit.end,
                None => r is None,
            },
    {
        proof {
            lemma_unit_bounds(self@);
            lemma_marker_lengths();
        }
        if self.closed {
            return None;
        }
        let buffer = self.buffer.as_slice();
        assert(buffer.len() == buffer@.len());
        match self.encoding {
            Encoding::EventStream => {
                let blank = "\n\n".as_bytes();
                match find(buffer, blank, 0) {
                    Some(end) => Some((0, end + blank.len())),
                    None => None,
                }
            },
            Encoding::Multipart => {
                let marker_bytes = self.delimiter.as_slice();
                if marker_bytes.len() == 0 {
                    return None;
                }
                match find(buffer, marker_bytes, 0) {
                    Some(marker) => {
                        let after = marker + marker_bytes.len();
                        let two_dashes = "--".as_bytes();
                        if two_dashes.len() > buffer.len() - after {
                            None
                        } else if stands_at(buffer, two_dashes, after) {
                            Some((marker, after + two_dashes.len()))
                        } else {
                            match find(buffer, marker_bytes, after) {
                                Some(next) => Some((marker, next)),
                                None => None,
                            }
                        }
                    },
                    None => None,
                }
            },
            Encoding::SingleJson => None,
        }
    }

    /// Hands out the next complete frame, if the buffer holds one, and takes
    /// its bytes off the buffer. With a terminal frame the framer closes. A
    /// unit that is malformed is handed out as an error and taken off the
    /// buffer as well, so what follows it is read as if it had not been there.
    pub fn next_frame(&mut self) -> (r: Option<Result<StreamedChunk, FramingError>>)
        ensures
            match next_unit(old(self)@) {
                Some(unit) => r is Some && reads_as(r->Some_0, unit_frame(old(self)@, unit))
                    && final(self)@ == consumed(old(self)@, unit) && (final(self)@.closed
                    || final(self)@.buffer.len() < old(self)@.buffer.len()),
                None => r is None && final(self)@ == old(self)@,
            },
    {
        match self.locate() {
            None => None,
            Some((start, end)) => {
                let buffer = self.buffer.as_slice();
                assert(buffer.len() == buffer@.len());
                let frame = match self.encoding {
                    Encoding::EventStream => parse_text_event_stream_chunk(
                        slice_subrange(buffer, start, end),
                    ),
                    Encoding::Multipart => parse_multipart_part(
                        slice_subrange(buffer, start, end),
                        self.delimiter.as_slice(),
                    ),
                    Encoding::SingleJson => Ok(
                        parse_application_json_chunk(slice_subrange(buffer, start, end)),
                    ),
                };
                let terminal = match &frame {
                    Ok(chunk) => match chunk.state {
                        StreamState::Final => true,
                        StreamState::InProgress => false,
                    },
                    Err(_) => false,
                };
                if terminal {
                    self.buffer = Vec::new();
                    self.closed = true;
                } else {
                    let rest = slice_to_vec(slice_subrange(buffer, end, buffer.len()));
                    assert(rest@ =~= old(self).buffer@.skip(end as int));
                    self.buffer = rest;
                }
                Some(frame)
            },
        }
    }

    /// Ends the body: hands out what the end gives, and closes the framer.
    pub fn finish(&mut self) -> (r: Option<Result<StreamedChunk, FramingError>>)
        ensures
            match last_frame(old(self)@) {
                Some(frame) => r is Some && reads_as(r->Some_0, frame),
                None => r is None,
            },
            final(self)@ == ended(old(self)@),
    {
        proof {
            lemma_trimmed_len(self.buffer@);
        }
        let last = if self.closed {
            None
        } else {
            match self.encoding {
                Encoding::SingleJson => Some(Ok(parse_application_json_chunk(self.buffer.as_slice()))),
                _ => if trimmed(self.buffer.as_slice()).len() == 0 {
                    None
                } else {
                    Some(Err(FramingError::Unterminated))
                },
            }
        };
        self.buffer = Vec::new();
        self.closed = true;
        last
    }
}

} // verus!
