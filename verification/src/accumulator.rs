//! The accumulator: it takes the frames of a response in order and holds the
//! result they add up to.

use crate::decode::{decode, decoded_text, DecodeError};
use crate::parse::{Frame, FramingError, StreamState, StreamedChunk};
use crate::result::{
    finalized, merged, DecodedModel, ExecutionResult, GraphQLResult, ResultModel,
};
use vstd::prelude::*;

verus! {

/// Where the accumulation stands.
#[derive(Debug, PartialEq, Eq, Clone, Copy)]
pub enum Phase {
    /// No initial result has arrived.
    AwaitingInitial,
    /// An initial result is held, and patches are folded into it.
    Streaming,
    /// The stream is over. Nothing more is accepted.
    Done,
}

/// An accumulator as a mathematical value.
pub struct AccumulatorModel {
    pub result: Option<ResultModel>,
    pub done: bool,
}

/// The accumulator of one response.
#[derive(Debug, PartialEq, Eq)]
pub struct Accumulator {
    /// The result so far; `None` until the initial result has arrived.
    pub result: Option<ExecutionResult>,
    pub done: bool,
}

/// The value of a result that may not be there yet.
pub open spec fn result_view(result: Option<ExecutionResult>) -> Option<ResultModel> {
    match result {
        Some(r) => Some(r@),
        None => None,
    }
}

impl View for Accumulator {
    type V = AccumulatorModel;

    open spec fn view(&self) -> AccumulatorModel {
        AccumulatorModel { result: result_view(self.result), done: self.done }
    }
}

/// The phase of an accumulator.
pub open spec fn phase_of(state: AccumulatorModel) -> Phase {
    if state.done {
        Phase::Done
    } else if state.result is None {
        Phase::AwaitingInitial
    } else {
        Phase::Streaming
    }
}

/// Why a frame, or a stretch of the body, added nothing; as a mathematical
/// value.
pub enum Rejection {
    /// The body was malformed.
    Framing(FramingError),
    /// The text of a frame did not decode.
    Decode(Seq<u8>),
    /// A patch arrived before any initial result.
    PatchBeforeInitial,
}

/// Why a frame, or a stretch of the body, was skipped.
#[derive(Debug, PartialEq, Eq)]
pub enum ConsumeError {
    Framing(FramingError),
    Decode(DecodeError),
    PatchBeforeInitial,
}

impl View for ConsumeError {
    type V = Rejection;

    open spec fn view(&self) -> Rejection {
        match self {
            ConsumeError::Framing(e) => Rejection::Framing(*e),
            ConsumeError::Decode(e) => Rejection::Decode(e.text@),
            ConsumeError::PatchBeforeInitial => Rejection::PatchBeforeInitial,
        }
    }
}

/// The result, if any, marked complete.
pub open spec fn finalized_if_any(result: Option<ResultModel>) -> Option<ResultModel> {
    match result {
        Some(r) => Some(finalized(r)),
        None => None,
    }
}

/// The result after the text of a frame: an initial result takes the place of
/// what was held; a patch is merged into the result held, which it completes
/// where nothing is to follow it; a text that does not decode, or a patch
/// without a result to merge into, changes nothing.
pub open spec fn result_after(result: Option<ResultModel>, text: Seq<u8>) -> Option<ResultModel> {
    match decoded_text(text) {
        Some(DecodedModel::Initial(initial)) => Some(initial),
        Some(DecodedModel::Patch(patch)) => match result {
            Some(held) => Some(
                if patch.complete_after_this {
                    finalized(merged(held, patch.payloads))
                } else {
                    merged(held, patch.payloads)
                },
            ),
            None => None,
        },
        None => result,
    }
}

/// The result after a frame: its text, where it has any, is decoded and taken
/// into the result; a frame without text leaves the result as it is.
pub open spec fn result_with(result: Option<ResultModel>, frame: Frame) -> Option<ResultModel> {
    if frame.text.len() == 0 {
        result
    } else {
        result_after(result, frame.text)
    }
}

/// The accumulator after a frame.
///
/// Once done, it accepts nothing. Before that, the frame's text is taken into
/// the result; a frame that is not terminal and has no text is thereby passed
/// over. With a terminal frame, with or without text, the result is then
/// marked complete and the accumulator is done.
pub open spec fn accepted(state: AccumulatorModel, frame: Frame) -> AccumulatorModel {
    if state.done {
        state
    } else if frame.terminal {
        AccumulatorModel { result: finalized_if_any(result_with(state.result, frame)), done: true }
    } else {
        AccumulatorModel { result: result_with(state.result, frame), done: false }
    }
}

/// Why a frame added nothing to the result, where it did not.
pub open spec fn rejection(state: AccumulatorModel, frame: Frame) -> Option<Rejection> {
    if state.done || frame.text.len() == 0 {
        None
    } else {
        match decoded_text(frame.text) {
            Some(DecodedModel::Initial(_)) => None,
            Some(DecodedModel::Patch(_)) => if state.result is None {
                Some(Rejection::PatchBeforeInitial)
            } else {
                None
            },
            None => Some(Rejection::Decode(frame.text)),
        }
    }
}

/// The accumulator after the stream ended: done, its result marked complete.
pub open spec fn closed(state: AccumulatorModel) -> AccumulatorModel {
    if state.done {
        state
    } else {
        AccumulatorModel { result: finalized_if_any(state.result), done: true }
    }
}

impl Accumulator {
    /// An accumulator that awaits the initial result.
    pub fn new() -> (r: Accumulator)
        ensures
            r@ == (AccumulatorModel { result: None, done: false }),
    {
        Accumulator { result: None, done: false }
    }

    /// The phase of the accumulation.
    pub fn phase(&self) -> (r: Phase)
        ensures
            r == phase_of(self@),
    {
        if self.done {
            Phase::Done
        } else if self.result.is_none() {
            Phase::AwaitingInitial
        } else {
            Phase::Streaming
        }
    }

    /// Takes one frame. A frame that adds nothing to the result is reported,
    /// and the accumulation goes on.
    pub fn accept(&mut self, frame: &StreamedChunk) -> (r: Result<(), ConsumeError>)
        ensures
            final(self)@ == accepted(old(self)@, frame@),
            match rejection(old(self)@, frame@) {
                Some(why) => r is Err && r->Err_0@ == why,
                None => r is Ok,
            },
    {
        if self.done {
            return Ok(());
        }
        let outcome = if frame.payload.len() == 0 {
            Ok(())
        } else {
            match decode(frame.payload.as_slice()) {
                Ok(GraphQLResult::ExecutionResult(initial)) => {
                    self.result = Some(initial);
                    Ok(())
                },
                Ok(GraphQLResult::StreamedExecutionResult(patch)) => match &mut self.result {
                    Some(held) => {
                        held.merge(&patch);
                        if !patch.has_next {
                            held.finalize();
                        }
                        Ok(())
                    },
                    None => Err(ConsumeError::PatchBeforeInitial),
                },
                Err(error) => Err(ConsumeError::Decode(error)),
            }
        };
        match frame.state {
            StreamState::Final => {
                match &mut self.result {
                    Some(held) => {
                        held.finalize();
                    },
                    None => {},
                }
                self.done = true;
            },
            StreamState::InProgress => {},
        }
        outcome
    }

    /// Ends the accumulation: the result is marked complete.
    pub fn finish(&mut self)
        ensures
            final(self)@ == closed(old(self)@),
    {
        if !self.done {
            match &mut self.result {
                Some(held) => {
                    held.finalize();
                },
                None => {},
            }
            self.done = true;
        }
    }
}

} // verus!
