//! The consumer of one response: a framer and an accumulator, fed chunk by
//! chunk.

use crate::accumulator::{
    accepted, closed, rejection, Accumulator, AccumulatorModel, ConsumeError, Rejection,
};
use crate::framer::{
    consumed, ended, framer_for, last_frame, next_unit, pushed, unit_frame, Framer, FramerModel,
};
use crate::parse::{Frame, FramingError, StreamedChunk};
use crate::result::ExecutionResult;
use vstd::prelude::*;

verus! {

/// A consumer as a mathematical value.
pub struct ConsumerModel {
    pub framer: FramerModel,
    pub accumulator: AccumulatorModel,
}

/// The consumer of one response.
#[derive(Debug, PartialEq, Eq)]
pub struct Consumer {
    pub framer: Framer,
    pub accumulator: Accumulator,
}

impl View for Consumer {
    type V = ConsumerModel;

    open spec fn view(&self) -> ConsumerModel {
        ConsumerModel { framer: self.framer@, accumulator: self.accumulator@ }
    }
}

/// What was skipped, as mathematical values.
pub open spec fn rejections_view(skipped: Seq<ConsumeError>) -> Seq<Rejection> {
    Seq::new(skipped.len(), |i: int| skipped[i]@)
}

/// The accumulator after what a unit of the body gave: the frame accepted, or
/// nothing changed where the unit was malformed.
pub open spec fn taken(state: AccumulatorModel, frame: Result<Frame, FramingError>) -> AccumulatorModel {
    match frame {
        Ok(f) => accepted(state, f),
        Err(_) => state,
    }
}

/// What is reported of a unit of the body: nothing where its frame was taken
/// into the result or passed over, else why it was skipped.
pub open spec fn reported(state: AccumulatorModel, frame: Result<Frame, FramingError>) -> Seq<
    Rejection,
> {
    match frame {
        Ok(f) => match rejection(state, f) {
            Some(why) => seq![why],
            None => Seq::empty(),
        },
        Err(e) => seq![Rejection::Framing(e)],
    }
}

/// A consumer after every complete frame in its buffer was taken, in order,
/// with what was skipped on the way.
pub struct Drained {
    pub consumer: ConsumerModel,
    pub skipped: Seq<Rejection>,
}

/// Takes every complete frame out of the buffer, first to last.
pub open spec fn drained(consumer: ConsumerModel) -> Drained
    decreases consumer.framer.buffer.len(), if consumer.framer.closed { 0nat } else { 1nat },
{
    match next_unit(consumer.framer) {
        None => Drained { consumer, skipped: Seq::empty() },
        Some(unit) => {
            let frame = unit_frame(consumer.framer, unit);
            let next = ConsumerModel {
                framer: consumed(consumer.framer, unit),
                accumulator: taken(consumer.accumulator, frame),
            };
            if next.framer.closed || next.framer.buffer.len() < consumer.framer.buffer.len() {
                let rest = drained(next);
                Drained {
                    consumer: rest.consumer,
                    skipped: reported(consumer.accumulator, frame) + rest.skipped,
                }
            } else {
                Drained { consumer, skipped: Seq::empty() }
            }
        },
    }
}

/// The consumer after a chunk of the body arrived.
pub open spec fn fed(consumer: ConsumerModel, chunk: Seq<u8>) -> Drained {
    drained(ConsumerModel { framer: pushed(consumer.framer, chunk), ..consumer })
}

/// The consumer after the body ended: what the end gives is taken like any
/// frame, and the accumulation is closed.
pub open spec fn finished(consumer: ConsumerModel) -> Drained {
    let framer = ended(consumer.framer);
    match last_frame(consumer.framer) {
        Some(frame) => Drained {
            consumer: ConsumerModel {
                framer,
                accumulator: closed(taken(consumer.accumulator, frame)),
            },
            skipped: reported(consumer.accumulator, frame),
        },
        None => Drained {
            consumer: ConsumerModel { framer, accumulator: closed(consumer.accumulator) },
            skipped: Seq::empty(),
        },
    }
}

impl Consumer {
    /// A consumer for a framer.
    pub fn with_framer(framer: Framer) -> (r: Consumer)
        ensures
            r@ == (ConsumerModel {
                framer: framer@,
                accumulator: AccumulatorModel { result: None, done: false },
            }),
    {
        Consumer { framer, accumulator: Accumulator::new() }
    }

    /// The consumer for the media type of a response.
    pub fn new(content_type: &str) -> (r: Result<Consumer, FramingError>)
        ensures
            match framer_for(content_type@) {
                Ok(framer) => r is Ok && r->Ok_0@ == (ConsumerModel {
                    framer,
                    accumulator: AccumulatorModel { result: None, done: false },
                }),
                Err(error) => r is Err && r->Err_0 == error,
            },
    {
        match Framer::new(content_type) {
            Ok(framer) => Ok(Consumer::with_framer(framer)),
            Err(error) => Err(error),
        }
    }

    /// Takes one unit's frame, or notes why the unit was skipped.
    fn take(&mut self, frame: Result<StreamedChunk, FramingError>, skipped: &mut Vec<ConsumeError>)
        ensures
            final(self).framer == old(self).framer,
            forall|model: Result<Frame, FramingError>|
                crate::parse::reads_as(frame, model) ==> {
                    &&& final(self).accumulator@ == taken(old(self).accumulator@, model)
                    &&& rejections_view(final(skipped)@) == rejections_view(old(skipped)@)
                        + reported(old(self).accumulator@, model)
                },
    {
        let ghost listed = rejections_view(skipped@);
        let ghost state = self.accumulator@;
        match frame {
            Ok(chunk) => match self.accumulator.accept(&chunk) {
                Ok(_) => {
                    assert(rejections_view(skipped@) =~= listed + Seq::<Rejection>::empty());
                },
                Err(why) => {
                    skipped.push(why);
                    assert(rejections_view(skipped@) =~= listed + seq![why@]);
                },
            },
            Err(error) => {
                skipped.push(ConsumeError::Framing(error));
                assert(rejections_view(skipped@) =~= listed + seq![Rejection::Framing(error)]);
            },
        }
    }

    /// Takes in a chunk of the body, and with it every frame that it completes.
    /// What was skipped is returned, in order; it does not stop the
    /// consumption.
    pub fn feed(&mut self, chunk: &[u8]) -> (skipped: Vec<ConsumeError>)
        ensures
            final(self)@ == fed(old(self)@, chunk@).consumer,
            rejections_view(skipped@) == fed(old(self)@, chunk@).skipped,
    {
        let mut skipped: Vec<ConsumeError> = Vec::new();
        self.framer.push(chunk);
        let ghost whole = drained(self@);
        assert(rejections_view(skipped@) =~= Seq::empty());
        loop
            invariant
                whole == fed(old(self)@, chunk@),
                whole.consumer == drained(self@).consumer,
                whole.skipped == rejections_view(skipped@) + drained(self@).skipped,
            decreases self.framer.buffer.len(), if self.framer.closed { 0nat } else { 1nat },
        {
            let ghost before = self@;
            let ghost listed = rejections_view(skipped@);
            match self.framer.next_frame() {
                None => {
                    assert(listed + Seq::<Rejection>::empty() =~= listed);
                    return skipped;
                },
                Some(frame) => {
                    let ghost unit = next_unit(before.framer)->Some_0;
                    let ghost model = unit_frame(before.framer, unit);
                    self.take(frame, &mut skipped);
                    proof {
                        assert(self@.accumulator == taken(before.accumulator, model));
                        assert(whole.skipped =~= rejections_view(skipped@) + drained(self@).skipped);
                    }
                },
            }
        }
    }

    /// Ends the body: takes what the end gives, and closes the accumulation.
    pub fn finish(&mut self) -> (skipped: Vec<ConsumeError>)
        ensures
            final(self)@ == finished(old(self)@).consumer,
            rejections_view(skipped@) == finished(old(self)@).skipped,
    {
        let mut skipped: Vec<ConsumeError> = Vec::new();
        assert(rejections_view(skipped@) =~= Seq::empty());
        match self.framer.finish() {
            Some(frame) => {
                let ghost model = last_frame(old(self)@.framer)->Some_0;
                self.take(frame, &mut skipped);
                assert(rejections_view(skipped@) =~= reported(old(self)@.accumulator, model));
            },
            None => {},
        }
        self.accumulator.finish();
        skipped
    }

    /// The result so far.
    pub fn result(&self) -> (r: Option<&ExecutionResult>)
        ensures
            match r {
                Some(held) => self.accumulator.result == Some(*held),
                None => self.accumulator.result is None,
            },
    {
        self.accumulator.result.as_ref()
    }
}

} // verus!
