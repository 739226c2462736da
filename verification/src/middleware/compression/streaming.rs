//! How a body of unknown length is encoded as it is produced.
//!
//! An encoder fed a frame at a time, whose output is emitted as it becomes
//! available. The encoder and the source body are the server's; which of them
//! is asked next, and what their answers lead to, is decided here.

use vstd::prelude::*;

verus! {

/// When an encoder of a streamed body emits what it has.
#[derive(Clone, Copy, Debug, PartialEq, Eq, Structural)]
pub enum LatencyMode {
    /// Flush after every frame the handler produces: the default, because a
    /// body produced incrementally is read incrementally.
    Interactive,
    /// Let the compressor fill its window first: the better ratio, for a body
    /// that is a stream only because it is large.
    Throughput,
}

impl Default for LatencyMode {
    fn default() -> (r: Self)
        ensures
            r == LatencyMode::Interactive,
    {
        LatencyMode::Interactive
    }
}

/// Where an encoding stream is.
#[derive(Clone, Copy, Debug, PartialEq, Eq, Structural)]
pub enum StreamState {
    /// Writing the source's frames into the encoder.
    Feeding,
    /// Flushing the encoder, so what it holds can be emitted now.
    Flushing,
    /// Finishing the encoding after the source ended.
    Finishing,
    /// Finished: only trailers, if any, remain.
    Done,
}

/// What an encoding stream asks for next.
#[derive(Clone, Copy, Debug, PartialEq, Eq, Structural)]
pub enum StreamStep {
    /// Write the pending octets into the encoder.
    Write,
    /// Ask the source for its next frame.
    ReadSource,
    /// Flush the encoder.
    Flush,
    /// Finish the encoding.
    ShutDown,
    /// Hand on the trailers, if any, and end.
    Finish,
}

/// What the source answered when asked for a frame.
#[derive(Clone, Copy, Debug, PartialEq, Eq, Structural)]
pub enum SourceFrame {
    /// Data of this many octets.
    Data(usize),
    /// Trailers, kept for the end.
    Trailers,
    /// An error, which ends the stream.
    Failed,
    /// The end of the source.
    Ended,
}

/// What follows a write into the encoder.
#[derive(Clone, Copy, Debug, PartialEq, Eq, Structural)]
pub enum Written {
    /// The encoder took nothing: the stream ends with an error.
    Failed,
    /// The frame is all written and the stream is interactive: flush next.
    Flush,
    /// Emit whatever the encoder produced, if anything, and go on.
    Emit,
}

/// The decisions of one encoding stream.
#[derive(Clone, Copy, Debug, PartialEq, Eq, Structural)]
pub struct EncodingStream {
    latency: LatencyMode,
    state: StreamState,
    pending: usize,
}

impl EncodingStream {
    /// The stream's latency mode.
    pub closed spec fn spec_latency(&self) -> LatencyMode {
        self.latency
    }

    /// Where the stream is.
    pub closed spec fn spec_state(&self) -> StreamState {
        self.state
    }

    /// How many octets of the current frame are still to be written.
    pub closed spec fn spec_pending(&self) -> nat {
        self.pending as nat
    }

    /// A stream in `latency` mode, about to ask the source for a frame.
    pub fn new(latency: LatencyMode) -> (r: Self)
        ensures
            r.spec_latency() == latency,
            r.spec_state() == StreamState::Feeding,
            r.spec_pending() == 0,
    {
        EncodingStream { latency, state: StreamState::Feeding, pending: 0 }
    }

    /// Where the stream is.
    pub fn state(&self) -> (r: StreamState)
        ensures
            r == self.spec_state(),
    {
        self.state
    }

    /// How many octets of the current frame are still to be written.
    pub fn pending(&self) -> (r: usize)
        ensures
            r == self.spec_pending(),
    {
        self.pending
    }

    /// What the stream asks for next: the pending octets are written before
    /// the source is asked again.
    pub fn next(&self) -> (r: StreamStep)
        ensures
            r == (match self.spec_state() {
                StreamState::Done => StreamStep::Finish,
                StreamState::Finishing => StreamStep::ShutDown,
                StreamState::Flushing => StreamStep::Flush,
                StreamState::Feeding => if self.spec_pending() > 0 {
                    StreamStep::Write
                } else {
                    StreamStep::ReadSource
                },
            }),
    {
        match self.state {
            StreamState::Done => StreamStep::Finish,
            StreamState::Finishing => StreamStep::ShutDown,
            StreamState::Flushing => StreamStep::Flush,
            StreamState::Feeding => if self.pending > 0 {
                StreamStep::Write
            } else {
                StreamStep::ReadSource
            },
        }
    }

    /// The source answered: data becomes the pending frame, trailers are
    /// kept, an error ends the stream, and the end finishes the encoding.
    pub fn sourced(&mut self, frame: SourceFrame)
        requires
            old(self).spec_state() == StreamState::Feeding,
            old(self).spec_pending() == 0,
        ensures
            final(self).spec_latency() == old(self).spec_latency(),
            (match frame {
                SourceFrame::Data(n) => final(self).spec_state() == StreamState::Feeding
                    && final(self).spec_pending() == n,
                SourceFrame::Trailers => *final(self) == *old(self),
                SourceFrame::Failed => final(self).spec_state() == StreamState::Done,
                SourceFrame::Ended => final(self).spec_state() == StreamState::Finishing,
            }),
    {
        match frame {
            SourceFrame::Data(n) => {
                self.pending = n;
            },
            SourceFrame::Trailers => {},
            SourceFrame::Failed => {
                self.state = StreamState::Done;
            },
            SourceFrame::Ended => {
                self.state = StreamState::Finishing;
            },
        }
    }

    /// The encoder took `written` of the pending octets. Taking none ends the
    /// stream; an interactive stream flushes as soon as a frame is all
    /// written, so a frame the handler produced is never held back.
    pub fn wrote(&mut self, written: usize) -> (r: Written)
        requires
            old(self).spec_state() == StreamState::Feeding,
            written <= old(self).spec_pending(),
        ensures
            final(self).spec_latency() == old(self).spec_latency(),
            written == 0 ==> r == Written::Failed && final(self).spec_state() == StreamState::Done,
            written > 0 ==> final(self).spec_pending() == old(self).spec_pending() - written,
            written > 0 ==> (if final(self).spec_pending() == 0 && old(self).spec_latency()
                == LatencyMode::Interactive {
                r == Written::Flush && final(self).spec_state() == StreamState::Flushing
            } else {
                r == Written::Emit && final(self).spec_state() == StreamState::Feeding
            }),
    {
        if written == 0 {
            self.state = StreamState::Done;
            return Written::Failed;
        }
        self.pending = self.pending - written;
        if self.pending == 0 && self.latency == LatencyMode::Interactive {
            self.state = StreamState::Flushing;
            Written::Flush
        } else {
            Written::Emit
        }
    }

    /// The encoder flushed: feeding resumes.
    pub fn flushed(&mut self)
        requires
            old(self).spec_state() == StreamState::Flushing,
        ensures
            final(self).spec_state() == StreamState::Feeding,
            final(self).spec_pending() == old(self).spec_pending(),
            final(self).spec_latency() == old(self).spec_latency(),
    {
        self.state = StreamState::Feeding;
    }

    /// The encoder finished: only trailers remain.
    pub fn shut_down(&mut self)
        requires
            old(self).spec_state() == StreamState::Finishing,
        ensures
            final(self).spec_state() == StreamState::Done,
            final(self).spec_latency() == old(self).spec_latency(),
    {
        self.state = StreamState::Done;
    }

    /// Whether the stream has ended: finished, with no trailers left to hand
    /// on.
    pub fn is_end_stream(&self, trailers_left: bool) -> (r: bool)
        ensures
            r == (self.spec_state() == StreamState::Done && !trailers_left),
    {
        self.state == StreamState::Done && !trailers_left
    }
}

} // verus!
