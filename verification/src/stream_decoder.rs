//! A decode buffer over any frame source.

use crate::frame::{Frame, FrameSource};
use crate::stream_buffer::{
    fill_in_progress, fill_measure, fills, initial_view, lemma_fill_begin, lemma_fill_end,
    lemma_fill_step, pulls, StreamBuffer, StreamView,
};
use std::time::Duration;
use vstd::prelude::*;

verus! {

/// Why a decode buffer could not be built.
#[derive(Debug, Clone, Copy, PartialEq, Eq)]
pub enum DecodeError {
    /// The source had no frame at all to start from.
    NoInitialFrame,
}

/// Whether the frames that took a buffer from `pre` to `post` are the first
/// of the frames `to_come`, with `left` still to come, and all of them if
/// the source was found exhausted.
pub open spec fn takes_from(
    pre: StreamView,
    post: StreamView,
    to_come: Seq<Frame>,
    left: Option<Seq<Frame>>,
) -> bool {
    let taken = post.received.len() - pre.received.len();
    &&& 0 <= taken <= to_come.len()
    &&& post.received.skip(pre.received.len() as int) == to_come.take(taken)
    &&& left == Some(to_come.skip(taken))
    &&& post.exhausted ==> taken == to_come.len()
}

/// A bounded queue of decoded samples in front of a frame source, refilled
/// from the source whenever it runs empty.
pub struct StreamDecoder<S: FrameSource> {
    source: S,
    queue: StreamBuffer,
    origin: Ghost<nat>,
}

impl<S: FrameSource> View for StreamDecoder<S> {
    type V = StreamView;

    closed spec fn view(&self) -> StreamView {
        self.queue@
    }
}

impl<S: FrameSource> StreamDecoder<S> {
    /// The frame source behind the queue.
    pub closed spec fn source(&self) -> S {
        self.source
    }

    /// How many frames the source had handed out before the first one that
    /// this buffer received.
    pub closed spec fn origin(&self) -> nat {
        self.origin@
    }

    /// The buffer is in a sound state, and the frames it accounts for are
    /// exactly those its source has handed out since `origin`.
    pub closed spec fn wf(&self) -> bool {
        &&& self.queue.wf()
        &&& self.origin@ < self.source.delivered().len()
        &&& self.queue@.received == self.source.delivered().skip(self.origin@ as int)
        &&& self.queue@.exhausted ==> (self.source.upcoming() matches Some(rest) ==> rest.len()
            == 0)
    }

    /// What `wf` says to the outside.
    pub proof fn lemma_wf(&self)
        requires
            self.wf(),
        ensures
            self@.wf(),
            self.origin() < self.source().delivered().len(),
            self@.received == self.source().delivered().skip(self.origin() as int),
            self@.exhausted ==> (self.source().upcoming() matches Some(rest) ==> rest.len() == 0),
    {
        self.queue.lemma_wf();
    }

    /// Builds a decode buffer over `source`: takes one frame to start from,
    /// then runs one fill cycle. Fails if the source has no frame to give.
    pub fn new(source: S, buffer_size: usize) -> (made: Result<Self, DecodeError>)
        ensures
            match made {
                Ok(d) => {
                    &&& d.wf()
                    &&& d.origin() == source.delivered().len()
                    &&& fills(initial_view(d@.received[0], buffer_size as nat), d@)
                },
                Err(e) => e == DecodeError::NoInitialFrame,
            },
            source.upcoming() matches Some(to_come) ==> match made {
                Ok(d) => {
                    &&& 0 < d@.received.len() <= to_come.len()
                    &&& d@.received == to_come.take(d@.received.len() as int)
                    &&& d.source().upcoming() == Some(to_come.skip(d@.received.len() as int))
                    &&& d@.exhausted ==> d@.received.len() == to_come.len()
                },
                Err(_) => to_come.len() == 0,
            },
    {
        let ghost to_come = source.upcoming();
        let mut source = source;
        let first = source.next_frame();
        let made = Self::from_first_frame(source, first, buffer_size);
        proof {
            if to_come is Some && made is Ok {
                let d = made->Ok_0;
                let all = to_come->Some_0;
                let rest = all.drop_first();
                let taken = d@.received.len() - 1;
                assert(d@.received =~= seq![all[0]] + d@.received.skip(1)) by {
                    assert(d@.received[0] == all[0]);
                }
                assert(seq![all[0]] + rest.take(taken) =~= all.take(taken + 1));
                assert(rest.skip(taken) =~= all.skip(taken + 1));
            }
        }
        made
    }

    /// Builds a decode buffer from a source and the answer it gave when
    /// asked for its first frame, then runs one fill cycle. Succeeds exactly
    /// when that answer was a frame.
    pub fn from_first_frame(source: S, first: Option<Frame>, buffer_size: usize) -> (made: Result<
        Self,
        DecodeError,
    >)
        requires
            first matches Some(f) ==> source.delivered().len() > 0 && source.delivered().last()
                == f,
        ensures
            match (first, made) {
                (Some(f), Ok(d)) => {
                    &&& d.wf()
                    &&& d.origin() == source.delivered().len() - 1
                    &&& d@.received[0] == f
                    &&& fills(initial_view(f, buffer_size as nat), d@)
                    &&& source.upcoming() matches Some(to_come) ==> takes_from(
                        initial_view(f, buffer_size as nat),
                        d@,
                        to_come,
                        d.source().upcoming(),
                    )
                },
                (None, Err(e)) => e == DecodeError::NoInitialFrame,
                _ => false,
            },
    {
        match first {
            None => Err(DecodeError::NoInitialFrame),
            Some(frame) => {
                let ghost origin = (source.delivered().len() - 1) as nat;
                let mut decoder = StreamDecoder {
                    source,
                    queue: StreamBuffer::new(frame, buffer_size),
                    origin: Ghost(origin),
                };
                proof {
                    assert(decoder.source.delivered().skip(origin as int) =~= seq![frame]);
                }
                decoder.fill_buffer();
                proof {
                    assert(decoder@.received.take(1) == seq![frame]);
                    assert(decoder@.received.take(1)[0] == frame);
                }
                Ok(decoder)
            },
        }
    }

    /// One fill cycle: tops the queue up from the current frame and, while
    /// it is short of its target, asks the source for the next frame and
    /// tops up from that. Ends with the queue at its target, or with the
    /// source having said that it has no more.
    pub fn fill_buffer(&mut self)
        requires
            old(self).wf(),
        ensures
            final(self).wf(),
            final(self).origin() == old(self).origin(),
            final(self).source().delivered().take(old(self).source().delivered().len() as int)
                == old(self).source().delivered(),
            fills(old(self)@, final(self)@),
            final(self)@.buffered.len() == final(self)@.target || final(self)@.exhausted,
            old(self).source().upcoming() matches Some(to_come) ==> takes_from(
                old(self)@,
                final(self)@,
                to_come,
                final(self).source().upcoming(),
            ),
    {
        let ghost pre = self@;
        let ghost handed = self.source.delivered();
        let ghost foreseen = self.source.upcoming();
        proof {
            self.queue.lemma_wf();
            lemma_fill_begin(pre);
            assert(handed.take(handed.len() as int) =~= handed);
            if foreseen is Some {
                let to_come = foreseen->Some_0;
                assert(pre.received.skip(pre.received.len() as int) =~= to_come.take(0));
                assert(to_come.skip(0) =~= to_come);
            }
        }
        self.queue.top_up();
        while self.queue.needs_frame()
            invariant
                self.wf(),
                self.origin == old(self).origin,
                fill_in_progress(pre, self@),
                self.source.delivered().len() >= handed.len(),
                self.source.delivered().take(handed.len() as int) == handed,
                foreseen matches Some(to_come) ==> takes_from(
                    pre,
                    self@,
                    to_come,
                    self.source.upcoming(),
                ),
            decreases fill_measure(self@),
        {
            let ghost now = self@;
            let ghost so_far = self.source.delivered();
            let next = self.source.next_frame();
            self.queue.accept(next);
            proof {
                lemma_fill_step(pre, now, next);
                if next is Some {
                    let f = next->Some_0;
                    assert(so_far.push(f).skip(self.origin@ as int) =~= so_far.skip(
                        self.origin@ as int,
                    ).push(f));
                    assert(so_far.push(f).take(handed.len() as int) =~= so_far.take(
                        handed.len() as int,
                    ));
                }
                if foreseen is Some {
                    let to_come = foreseen->Some_0;
                    let taken = now.received.len() - pre.received.len();
                    let left = to_come.skip(taken);
                    if next is Some {
                        let f = next->Some_0;
                        assert(f == to_come[taken]);
                        assert(self@.received.skip(pre.received.len() as int) =~= now.received.skip(
                            pre.received.len() as int,
                        ).push(f));
                        assert(to_come.take(taken).push(f) =~= to_come.take(taken + 1));
                        assert(left.drop_first() =~= to_come.skip(taken + 1));
                    }
                }
            }
        }
        proof {
            lemma_fill_end(pre, self@);
        }
    }

    /// Hands out the next sample. If the queue is empty, one fill cycle
    /// runs first; if it is still empty after that, there is no sample.
    pub fn next(&mut self) -> (sample: Option<i16>)
        requires
            old(self).wf(),
        ensures
            final(self).wf(),
            final(self).origin() == old(self).origin(),
            final(self).source().delivered().take(old(self).source().delivered().len() as int)
                == old(self).source().delivered(),
            pulls(old(self)@, final(self)@, sample),
            old(self).source().upcoming() matches Some(to_come) ==> takes_from(
                old(self)@,
                final(self)@,
                to_come,
                final(self).source().upcoming(),
            ),
    {
        let ghost pre = self@;
        let ghost handed = self.source.delivered();
        let ghost foreseen = self.source.upcoming();
        if self.queue.len() == 0 {
            self.fill_buffer();
        } else {
            proof {
                assert(pre.received.skip(pre.received.len() as int) =~= Seq::<Frame>::empty());
                assert(handed.take(handed.len() as int) =~= handed);
                if foreseen is Some {
                    let to_come = foreseen->Some_0;
                    assert(pre.received.skip(pre.received.len() as int) =~= to_come.take(0));
                    assert(to_come.skip(0) =~= to_come);
                }
            }
        }
        self.queue.pop()
    }

    /// The number of samples decoded and waiting in the queue.
    pub fn current_frame_len(&self) -> (len: Option<usize>)
        ensures
            len is Some,
            len->0 == self@.buffered.len(),
    {
        Some(self.queue.len())
    }

    /// How many samples of the current frame have been moved to the queue.
    pub fn cursor(&self) -> (offset: usize)
        ensures
            offset == self@.cursor,
    {
        self.queue.cursor()
    }

    /// The channel count of the frame most recently taken from the source.
    pub fn channels(&self) -> (count: u16)
        requires
            self.wf(),
        ensures
            count == self@.frame().channels as u16,
    {
        self.queue.channels()
    }

    /// The sample rate of the frame most recently taken from the source.
    pub fn sample_rate(&self) -> (rate: u32)
        requires
            self.wf(),
        ensures
            rate == self@.frame().sample_rate as u32,
    {
        self.queue.sample_rate()
    }

    /// The length of the stream, which is never known.
    pub fn total_duration(&self) -> (length: Option<Duration>)
        ensures
            length is None,
    {
        None
    }
}

} // verus!
