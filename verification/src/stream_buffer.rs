//! The sample queue at the heart of a decode buffer, and the model that the
//! contracts of the decode buffers are stated over.

use crate::frame::{lemma_samples_of_empty, lemma_samples_of_push, samples_of, Frame};
use std::collections::VecDeque;
use vstd::prelude::*;

verus! {

/// What a decode buffer stands for: the frames it has received and where
/// each of their samples is now.
#[verifier::ext_equal]
pub struct StreamView {
    /// Frames received, oldest first; the last is the current one.
    pub received: Seq<Frame>,
    /// Samples already handed to the consumer, in the order they left.
    pub yielded: Seq<i16>,
    /// Samples waiting in the queue, next one first.
    pub buffered: Seq<i16>,
    /// How many samples of the current frame have been moved to the queue.
    pub cursor: nat,
    /// The number of samples a fill cycle tries to have queued.
    pub target: nat,
    /// Whether it has been reported that there is no further frame.
    pub exhausted: bool,
}

impl StreamView {
    /// The frame most recently received.
    pub open spec fn frame(self) -> Frame {
        self.received.last()
    }

    /// The samples of the current frame that have not reached the queue yet.
    pub open spec fn pending(self) -> Seq<i16> {
        self.frame().data@.skip(self.cursor as int)
    }

    /// Everything decoded and not yet handed out, next sample first.
    pub open spec fn queued(self) -> Seq<i16> {
        self.buffered + self.pending()
    }

    /// The bookkeeping is sound: the cursor lies within the current frame,
    /// the queue is within its bound, and every sample of every frame
    /// received is accounted for exactly once, in order.
    pub open spec fn wf(self) -> bool {
        &&& self.received.len() > 0
        &&& self.cursor <= self.frame().data@.len()
        &&& self.buffered.len() <= self.target
        &&& self.yielded + self.buffered + self.pending() == samples_of(self.received)
        &&& self.exhausted ==> self.cursor == self.frame().data@.len()
    }

    /// The queue is short of its target, the current frame is used up, and
    /// nobody has said yet that there are no more frames.
    pub open spec fn needs_frame(self) -> bool {
        self.buffered.len() < self.target && self.pending().len() == 0 && !self.exhausted
    }

    /// Nothing is left to hand out and nothing more will come.
    pub open spec fn is_finished(self) -> bool {
        self.exhausted && self.buffered.len() == 0
    }
}

/// The state of a decode buffer that holds its first frame and nothing else.
pub open spec fn initial_view(first: Frame, target: nat) -> StreamView {
    StreamView {
        received: seq![first],
        yielded: Seq::empty(),
        buffered: Seq::empty(),
        cursor: 0,
        target,
        exhausted: false,
    }
}

/// The state after as many samples of the current frame as the target
/// allows have been moved to the queue.
pub open spec fn topped_up(v: StreamView) -> StreamView {
    let room = v.target - v.buffered.len();
    let k = if v.pending().len() <= room {
        v.pending().len() as int
    } else {
        room
    };
    StreamView { buffered: v.buffered + v.pending().take(k), cursor: (v.cursor + k) as nat, ..v }
}

/// The state after the answer to a request for a frame has come in: a frame
/// becomes the current one and the queue is topped up from it; no frame
/// means the end.
pub open spec fn accepted(v: StreamView, next: Option<Frame>) -> StreamView {
    match next {
        Some(f) => topped_up(StreamView { received: v.received.push(f), cursor: 0, ..v }),
        None => StreamView { exhausted: true, ..v },
    }
}

/// Whether a fill cycle that starts in `pre` may receive exactly the frames
/// `fresh`, and be told (`ended`) or not that there are no more. A frame is
/// asked for only while what is at hand falls short of the target, and the
/// asking stops only at the target or at the end.
pub open spec fn fill_admits(pre: StreamView, fresh: Seq<Frame>, ended: bool) -> bool {
    &&& pre.exhausted ==> fresh.len() == 0 && !ended
    &&& forall|i: int| 0 <= i < fresh.len() ==> (#[trigger] fresh[i]).data@.len() > 0
    &&& forall|i: int|
        0 <= i < fresh.len() ==> pre.queued().len() + (#[trigger] samples_of(fresh.take(i))).len()
            < pre.target
    &&& ended ==> pre.queued().len() + samples_of(fresh).len() < pre.target
    &&& !ended && !pre.exhausted ==> pre.queued().len() + samples_of(fresh).len() >= pre.target
}

/// The state after a fill cycle that started in `pre` and received `fresh`:
/// the queue holds the first `target` samples at hand, or all of them if
/// they are fewer, and the rest stays in the last frame.
pub open spec fn after_fill(pre: StreamView, fresh: Seq<Frame>, ended: bool) -> StreamView {
    let received = pre.received + fresh;
    let at_hand = pre.queued() + samples_of(fresh);
    let n = if at_hand.len() <= pre.target {
        at_hand.len()
    } else {
        pre.target
    };
    StreamView {
        received,
        yielded: pre.yielded,
        buffered: at_hand.take(n as int),
        cursor: (received.last().data@.len() - (at_hand.len() - n)) as nat,
        target: pre.target,
        exhausted: pre.exhausted || ended,
    }
}

/// `post` is what one fill cycle makes of `pre`.
pub open spec fn fills(pre: StreamView, post: StreamView) -> bool {
    &&& post.received.len() >= pre.received.len()
    &&& {
        let fresh = post.received.skip(pre.received.len() as int);
        let ended = post.exhausted && !pre.exhausted;
        fill_admits(pre, fresh, ended) && post == after_fill(pre, fresh, ended)
    }
}

/// The sample at the head of the queue, if there is one.
pub open spec fn front(v: StreamView) -> Option<i16> {
    if v.buffered.len() > 0 {
        Some(v.buffered[0])
    } else {
        None
    }
}

/// The state after the head of the queue, if any, has been handed out.
pub open spec fn after_pop(v: StreamView) -> StreamView {
    if v.buffered.len() > 0 {
        StreamView { yielded: v.yielded.push(v.buffered[0]), buffered: v.buffered.drop_first(), ..v }
    } else {
        v
    }
}

/// `post` and `sample` are what one pull makes of `pre`: a fill cycle first
/// if the queue is empty, then the head of the queue.
pub open spec fn pulls(pre: StreamView, post: StreamView, sample: Option<i16>) -> bool {
    &&& post.received.len() >= pre.received.len()
    &&& {
        let fresh = post.received.skip(pre.received.len() as int);
        let ended = post.exhausted && !pre.exhausted;
        let mid = if pre.buffered.len() > 0 {
            pre
        } else {
            after_fill(pre, fresh, ended)
        };
        &&& pre.buffered.len() == 0 ==> fill_admits(pre, fresh, ended)
        &&& post == after_pop(mid)
        &&& sample == front(mid)
    }
}

/// Where a fill cycle that started in `pre` stands at `now`, between two
/// requests for a frame.
pub open spec fn fill_in_progress(pre: StreamView, now: StreamView) -> bool {
    &&& pre.wf()
    &&& now.wf()
    &&& now.target == pre.target
    &&& now.yielded == pre.yielded
    &&& now.received.len() >= pre.received.len()
    &&& now.received.take(pre.received.len() as int) == pre.received
    &&& pre.exhausted ==> now.exhausted && now.received.len() == pre.received.len()
    &&& now.buffered.len() == now.target || now.pending().len() == 0
    &&& fill_admits_so_far(pre, now.received.skip(pre.received.len() as int))
    &&& now.queued() == pre.queued() + samples_of(now.received.skip(pre.received.len() as int))
    &&& now.exhausted && !pre.exhausted ==> now.queued().len() < pre.target
}

/// Each of the frames `fresh` holds a sample and was asked for while what
/// was at hand fell short of the target.
pub open spec fn fill_admits_so_far(pre: StreamView, fresh: Seq<Frame>) -> bool {
    &&& forall|i: int| 0 <= i < fresh.len() ==> (#[trigger] fresh[i]).data@.len() > 0
    &&& forall|i: int|
        0 <= i < fresh.len() ==> pre.queued().len() + (#[trigger] samples_of(fresh.take(i))).len()
            < pre.target
}

/// What is left for a fill cycle to do: it shrinks with every answer to a
/// request for a frame.
pub open spec fn fill_measure(v: StreamView) -> int {
    (v.target - v.buffered.len()) + (if v.exhausted {
        0int
    } else {
        1int
    })
}

/// Topping up moves samples from the frame to the queue and nothing else.
pub proof fn lemma_topped_up(v: StreamView)
    requires
        v.wf(),
    ensures
        topped_up(v).wf(),
        topped_up(v).queued() == v.queued(),
        topped_up(v).buffered.len() == v.target || topped_up(v).pending().len() == 0,
        v.buffered.len() < v.target && v.pending().len() > 0 ==> topped_up(v).buffered.len()
            > v.buffered.len(),
        v.buffered.len() == v.target || v.pending().len() == 0 ==> topped_up(v) == v,
{
    let t = topped_up(v);
    let k = t.cursor - v.cursor;
    assert(t.pending() =~= v.pending().skip(k));
    assert(v.pending() =~= v.pending().take(k) + v.pending().skip(k));
    assert(t.buffered + t.pending() =~= v.buffered + v.pending());
    assert(t.yielded + t.buffered + t.pending() =~= v.yielded + v.buffered + v.pending());
    if v.buffered.len() == v.target || v.pending().len() == 0 {
        assert(t.buffered =~= v.buffered);
        assert(t =~= v);
    }
}

/// A fill cycle begins by topping up from the frame at hand.
pub proof fn lemma_fill_begin(pre: StreamView)
    requires
        pre.wf(),
    ensures
        fill_in_progress(pre, topped_up(pre)),
{
    let now = topped_up(pre);
    lemma_topped_up(pre);
    let fresh = now.received.skip(pre.received.len() as int);
    assert(fresh =~= Seq::<Frame>::empty());
    lemma_samples_of_empty(fresh);
    assert(now.received.take(pre.received.len() as int) =~= pre.received);
    assert(now.queued() =~= pre.queued() + samples_of(fresh));
}

/// Each answer to a request for a frame takes the fill cycle one step on
/// and leaves less to do.
pub proof fn lemma_fill_step(pre: StreamView, now: StreamView, next: Option<Frame>)
    requires
        fill_in_progress(pre, now),
        now.needs_frame(),
        next matches Some(f) ==> f.data@.len() > 0,
    ensures
        fill_in_progress(pre, accepted(now, next)),
        fill_measure(accepted(now, next)) < fill_measure(now),
{
    let then = accepted(now, next);
    let fresh = now.received.skip(pre.received.len() as int);
    match next {
        Some(f) => {
            let installed = StreamView { received: now.received.push(f), cursor: 0, ..now };
            lemma_samples_of_push(now.received, f);
            assert(installed.pending() =~= f.data@);
            assert(installed.yielded + installed.buffered + installed.pending() =~= (now.yielded
                + now.buffered + now.pending()) + f.data@);
            assert(installed.wf());
            lemma_topped_up(installed);
            let fresh_then = then.received.skip(pre.received.len() as int);
            assert(fresh_then =~= fresh.push(f));
            lemma_samples_of_push(fresh, f);
            assert(then.received.take(pre.received.len() as int) =~= now.received.take(
                pre.received.len() as int,
            ));
            assert(installed.queued() =~= now.queued() + f.data@);
            assert(then.queued() =~= pre.queued() + samples_of(fresh_then));
            assert forall|i: int| 0 <= i < fresh_then.len() implies pre.queued().len() + (
            #[trigger] samples_of(fresh_then.take(i))).len() < pre.target by {
                if i < fresh.len() {
                    assert(fresh_then.take(i) =~= fresh.take(i));
                } else {
                    assert(fresh_then.take(i) =~= fresh);
                }
            }
        },
        None => {
            assert(then.received == now.received);
        },
    }
}

/// When no further frame is needed, the fill cycle is complete.
pub proof fn lemma_fill_end(pre: StreamView, now: StreamView)
    requires
        fill_in_progress(pre, now),
        !now.needs_frame(),
    ensures
        fills(pre, now),
        now.buffered.len() == now.target || now.exhausted,
{
    let fresh = now.received.skip(pre.received.len() as int);
    let ended = now.exhausted && !pre.exhausted;
    let at_hand = pre.queued() + samples_of(fresh);
    assert(now.received =~= pre.received + fresh) by {
        assert(now.received.take(pre.received.len() as int) == pre.received);
    }
    assert(now.queued() == at_hand);
    assert(now.buffered =~= at_hand.take(now.buffered.len() as int));
    assert(now.pending() =~= at_hand.skip(now.buffered.len() as int));
    if pre.exhausted {
        assert(fresh.len() == 0);
    }
    assert(fill_admits(pre, fresh, ended));
    assert(now =~= after_fill(pre, fresh, ended));
}

/// A bounded queue of samples, the frame it is being filled from, and the
/// cursor into that frame.
pub struct StreamBuffer {
    current_frame: Frame,
    current_frame_offset: usize,
    buffer: VecDeque<i16>,
    buffer_size: usize,
    exhausted: bool,
    received: Ghost<Seq<Frame>>,
    yielded: Ghost<Seq<i16>>,
}

impl View for StreamBuffer {
    type V = StreamView;

    closed spec fn view(&self) -> StreamView {
        StreamView {
            received: self.received@,
            yielded: self.yielded@,
            buffered: self.buffer@,
            cursor: self.current_frame_offset as nat,
            target: self.buffer_size as nat,
            exhausted: self.exhausted,
        }
    }
}

impl StreamBuffer {
    /// The bookkeeping of the view is sound and the frame held is the last
    /// one received.
    pub closed spec fn wf(&self) -> bool {
        &&& self@.wf()
        &&& self.current_frame == self@.frame()
    }

    /// What `wf` says to the outside.
    pub proof fn lemma_wf(&self)
        requires
            self.wf(),
        ensures
            self@.wf(),
    {
    }

    /// A queue with room for `buffer_size` samples that holds `first` as its
    /// current frame and has taken nothing from it yet.
    pub fn new(first: Frame, buffer_size: usize) -> (made: Self)
        ensures
            made.wf(),
            made@ == initial_view(first, buffer_size as nat),
    {
        let made = StreamBuffer {
            current_frame: first,
            current_frame_offset: 0,
            buffer: VecDeque::with_capacity(buffer_size),
            buffer_size,
            exhausted: false,
            received: Ghost(Seq::empty().push(first)),
            yielded: Ghost(Seq::empty()),
        };
        proof {
            lemma_samples_of_empty(Seq::<Frame>::empty());
            lemma_samples_of_push(Seq::<Frame>::empty(), first);
            assert(Seq::<Frame>::empty().push(first) =~= seq![first]);
            assert(made@.yielded + made@.buffered + made@.pending() =~= first.data@);
            assert(made@ =~= initial_view(first, buffer_size as nat));
        }
        made
    }

    /// Whether a fill cycle has to ask for a frame before it can go on.
    pub fn needs_frame(&self) -> (needed: bool)
        requires
            self.wf(),
        ensures
            needed == self@.needs_frame(),
    {
        self.buffer.len() < self.buffer_size && self.current_frame_offset
            == self.current_frame.data.len() && !self.exhausted
    }

    /// Moves samples of the current frame into the queue, one at a time,
    /// until the queue is at its target or the frame is used up.
    pub fn top_up(&mut self)
        requires
            old(self).wf(),
        ensures
            final(self).wf(),
            final(self)@ == topped_up(old(self)@),
    {
        let ghost pre = self@;
        while self.current_frame_offset < self.current_frame.data.len() && self.buffer.len()
            < self.buffer_size
            invariant
                pre == old(self)@,
                pre.wf(),
                self.wf(),
                self.current_frame == old(self).current_frame,
                self@.received == pre.received,
                self@.yielded == pre.yielded,
                self@.target == pre.target,
                self@.exhausted == pre.exhausted,
                self@.cursor >= pre.cursor,
                self@.buffered == pre.buffered + pre.pending().take(self@.cursor - pre.cursor),
            decreases self.current_frame.data.len() - self.current_frame_offset,
        {
            let ghost before = self@;
            let sample = self.current_frame.data[self.current_frame_offset];
            self.buffer.push_back(sample);
            self.current_frame_offset += 1;
            proof {
                assert(before.pending() =~= seq![sample] + self@.pending());
                assert(self@.yielded + self@.buffered + self@.pending() =~= before.yielded
                    + before.buffered + before.pending());
                assert(self@.buffered =~= pre.buffered + pre.pending().take(
                    self@.cursor - pre.cursor,
                ));
            }
        }
        proof {
            assert(pre.pending().take(0) =~= Seq::<i16>::empty());
            assert(self@ =~= topped_up(pre));
        }
    }

    /// Takes in the answer to a request for a frame. A frame becomes the
    /// current one and the queue is topped up from it; no frame marks the
    /// end, after which no more is asked for.
    pub fn accept(&mut self, next: Option<Frame>)
        requires
            old(self).wf(),
            old(self)@.needs_frame(),
        ensures
            final(self).wf(),
            final(self)@ == accepted(old(self)@, next),
    {
        let ghost pre = self@;
        match next {
            Some(frame) => {
                self.current_frame = frame;
                self.current_frame_offset = 0;
                proof {
                    self.received = Ghost(self.received@.push(frame));
                    lemma_samples_of_push(pre.received, frame);
                    assert(self@.pending() =~= frame.data@);
                    assert(self@.yielded + self@.buffered + self@.pending() =~= (pre.yielded
                        + pre.buffered + pre.pending()) + frame.data@);
                    assert(self@ =~= (StreamView {
                        received: pre.received.push(frame),
                        cursor: 0,
                        ..pre
                    }));
                }
                self.top_up();
            },
            None => {
                self.exhausted = true;
                proof {
                    assert(self@ =~= (StreamView { exhausted: true, ..pre }));
                }
            },
        }
    }

    /// Takes the sample at the head of the queue, if there is one.
    pub fn pop(&mut self) -> (sample: Option<i16>)
        requires
            old(self).wf(),
        ensures
            final(self).wf(),
            sample == front(old(self)@),
            final(self)@ == after_pop(old(self)@),
    {
        let ghost pre = self@;
        let sample = self.buffer.pop_front();
        proof {
            if sample is Some {
                let s = sample->Some_0;
                self.yielded = Ghost(self.yielded@.push(s));
                assert(pre.buffered =~= seq![s] + self@.buffered);
                assert(self@.yielded + self@.buffered + self@.pending() =~= pre.yielded
                    + pre.buffered + pre.pending());
                assert(self@.buffered =~= pre.buffered.drop_first());
            }
            assert(self@ =~= after_pop(pre));
        }
        sample
    }

    /// The number of samples waiting in the queue.
    pub fn len(&self) -> (len: usize)
        ensures
            len == self@.buffered.len(),
    {
        self.buffer.len()
    }

    /// How many samples of the current frame have been moved to the queue.
    pub fn cursor(&self) -> (offset: usize)
        ensures
            offset == self@.cursor,
    {
        self.current_frame_offset
    }

    /// The channel count of the current frame.
    pub fn channels(&self) -> (count: u16)
        requires
            self.wf(),
        ensures
            count == self@.frame().channels as u16,
    {
        self.current_frame.channels as u16
    }

    /// The sample rate of the current frame.
    pub fn sample_rate(&self) -> (rate: u32)
        requires
            self.wf(),
        ensures
            rate == self@.frame().sample_rate as u32,
    {
        self.current_frame.sample_rate as u32
    }
}

} // verus!
