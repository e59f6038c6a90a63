//! What holds of every decode buffer, stated over its view and proved from
//! the definitions of a fill cycle and of a pull.

use crate::frame::{lemma_samples_of_empty, sample_blocks, samples_of, Frame};
use crate::stream_buffer::{
    after_fill, after_pop, fill_admits, fills, initial_view, pulls, StreamView,
};
use vstd::prelude::*;
use vstd::seq_lib::lemma_flatten_concat;

verus! {

/// The samples of two runs of frames laid end to end are the samples of the
/// first run followed by those of the second.
pub proof fn lemma_samples_of_concat(a: Seq<Frame>, b: Seq<Frame>)
    ensures
        samples_of(a + b) == samples_of(a) + samples_of(b),
{
    assert(sample_blocks(a + b) =~= sample_blocks(a) + sample_blocks(b));
    lemma_flatten_concat(sample_blocks(a), sample_blocks(b));
}

/// Frames that each hold a sample hold at least as many samples as there
/// are frames.
pub proof fn lemma_samples_at_least_frames(frames: Seq<Frame>)
    requires
        forall|i: int| 0 <= i < frames.len() ==> (#[trigger] frames[i]).data@.len() > 0,
    ensures
        samples_of(frames).len() >= frames.len(),
    decreases frames.len(),
{
    if frames.len() == 0 {
        lemma_samples_of_empty(frames);
    } else {
        let head = frames.drop_last();
        lemma_samples_at_least_frames(head);
        assert(frames =~= head + seq![frames.last()]);
        lemma_samples_of_concat(head, seq![frames.last()]);
        lemma_samples_of_single(frames.last());
    }
}

/// A single frame's samples are its own block.
pub proof fn lemma_samples_of_single(frame: Frame)
    ensures
        samples_of(seq![frame]) == frame.data@,
{
    assert(sample_blocks(seq![frame]) =~= seq![frame.data@]);
    seq![frame.data@].lemma_flatten_singleton();
}

/// A fill cycle always ends, and ends well. From a sound state it leaves a
/// sound state with the queue at its target, or with the source exhausted
/// and everything at hand in the queue. It hands nothing out, and it takes
/// no more frames from the source than samples were missing when it began.
pub proof fn lemma_fill_reaches_target_or_end(pre: StreamView, post: StreamView)
    requires
        pre.wf(),
        fills(pre, post),
    ensures
        post.wf(),
        post.buffered.len() == post.target || (post.exhausted && post.pending().len() == 0),
        post.yielded == pre.yielded,
        post.target == pre.target,
        post.queued() == pre.queued() + samples_of(post.received.skip(pre.received.len() as int)),
        post.received.len() - pre.received.len() <= pre.target - pre.buffered.len(),
        pre.exhausted || pre.buffered.len() == pre.target ==> post == pre,
{
    let fresh = post.received.skip(pre.received.len() as int);
    let ended = post.exhausted && !pre.exhausted;
    let at_hand = pre.queued() + samples_of(fresh);
    let n = if at_hand.len() <= pre.target {
        at_hand.len()
    } else {
        pre.target
    };
    let last = post.received.last();
    lemma_samples_of_concat(pre.received, fresh);
    assert(post.received == pre.received + fresh);
    if fresh.len() == 0 {
        lemma_samples_of_empty(fresh);
        assert(post.received =~= pre.received);
        assert(at_hand =~= pre.queued());
        assert(post.pending() =~= at_hand.skip(n as int));
    } else {
        let head = fresh.drop_last();
        assert(fresh =~= head + seq![fresh.last()]);
        lemma_samples_of_concat(head, seq![fresh.last()]);
        lemma_samples_of_single(fresh.last());
        assert(fresh.take(fresh.len() - 1) =~= head);
        assert(pre.queued().len() + samples_of(fresh.take(fresh.len() - 1)).len() < pre.target);
        assert(last == fresh.last());
        assert(at_hand =~= (pre.queued() + samples_of(head)) + last.data@);
        assert(post.pending() =~= at_hand.skip(n as int));
        assert forall|i: int| 0 <= i < head.len() implies (#[trigger] head[i]).data@.len()
            > 0 by {
            assert(head[i] == fresh[i]);
        }
        lemma_samples_at_least_frames(head);
    }
    assert(post.buffered + post.pending() =~= at_hand);
    assert(post.yielded + post.buffered + post.pending() =~= pre.yielded + pre.buffered
        + pre.pending() + samples_of(fresh));
    if pre.exhausted || pre.buffered.len() == pre.target {
        assert(fresh.len() == 0);
        assert(post.buffered =~= pre.buffered);
        assert(post =~= pre);
    }
}

/// No sample is lost, repeated or reordered by a pull. From a sound state a
/// pull leaves a sound state; a sample it hands out is the next one of the
/// frames received, and it reports none only when none is queued any more.
pub proof fn lemma_pull_keeps_every_sample(pre: StreamView, post: StreamView, sample: Option<i16>)
    requires
        pre.wf(),
        pulls(pre, post, sample),
    ensures
        post.wf(),
        post.target == pre.target,
        match sample {
            Some(s) => {
                &&& post.yielded == pre.yielded.push(s)
                &&& s == samples_of(post.received)[pre.yielded.len() as int]
            },
            None => post.yielded == pre.yielded && post.buffered.len() == 0,
        },
        pre.buffered.len() > 0 ==> sample == Some(pre.buffered[0]) && post.received == pre.received,
{
    let fresh = post.received.skip(pre.received.len() as int);
    let ended = post.exhausted && !pre.exhausted;
    let mid = if pre.buffered.len() > 0 {
        pre
    } else {
        after_fill(pre, fresh, ended)
    };
    if pre.buffered.len() == 0 {
        assert(mid.received =~= post.received) by {
            assert(post.received == after_pop(mid).received);
        }
        assert(mid.exhausted == post.exhausted);
        assert(fills(pre, mid)) by {
            assert(mid.received.skip(pre.received.len() as int) == fresh);
            assert((mid.exhausted && !pre.exhausted) == ended);
        }
        lemma_fill_reaches_target_or_end(pre, mid);
    } else {
        assert(post.received == pre.received);
    }
    assert(mid.wf());
    if mid.buffered.len() > 0 {
        let s = mid.buffered[0];
        assert(mid.buffered =~= seq![s] + post.buffered);
        assert(post.yielded + post.buffered + post.pending() =~= mid.yielded + mid.buffered
            + mid.pending());
        assert(samples_of(post.received) == mid.yielded + mid.buffered + mid.pending());
    }
}

/// At every moment the samples handed out so far are the first samples of
/// the frames received, in order, and what is still queued is the rest.
pub proof fn lemma_yielded_is_prefix_of_frames(v: StreamView)
    requires
        v.wf(),
    ensures
        v.yielded == samples_of(v.received).take(v.yielded.len() as int),
        v.queued() == samples_of(v.received).skip(v.yielded.len() as int),
{
    let all = samples_of(v.received);
    assert(all == v.yielded + v.buffered + v.pending());
    assert(all.take(v.yielded.len() as int) =~= v.yielded);
    assert(all.skip(v.yielded.len() as int) =~= v.queued());
}

/// With a target above zero, a pull reports no sample only when the source
/// is exhausted and every sample of every frame received has been handed
/// out.
pub proof fn lemma_none_means_all_yielded(pre: StreamView, post: StreamView)
    requires
        pre.wf(),
        pre.target > 0,
        pulls(pre, post, None),
    ensures
        post.is_finished(),
        post.yielded == samples_of(post.received),
{
    lemma_pull_keeps_every_sample(pre, post, None);
    let fresh = post.received.skip(pre.received.len() as int);
    let ended = post.exhausted && !pre.exhausted;
    assert(pre.buffered.len() == 0);
    let mid = after_fill(pre, fresh, ended);
    assert(post == mid);
    assert(fills(pre, post));
    lemma_fill_reaches_target_or_end(pre, post);
    assert(post.yielded + post.buffered + post.pending() =~= post.yielded);
}

/// Exhaustion is final: once a pull has reported no sample, the next pull
/// reports none either and changes nothing.
pub proof fn lemma_exhaustion_is_final(
    a: StreamView,
    b: StreamView,
    c: StreamView,
    second: Option<i16>,
)
    requires
        a.wf(),
        pulls(a, b, None),
        pulls(b, c, second),
    ensures
        second is None,
        c == b,
{
    lemma_pull_keeps_every_sample(a, b, None);
    assert(a.buffered.len() == 0);
    let fresh_a = b.received.skip(a.received.len() as int);
    let ended_a = b.exhausted && !a.exhausted;
    assert(b == after_fill(a, fresh_a, ended_a));
    assert(fills(a, b));
    lemma_fill_reaches_target_or_end(a, b);
    let fresh = c.received.skip(b.received.len() as int);
    let ended = c.exhausted && !b.exhausted;
    let mid = after_fill(b, fresh, ended);
    assert(fill_admits(b, fresh, ended));
    if b.target == 0 {
        if fresh.len() > 0 {
            assert(b.queued().len() + samples_of(fresh.take(0)).len() < b.target);
        }
    } else {
        assert(b.exhausted);
    }
    assert(fresh.len() == 0);
    assert(!ended);
    lemma_samples_of_empty(fresh);
    assert(b.received + fresh =~= b.received);
    assert(b.queued() + samples_of(fresh) =~= b.queued());
    assert(mid.buffered =~= b.buffered);
    assert(mid =~= b);
    assert(c == after_pop(mid));
}

/// A finished buffer stays finished: a pull on it reports no sample and
/// changes nothing.
pub proof fn lemma_finished_stays_finished(pre: StreamView, post: StreamView, sample: Option<i16>)
    requires
        pre.wf(),
        pre.is_finished(),
        pulls(pre, post, sample),
    ensures
        sample is None,
        post == pre,
{
    let fresh = post.received.skip(pre.received.len() as int);
    let ended = post.exhausted && !pre.exhausted;
    let mid = after_fill(pre, fresh, ended);
    assert(fresh.len() == 0);
    lemma_samples_of_empty(fresh);
    assert(pre.received + fresh =~= pre.received);
    assert(pre.queued() + samples_of(fresh) =~= pre.queued());
    assert(mid.buffered =~= pre.buffered);
    assert(mid =~= pre);
}

/// Right after construction the current frame, and with it the channel
/// count and the sample rate, is the first frame decoded, provided that
/// frame alone holds enough samples to meet the target.
pub proof fn lemma_first_frame_sets_metadata(first: Frame, target: nat, v: StreamView)
    requires
        fills(initial_view(first, target), v),
        first.data@.len() >= target,
    ensures
        v.received == seq![first],
        v.frame() == first,
{
    let pre = initial_view(first, target);
    let fresh = v.received.skip(pre.received.len() as int);
    assert(pre.queued() =~= first.data@);
    if fresh.len() > 0 {
        assert(pre.queued().len() + samples_of(fresh.take(0)).len() < pre.target);
    }
    assert(v.received =~= seq![first]);
}

/// A freshly built buffer is sound, has handed nothing out, and the first
/// frame it received is the one it was built from.
pub proof fn lemma_construction_is_sound(first: Frame, target: nat, v: StreamView)
    requires
        fills(initial_view(first, target), v),
    ensures
        v.wf(),
        v.target == target,
        v.yielded.len() == 0,
        v.received[0] == first,
        v.buffered.len() == target || (v.exhausted && v.pending().len() == 0),
{
    let pre = initial_view(first, target);
    lemma_samples_of_single(first);
    assert(pre.yielded + pre.buffered + pre.pending() =~= first.data@);
    assert(pre.wf());
    lemma_fill_reaches_target_or_end(pre, v);
    assert(v.received == pre.received + v.received.skip(1));
}

/// The states and results of a run of pulls, one after another.
pub open spec fn is_run(states: Seq<StreamView>, samples: Seq<Option<i16>>) -> bool {
    &&& states.len() == samples.len() + 1
    &&& forall|i: int|
        0 <= i < samples.len() ==> pulls(#[trigger] states[i], states[i + 1], samples[i])
}

/// The samples among the results of a run of pulls, in order.
pub open spec fn yielded_by(samples: Seq<Option<i16>>) -> Seq<i16>
    decreases samples.len(),
{
    if samples.len() == 0 {
        Seq::empty()
    } else {
        match samples.last() {
            Some(s) => yielded_by(samples.drop_last()).push(s),
            None => yielded_by(samples.drop_last()),
        }
    }
}

/// Over any run of pulls, whatever the target, the samples handed out are
/// exactly the next samples of the frames received, in order: none is
/// dropped, none comes twice.
pub proof fn lemma_run_yields_frames_in_order(states: Seq<StreamView>, samples: Seq<Option<i16>>)
    requires
        is_run(states, samples),
        states[0].wf(),
    ensures
        states.last().wf(),
        states.last().yielded == states[0].yielded + yielded_by(samples),
        states.last().yielded + states.last().queued() == samples_of(states.last().received),
    decreases samples.len(),
{
    if samples.len() == 0 {
        assert(states[0].yielded + yielded_by(samples) =~= states[0].yielded);
        assert(states.last() == states[0]);
    } else {
        let k = samples.len() - 1;
        let head_states = states.drop_last();
        let head_samples = samples.drop_last();
        assert(is_run(head_states, head_samples)) by {
            assert forall|i: int| 0 <= i < head_samples.len() implies pulls(
                #[trigger] head_states[i],
                head_states[i + 1],
                head_samples[i],
            ) by {
                assert(pulls(states[i], states[i + 1], samples[i]));
            }
        }
        lemma_run_yields_frames_in_order(head_states, head_samples);
        assert(head_states.last() == states[k]);
        assert(pulls(states[k], states[k + 1], samples[k]));
        lemma_pull_keeps_every_sample(states[k], states[k + 1], samples[k]);
        match samples[k] {
            Some(s) => {
                assert(states[0].yielded + yielded_by(samples) =~= (states[0].yielded + yielded_by(
                    head_samples,
                )).push(s));
            },
            None => {},
        }
    }
    let v = states.last();
    assert(v.yielded + v.queued() =~= v.yielded + v.buffered + v.pending());
}

/// A stream pulled to its end has given up every sample: over a run of
/// pulls on a freshly built buffer with a target above zero, once a pull
/// reports no sample, the samples handed out are those of all the frames
/// received, end to end, and there are as many of them as the frames hold.
pub proof fn lemma_drained_run_yields_all_frames(
    first: Frame,
    target: nat,
    states: Seq<StreamView>,
    samples: Seq<Option<i16>>,
)
    requires
        target > 0,
        fills(initial_view(first, target), states[0]),
        is_run(states, samples),
        samples.len() > 0,
        samples.last() is None,
    ensures
        states.last().is_finished(),
        states.last().received[0] == first,
        yielded_by(samples) == samples_of(states.last().received),
{
    lemma_construction_is_sound(first, target, states[0]);
    lemma_run_yields_frames_in_order(states, samples);
    let k = samples.len() - 1;
    let head_states = states.drop_last();
    let head_samples = samples.drop_last();
    assert(is_run(head_states, head_samples)) by {
        assert forall|i: int| 0 <= i < head_samples.len() implies pulls(
            #[trigger] head_states[i],
            head_states[i + 1],
            head_samples[i],
        ) by {
            assert(pulls(states[i], states[i + 1], samples[i]));
        }
    }
    lemma_run_keeps_target_and_first_frame(head_states, head_samples);
    lemma_run_keeps_target_and_first_frame(states, samples);
    assert(head_states.last() == states[k]);
    assert(pulls(states[k], states[k + 1], samples[k]));
    lemma_none_means_all_yielded(states[k], states[k + 1]);
    assert(states[0].yielded + yielded_by(samples) =~= yielded_by(samples));
}

/// A run of pulls changes neither the target nor the frames already
/// received.
pub proof fn lemma_run_keeps_target_and_first_frame(
    states: Seq<StreamView>,
    samples: Seq<Option<i16>>,
)
    requires
        is_run(states, samples),
        states[0].wf(),
    ensures
        states.last().wf(),
        states.last().target == states[0].target,
        states.last().received.len() >= states[0].received.len(),
        states.last().received.take(states[0].received.len() as int) == states[0].received,
    decreases samples.len(),
{
    if samples.len() == 0 {
        assert(states.last() == states[0]);
        assert(states[0].received.take(states[0].received.len() as int) =~= states[0].received);
    } else {
        let k = samples.len() - 1;
        let head_states = states.drop_last();
        let head_samples = samples.drop_last();
        assert(is_run(head_states, head_samples)) by {
            assert forall|i: int| 0 <= i < head_samples.len() implies pulls(
                #[trigger] head_states[i],
                head_states[i + 1],
                head_samples[i],
            ) by {
                assert(pulls(states[i], states[i + 1], samples[i]));
            }
        }
        lemma_run_keeps_target_and_first_frame(head_states, head_samples);
        assert(head_states.last() == states[k]);
        assert(pulls(states[k], states[k + 1], samples[k]));
        lemma_pull_keeps_every_sample(states[k], states[k + 1], samples[k]);
        let pre = states[k];
        let post = states[k + 1];
        let fresh = post.received.skip(pre.received.len() as int);
        assert(post.received =~= pre.received + fresh);
        assert(post.received.take(states[0].received.len() as int) =~= pre.received.take(
            states[0].received.len() as int,
        ));
    }
}

/// How many of the frames `to_come` a fill cycle takes when it starts
/// `short` samples short of what it needs: frames one after the other until
/// their samples make up for what is short, or all of them.
pub open spec fn frames_needed(short: int, to_come: Seq<Frame>) -> nat
    decreases to_come.len(),
{
    if short <= 0 || to_come.len() == 0 {
        0
    } else {
        1 + frames_needed(short - to_come[0].data@.len(), to_come.drop_first())
    }
}

/// The first `taken` of the frames `to_come` are the frames needed if each
/// of them was needed and either no frame is left or no more is needed.
pub proof fn lemma_frames_needed(short: int, to_come: Seq<Frame>, taken: int)
    requires
        0 <= taken <= to_come.len(),
        forall|i: int| 0 <= i < taken ==> (#[trigger] samples_of(to_come.take(i))).len() < short,
        taken == to_come.len() || samples_of(to_come.take(taken)).len() >= short,
    ensures
        frames_needed(short, to_come) == taken,
    decreases to_come.len(),
{
    lemma_samples_of_empty(to_come.take(0));
    if taken == 0 {
    } else {
        assert(samples_of(to_come.take(0)).len() < short);
        let rest = to_come.drop_first();
        assert forall|i: int| 0 <= i <= rest.len() implies (#[trigger] samples_of(
            to_come.take(i + 1),
        )) == to_come[0].data@ + samples_of(rest.take(i)) by {
            assert(to_come.take(i + 1) =~= seq![to_come[0]] + rest.take(i));
            lemma_samples_of_concat(seq![to_come[0]], rest.take(i));
            lemma_samples_of_single(to_come[0]);
        }
        assert forall|i: int| 0 <= i < taken - 1 implies (#[trigger] samples_of(
            rest.take(i),
        )).len() < short - to_come[0].data@.len() by {
            assert(samples_of(to_come.take(i + 1)).len() < short);
        }
        if taken - 1 < rest.len() {
            assert(samples_of(to_come.take(taken - 1 + 1)) == to_come[0].data@ + samples_of(
                rest.take(taken - 1),
            ));
        }
        lemma_frames_needed(short - to_come[0].data@.len(), rest, taken - 1);
    }
}

/// Where the frames to come are settled, a fill cycle is settled too: it
/// takes the frames needed to make up for what the queue is short, no more
/// and no fewer, and finds the source exhausted exactly when all the frames
/// to come do not make up for it.
pub proof fn lemma_fill_is_determined(pre: StreamView, post: StreamView, to_come: Seq<Frame>)
    requires
        pre.wf(),
        !pre.exhausted,
        fills(pre, post),
        post.received.len() - pre.received.len() <= to_come.len(),
        post.received.skip(pre.received.len() as int) == to_come.take(
            post.received.len() - pre.received.len(),
        ),
        post.exhausted ==> post.received.len() - pre.received.len() == to_come.len(),
    ensures
        post.received.len() - pre.received.len() == frames_needed(
            pre.target - pre.queued().len(),
            to_come,
        ),
        post.exhausted <==> pre.queued().len() + samples_of(to_come).len() < pre.target,
        post == after_fill(
            pre,
            to_come.take(frames_needed(pre.target - pre.queued().len(), to_come) as int),
            pre.queued().len() + samples_of(to_come).len() < pre.target,
        ),
{
    let taken = post.received.len() - pre.received.len();
    let fresh = post.received.skip(pre.received.len() as int);
    let short = pre.target - pre.queued().len();
    assert forall|i: int| 0 <= i < taken implies (#[trigger] samples_of(to_come.take(i))).len()
        < short by {
        assert(fresh.take(i) =~= to_come.take(i));
        assert(pre.queued().len() + samples_of(fresh.take(i)).len() < pre.target);
    }
    if post.exhausted {
        assert(to_come.take(taken) =~= to_come);
    } else {
        assert(samples_of(to_come.take(taken)).len() >= short);
        if pre.queued().len() + samples_of(to_come).len() < pre.target {
            assert(to_come =~= to_come.take(taken) + to_come.skip(taken));
            lemma_samples_of_concat(to_come.take(taken), to_come.skip(taken));
        }
    }
    lemma_frames_needed(short, to_come, taken);
}

} // verus!
