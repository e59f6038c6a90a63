//! Decoded frames and the sources that produce them.

use vstd::prelude::*;

verus! {

/// One decoded frame: a block of interleaved samples together with the stream
/// parameters that the codec reported for that block.
#[derive(Debug, Clone)]
pub struct Frame {
    /// Interleaved samples, one value per channel per instant.
    pub data: Vec<i16>,
    /// Sample rate in hertz.
    pub sample_rate: i32,
    /// Number of interleaved channels.
    pub channels: usize,
    /// MPEG layer of the frame.
    pub layer: usize,
    /// Bit rate of the frame in kb/s.
    pub bitrate: i32,
}

/// The sample blocks of a run of frames, in order.
pub open spec fn sample_blocks(frames: Seq<Frame>) -> Seq<Seq<i16>> {
    Seq::new(frames.len(), |i: int| frames[i].data@)
}

/// All samples of a run of frames: the blocks laid end to end.
pub open spec fn samples_of(frames: Seq<Frame>) -> Seq<i16> {
    sample_blocks(frames).flatten()
}

/// Appending a frame appends its samples.
pub proof fn lemma_samples_of_push(frames: Seq<Frame>, frame: Frame)
    ensures
        samples_of(frames.push(frame)) == samples_of(frames) + frame.data@,
{
    assert(sample_blocks(frames.push(frame)) =~= sample_blocks(frames).push(frame.data@));
    sample_blocks(frames).lemma_flatten_push(frame.data@);
}

/// No frames, no samples.
pub proof fn lemma_samples_of_empty(frames: Seq<Frame>)
    requires
        frames.len() == 0,
    ensures
        samples_of(frames).len() == 0,
{
    assert(sample_blocks(frames) =~= Seq::<Seq<i16>>::empty());
}

/// Something that decodes one frame at a time and says so when it has none.
///
/// A source never hands out a frame without samples, which is what bounds
/// the work of whoever asks it for frames until a quota of samples is met.
pub trait FrameSource {
    /// Every frame handed out so far, oldest first.
    spec fn delivered(&self) -> Seq<Frame>;

    /// The frames still to come, in order, where that is settled already;
    /// nothing where it depends on what has yet to be read.
    spec fn upcoming(&self) -> Option<Seq<Frame>>;

    /// Decodes the next frame, or reports that there is none to be had.
    /// Where the frames to come are settled, the answer is the first of
    /// them, and the others are still to come.
    fn next_frame(&mut self) -> (frame: Option<Frame>)
        ensures
            match frame {
                Some(f) => {
                    &&& f.data@.len() > 0
                    &&& final(self).delivered() == old(self).delivered().push(f)
                },
                None => {
                    &&& final(self).delivered() == old(self).delivered()
                    &&& final(self).upcoming() matches Some(rest) ==> rest.len() == 0
                },
            },
            old(self).upcoming() matches Some(frames) ==> answers(
                frames,
                frame,
                final(self).upcoming(),
            ),
    ;
}

/// Whether `frame` and `rest` are what a source with `frames` to come
/// answers and is left with.
pub open spec fn answers(
    frames: Seq<Frame>,
    frame: Option<Frame>,
    rest: Option<Seq<Frame>>,
) -> bool {
    if frames.len() > 0 {
        frame == Some(frames[0]) && rest == Some(frames.drop_first())
    } else {
        frame is None && rest == Some(frames)
    }
}

/// A frame source over frames that are already in memory.
pub struct FrameList {
    /// Frames not yet handed out; the next one is the last element.
    stack: Vec<Frame>,
    delivered: Ghost<Seq<Frame>>,
}

/// Index of the first frame that holds a sample, or `frames.len()` if none does.
pub open spec fn first_nonempty(frames: Seq<Frame>) -> int
    decreases frames.len(),
{
    if frames.len() == 0 || frames[0].data@.len() > 0 {
        0
    } else {
        1 + first_nonempty(frames.drop_first())
    }
}

/// The frames that hold a sample, in order.
pub open spec fn with_samples(frames: Seq<Frame>) -> Seq<Frame>
    decreases frames.len(),
{
    if frames.len() == 0 {
        frames
    } else if frames[0].data@.len() > 0 {
        seq![frames[0]] + with_samples(frames.drop_first())
    } else {
        with_samples(frames.drop_first())
    }
}

/// The frames that hold a sample begin with the first such frame and go on
/// with those after it.
pub proof fn lemma_with_samples_from_first(frames: Seq<Frame>)
    ensures
        0 <= first_nonempty(frames) <= frames.len(),
        first_nonempty(frames) < frames.len() ==> frames[first_nonempty(frames)].data@.len() > 0
            && with_samples(frames) == seq![frames[first_nonempty(frames)]] + with_samples(
            frames.skip(first_nonempty(frames) + 1),
        ),
        first_nonempty(frames) == frames.len() ==> with_samples(frames).len() == 0,
    decreases frames.len(),
{
    if frames.len() == 0 {
    } else if frames[0].data@.len() > 0 {
        assert(frames.skip(1) =~= frames.drop_first());
    } else {
        let rest = frames.drop_first();
        lemma_with_samples_from_first(rest);
        let k = first_nonempty(rest);
        if k < rest.len() {
            assert(rest[k] == frames[k + 1]);
            assert(rest.skip(k + 1) =~= frames.skip(k + 2));
        }
    }
}

impl FrameList {
    /// The frames not yet handed out, next one first.
    pub closed spec fn remaining(&self) -> Seq<Frame> {
        Seq::new(self.stack@.len(), |i: int| self.stack@[self.stack@.len() - 1 - i])
    }

    /// A source that will hand out `frames` in order, passing over those
    /// without samples.
    pub fn new(frames: Vec<Frame>) -> (list: FrameList)
        ensures
            list.remaining() == frames@,
            list.upcoming() == Some(with_samples(frames@)),
            list.delivered().len() == 0,
    {
        let mut frames = frames;
        let ghost all = frames@;
        let mut stack: Vec<Frame> = Vec::new();
        while frames.len() > 0
            invariant
                frames@.len() + stack@.len() == all.len(),
                frames@ == all.subrange(0, frames@.len() as int),
                forall|i: int| 0 <= i < stack@.len() ==> stack@[i] == all[all.len() - 1 - i],
            decreases frames@.len(),
        {
            let top = frames.pop();
            match top {
                Some(f) => {
                    stack.push(f);
                },
                None => {},
            }
        }
        let list = FrameList { stack, delivered: Ghost(Seq::empty()) };
        assert(list.remaining() =~= all);
        list
    }
}

impl FrameSource for FrameList {
    closed spec fn delivered(&self) -> Seq<Frame> {
        self.delivered@
    }

    open spec fn upcoming(&self) -> Option<Seq<Frame>> {
        Some(with_samples(self.remaining()))
    }

    /// Hands out the first remaining frame that holds a sample and drops
    /// the empty ones before it.
    fn next_frame(&mut self) -> (frame: Option<Frame>)
        ensures
            ({
                let k = first_nonempty(old(self).remaining());
                match frame {
                    Some(f) => k < old(self).remaining().len() && f == old(self).remaining()[k]
                        && final(self).remaining() == old(self).remaining().skip(k + 1),
                    None => k == old(self).remaining().len() && final(self).remaining().len() == 0,
                }
            }),
    {
        let ghost start = self.remaining();
        proof {
            lemma_with_samples_from_first(start);
        }
        loop
            invariant
                start == old(self).remaining(),
                self.delivered@ == old(self).delivered@,
                0 <= start.len() - self.remaining().len() <= start.len(),
                self.remaining() == start.skip(start.len() - self.remaining().len()),
                first_nonempty(start) == (start.len() - self.remaining().len()) + first_nonempty(
                    self.remaining(),
                ),
                0 <= first_nonempty(start) <= start.len(),
                first_nonempty(start) < start.len() ==> with_samples(start) == seq![
                    start[first_nonempty(start)],
                ] + with_samples(start.skip(first_nonempty(start) + 1)),
                first_nonempty(start) == start.len() ==> with_samples(start).len() == 0,
            decreases self.stack@.len(),
        {
            let ghost before = self.remaining();
            let top = self.stack.pop();
            match top {
                None => {
                    assert(before.len() == 0);
                    assert(with_samples(self.remaining()) =~= with_samples(start));
                    return None;
                },
                Some(f) => {
                    assert(f == before[0]);
                    assert(self.remaining() =~= before.drop_first());
                    assert(before.drop_first() =~= start.skip(start.len() - before.len() + 1));
                    if f.data.len() > 0 {
                        proof {
                            self.delivered = Ghost(self.delivered@.push(f));
                            let k = first_nonempty(start);
                            assert(with_samples(start).drop_first() =~= with_samples(
                                start.skip(k + 1),
                            ));
                        }
                        return Some(f);
                    }
                },
            }
        }
    }
}

} // verus!
