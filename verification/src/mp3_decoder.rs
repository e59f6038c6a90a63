//! An MP3 byte stream as a sequence of samples: a decode buffer over a
//! reader that need not be seekable, decoded by the `minimp3` crate.

use crate::frame::Frame;
use crate::stream_buffer::{
    fill_in_progress, fill_measure, fills, initial_view, lemma_fill_begin, lemma_fill_end,
    lemma_fill_step, pulls, StreamBuffer, StreamView,
};
use crate::stream_decoder::DecodeError;
use minimp3::Decoder;
use std::io::Read;
use std::time::Duration;
use vstd::prelude::*;

verus! {

/// `minimp3::Decoder`, carried through as it is: nothing is known of what
/// it holds.
#[verifier::external_type_specification]
#[verifier::external_body]
#[verifier::reject_recursive_types(R)]
pub struct ExDecoder<R>(minimp3::Decoder<R>);

/// `minimp3::Error`, carried through as it is.
#[verifier::external_type_specification]
#[verifier::external_body]
pub struct ExDecoderError(minimp3::Error);

/// `minimp3::Decoder::new` wraps a reader without reading from it. Nothing
/// is claimed of the decoder it returns.
pub assume_specification<R>[ Decoder::<R>::new ](reader: R) -> (decoder: Decoder<R>)
;

/// `minimp3::Decoder::next_frame`, its frame copied field by field.
///
/// Trusted: a frame that comes back holds at least one sample. The decoder
/// returns `Ok` only when the sample count of the frame is positive, and
/// sizes the data to that count times the channel count, which it sets to
/// one or two; everything else it reports as an error. The call returns
/// when the decoder has found a frame or the reader has failed or ended:
/// it blocks for as long as the reader does, and goes on reading for as
/// long as the reader yields bytes that hold no frame.
#[verifier::external_body]
fn decode_next<R: Read>(decoder: &mut Decoder<R>) -> (decoded: Result<Frame, minimp3::Error>)
    ensures
        decoded matches Ok(frame) ==> frame.data@.len() > 0,
{
    match decoder.next_frame() {
        Ok(f) => Ok(
            Frame {
                data: f.data,
                sample_rate: f.sample_rate,
                channels: f.channels,
                layer: f.layer,
                bitrate: f.bitrate,
            },
        ),
        Err(e) => Err(e),
    }
}

/// Decodes MP3 from a reader and hands the samples out one at a time,
/// keeping a bounded number of them decoded ahead.
#[verifier::reject_recursive_types(R)]
pub struct Mp3StreamDecoder<R> {
    decoder: Decoder<R>,
    queue: StreamBuffer,
}

impl<R: Read> Mp3StreamDecoder<R> {
    /// The frames received from the decoder and where their samples are.
    pub closed spec fn view(&self) -> StreamView {
        self.queue@
    }

    /// The decoder is in a sound state.
    pub closed spec fn wf(&self) -> bool {
        self.queue.wf()
    }

    /// What `wf` says to the outside: the bookkeeping of the view is sound.
    pub proof fn lemma_wf(&self)
        requires
            self.wf(),
        ensures
            self@.wf(),
    {
        self.queue.lemma_wf();
    }

    /// Starts decoding `data`, keeping up to `buffer_size` samples decoded
    /// ahead: decodes a first frame, then runs one fill cycle. Fails if not
    /// even one frame can be decoded.
    pub fn new(data: R, buffer_size: usize) -> (made: Result<Self, DecodeError>)
        ensures
            match made {
                Ok(d) => d.wf() && fills(initial_view(d@.received[0], buffer_size as nat), d@),
                Err(e) => e == DecodeError::NoInitialFrame,
            },
    {
        let mut data = data;
        // No source is turned away here: the format check accepts them all.
        let accepted = is_mp3(&mut data);
        assert(accepted);
        let mut decoder = Decoder::new(data);
        let first = Self::decode(&mut decoder);
        Self::from_first_frame(decoder, first, buffer_size)
    }

    /// Builds the decode buffer from a decoder and the answer it gave when
    /// asked for its first frame, then runs one fill cycle. Succeeds exactly
    /// when that answer was a frame.
    pub fn from_first_frame(decoder: Decoder<R>, first: Option<Frame>, buffer_size: usize) -> (made:
        Result<Self, DecodeError>)
        ensures
            match (first, made) {
                (Some(f), Ok(d)) => {
                    &&& d.wf()
                    &&& d@.received[0] == f
                    &&& fills(initial_view(f, buffer_size as nat), d@)
                },
                (None, Err(e)) => e == DecodeError::NoInitialFrame,
                _ => false,
            },
    {
        match first {
            None => Err(DecodeError::NoInitialFrame),
            Some(frame) => {
                let mut made = Mp3StreamDecoder {
                    decoder,
                    queue: StreamBuffer::new(frame, buffer_size),
                };
                made.fill_buffer();
                proof {
                    assert(made@.received.take(1) == seq![frame]);
                    assert(made@.received.take(1)[0] == frame);
                }
                Ok(made)
            },
        }
    }

    /// Asks the decoder for its next frame. A read error, undecodable data
    /// and the end of the stream all count as no frame.
    fn decode(decoder: &mut Decoder<R>) -> (next: Option<Frame>)
        ensures
            next matches Some(f) ==> f.data@.len() > 0,
    {
        frame_of(decode_next(decoder))
    }

    /// One fill cycle: tops the queue up from the current frame and, while
    /// it is short of its target, decodes the next frame and tops up from
    /// that. Ends with the queue at its target, or with the decoder having
    /// found no further frame.
    pub fn fill_buffer(&mut self)
        requires
            old(self).wf(),
        ensures
            final(self).wf(),
            fills(old(self)@, final(self)@),
            final(self)@.buffered.len() == final(self)@.target || final(self)@.exhausted,
    {
        let ghost pre = self@;
        proof {
            self.queue.lemma_wf();
            lemma_fill_begin(pre);
        }
        self.queue.top_up();
        while self.queue.needs_frame()
            invariant
                self.wf(),
                fill_in_progress(pre, self@),
            decreases fill_measure(self@),
        {
            let ghost now = self@;
            let next = Self::decode(&mut self.decoder);
            self.queue.accept(next);
            proof {
                lemma_fill_step(pre, now, next);
            }
        }
        proof {
            lemma_fill_end(pre, self@);
        }
    }

    /// Hands out the next sample, after a fill cycle if none is queued.
    /// Reports none once the stream has ended and the queue is drained.
    pub fn next(&mut self) -> (sample: Option<i16>)
        requires
            old(self).wf(),
        ensures
            final(self).wf(),
            pulls(old(self)@, final(self)@, sample),
    {
        let ghost pre = self@;
        if self.queue.len() == 0 {
            self.fill_buffer();
        } else {
            proof {
                assert(pre.received.skip(pre.received.len() as int) =~= Seq::<Frame>::empty());
            }
        }
        self.queue.pop()
    }

    /// The number of samples decoded and waiting.
    pub fn current_frame_len(&self) -> (len: Option<usize>)
        ensures
            len is Some,
            len->0 == self@.buffered.len(),
    {
        Some(self.queue.len())
    }

    /// The channel count of the frame most recently decoded.
    pub fn channels(&self) -> (count: u16)
        requires
            self.wf(),
        ensures
            count == self@.frame().channels as u16,
    {
        self.queue.channels()
    }

    /// The sample rate of the frame most recently decoded.
    pub fn sample_rate(&self) -> (rate: u32)
        requires
            self.wf(),
        ensures
            rate == self@.frame().sample_rate as u32,
    {
        self.queue.sample_rate()
    }

    /// The length of the stream, which is never known.
    pub fn total_duration(&self) -> (length: Option<Duration>)
        ensures
            length is None,
    {
        None
    }
}

/// Whether `data` looks like MP3. Every source is accepted: one that is not
/// MP3 is found out when no frame can be decoded from it.
pub fn is_mp3<R: Read>(_data: R) -> (accepted: bool)
    ensures
        accepted,
{
    true
}

/// What an answer of the decoder means to the decode buffer: a frame is
/// taken as it is, and every error, be it a failed read, data that cannot be
/// decoded or the end of the stream, means that there is no frame.
pub fn frame_of(decoded: Result<Frame, minimp3::Error>) -> (next: Option<Frame>)
    ensures
        match decoded {
            Ok(frame) => next == Some(frame),
            Err(_) => next is None,
        },
{
    match decoded {
        Ok(frame) => Some(frame),
        Err(_) => None,
    }
}

} // verus!
