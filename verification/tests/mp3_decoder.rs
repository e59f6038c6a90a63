use nts_radio::frame::Frame;
use nts_radio::mp3_decoder::{frame_of, is_mp3, Mp3StreamDecoder};
use nts_radio::stream_decoder::DecodeError;
use std::io::Cursor;

const FRAME_BYTES: usize = 417;
const SAMPLES_PER_FRAME: usize = 2304;

/// MPEG-1 layer III frames at 128 kb/s, 44.1 kHz, stereo, that code silence.
fn silent_frames(count: usize) -> Vec<u8> {
    let mut bytes = Vec::new();
    for _ in 0..count {
        bytes.extend_from_slice(&[0xff, 0xfb, 0x90, 0x00]);
        bytes.resize(bytes.len() + FRAME_BYTES - 4, 0);
    }
    bytes
}

#[test]
fn every_source_is_accepted_as_mp3() {
    assert!(is_mp3(Cursor::new(Vec::<u8>::new())));
    assert!(is_mp3(Cursor::new(vec![1u8, 2, 3])));
    assert!(is_mp3(Cursor::new(silent_frames(2))));
}

#[test]
fn empty_byte_source_fails_construction() {
    let made = Mp3StreamDecoder::new(Cursor::new(Vec::<u8>::new()), 8096);
    assert_eq!(made.err(), Some(DecodeError::NoInitialFrame));
}

#[test]
fn bytes_without_a_frame_fail_construction() {
    let made = Mp3StreamDecoder::new(Cursor::new(vec![0u8; 5000]), 8096);
    assert_eq!(made.err(), Some(DecodeError::NoInitialFrame));
}

#[test]
fn silent_stream_reports_its_parameters() {
    let decoder = Mp3StreamDecoder::new(Cursor::new(silent_frames(8)), 1000).unwrap();
    assert_eq!(decoder.channels(), 2);
    assert_eq!(decoder.sample_rate(), 44100);
    assert_eq!(decoder.current_frame_len(), Some(1000));
    assert_eq!(decoder.total_duration(), None);
}

#[test]
fn silent_stream_yields_every_sample_of_every_frame() {
    let frames = 8;
    let mut decoder = Mp3StreamDecoder::new(Cursor::new(silent_frames(frames)), 1000).unwrap();
    let mut count = 0;
    while let Some(sample) = decoder.next() {
        assert_eq!(sample, 0);
        count += 1;
    }
    assert_eq!(count, frames * SAMPLES_PER_FRAME);
    assert_eq!(decoder.next(), None);
    assert_eq!(decoder.current_frame_len(), Some(0));
}

#[test]
fn target_beyond_the_stream_queues_all_of_it() {
    let decoder = Mp3StreamDecoder::new(Cursor::new(silent_frames(3)), 100_000).unwrap();
    assert_eq!(decoder.current_frame_len(), Some(3 * SAMPLES_PER_FRAME));
}

#[test]
fn fill_cycle_reaches_the_target_again() {
    let mut decoder = Mp3StreamDecoder::new(Cursor::new(silent_frames(4)), 3000).unwrap();
    assert_eq!(decoder.current_frame_len(), Some(3000));
    for _ in 0..10 {
        assert_eq!(decoder.next(), Some(0));
    }
    assert_eq!(decoder.current_frame_len(), Some(2990));
    decoder.fill_buffer();
    assert_eq!(decoder.current_frame_len(), Some(3000));
}

#[test]
fn sample_count_does_not_depend_on_the_target() {
    for target in [1, 100, SAMPLES_PER_FRAME - 1, SAMPLES_PER_FRAME, SAMPLES_PER_FRAME + 1, 8096] {
        let mut decoder = Mp3StreamDecoder::new(Cursor::new(silent_frames(5)), target).unwrap();
        assert_eq!(decoder.current_frame_len(), Some(target));
        let mut count = 0;
        while decoder.next().is_some() {
            count += 1;
        }
        assert_eq!(count, 5 * SAMPLES_PER_FRAME);
    }
}

#[test]
fn exhausted_stream_stays_exhausted() {
    let mut decoder = Mp3StreamDecoder::new(Cursor::new(silent_frames(2)), 512).unwrap();
    while decoder.next().is_some() {}
    for _ in 0..5 {
        assert_eq!(decoder.next(), None);
        assert_eq!(decoder.current_frame_len(), Some(0));
    }
    decoder.fill_buffer();
    assert_eq!(decoder.next(), None);
}

#[test]
fn junk_before_the_first_frame_is_skipped() {
    let mut bytes = vec![0u8; 100];
    bytes.extend(silent_frames(3));
    let mut decoder = Mp3StreamDecoder::new(Cursor::new(bytes), 8096).unwrap();
    assert_eq!(decoder.channels(), 2);
    let mut count = 0;
    while decoder.next().is_some() {
        count += 1;
    }
    assert_eq!(count, 3 * SAMPLES_PER_FRAME);
}

#[test]
fn target_of_zero_never_yields_from_a_stream() {
    let mut decoder = Mp3StreamDecoder::new(Cursor::new(silent_frames(3)), 0).unwrap();
    assert_eq!(decoder.current_frame_len(), Some(0));
    assert_eq!(decoder.next(), None);
    assert_eq!(decoder.sample_rate(), 44100);
}

/// A reader that hands out its bytes a chunk at a time.
struct Trickle {
    bytes: Vec<u8>,
    at: usize,
    chunk: usize,
}

impl std::io::Read for Trickle {
    fn read(&mut self, buf: &mut [u8]) -> std::io::Result<usize> {
        let n = self.chunk.min(buf.len()).min(self.bytes.len() - self.at);
        buf[..n].copy_from_slice(&self.bytes[self.at..self.at + n]);
        self.at += n;
        Ok(n)
    }
}

#[test]
fn reads_in_chunks_give_the_same_samples() {
    for chunk in [4096, 5000, 100_000] {
        let source = Trickle { bytes: silent_frames(12), at: 0, chunk };
        let mut decoder = Mp3StreamDecoder::new(source, 3000).unwrap();
        assert_eq!(decoder.channels(), 2);
        assert_eq!(decoder.sample_rate(), 44100);
        let mut count = 0;
        while let Some(sample) = decoder.next() {
            assert_eq!(sample, 0);
            count += 1;
        }
        assert_eq!(count, 12 * SAMPLES_PER_FRAME, "chunk {}", chunk);
    }
}

#[test]
fn decoded_frame_is_taken_as_it_is() {
    let frame = Frame { data: vec![3, -4, 5], sample_rate: 48000, channels: 1, layer: 3, bitrate: 96 };
    let taken = frame_of(Ok(frame)).unwrap();
    assert_eq!(taken.data, vec![3, -4, 5]);
    assert_eq!(taken.sample_rate, 48000);
    assert_eq!(taken.channels, 1);
    assert_eq!(taken.layer, 3);
    assert_eq!(taken.bitrate, 96);
}

#[test]
fn every_decoder_error_means_no_frame() {
    assert!(frame_of(Err(minimp3::Error::Eof)).is_none());
    assert!(frame_of(Err(minimp3::Error::InsufficientData)).is_none());
    assert!(frame_of(Err(minimp3::Error::SkippedData)).is_none());
    let failed = std::io::Error::new(std::io::ErrorKind::Other, "connection reset");
    assert!(frame_of(Err(minimp3::Error::Io(failed))).is_none());
}
