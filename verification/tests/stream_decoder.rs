use nts_radio::frame::{Frame, FrameList, FrameSource};
use nts_radio::stream_decoder::{DecodeError, StreamDecoder};

fn frame_of(first: i16, count: i16) -> Frame {
    Frame {
        data: (first..first + count).collect(),
        sample_rate: 44100,
        channels: 2,
        layer: 3,
        bitrate: 128,
    }
}

fn three_frames() -> Vec<Frame> {
    vec![frame_of(1, 10), frame_of(11, 10), frame_of(21, 10)]
}

fn drain(decoder: &mut StreamDecoder<FrameList>, limit: usize) -> Vec<i16> {
    let mut out = Vec::new();
    while out.len() < limit {
        match decoder.next() {
            Some(s) => out.push(s),
            None => break,
        }
    }
    out
}

#[test]
fn three_frames_of_ten_with_target_fifteen() {
    let mut decoder = StreamDecoder::new(FrameList::new(three_frames()), 15).unwrap();
    assert_eq!(decoder.current_frame_len(), Some(15));
    assert_eq!(decoder.cursor(), 5);
    let first: Vec<i16> = (0..15).map(|_| decoder.next().unwrap()).collect();
    assert_eq!(first, (1..=15).collect::<Vec<i16>>());
    assert_eq!(decoder.current_frame_len(), Some(0));
    let second: Vec<i16> = (0..15).map(|_| decoder.next().unwrap()).collect();
    assert_eq!(second, (16..=30).collect::<Vec<i16>>());
    assert_eq!(decoder.next(), None);
}

#[test]
fn refill_happens_in_the_middle_of_pulling() {
    let mut decoder = StreamDecoder::new(FrameList::new(three_frames()), 15).unwrap();
    for expected in 1..=15 {
        assert_eq!(decoder.next(), Some(expected));
    }
    assert_eq!(decoder.current_frame_len(), Some(0));
    assert_eq!(decoder.next(), Some(16));
    assert_eq!(decoder.current_frame_len(), Some(14));
    assert_eq!(decoder.cursor(), 10);
}

#[test]
fn no_sample_lost_with_target_smaller_than_a_frame() {
    let mut decoder = StreamDecoder::new(FrameList::new(three_frames()), 3).unwrap();
    assert_eq!(decoder.current_frame_len(), Some(3));
    assert_eq!(drain(&mut decoder, 100), (1..=30).collect::<Vec<i16>>());
}

#[test]
fn no_sample_lost_with_target_equal_to_a_frame() {
    let mut decoder = StreamDecoder::new(FrameList::new(three_frames()), 10).unwrap();
    assert_eq!(decoder.current_frame_len(), Some(10));
    assert_eq!(decoder.cursor(), 10);
    assert_eq!(drain(&mut decoder, 100), (1..=30).collect::<Vec<i16>>());
}

#[test]
fn no_sample_lost_with_target_larger_than_a_frame() {
    let mut decoder = StreamDecoder::new(FrameList::new(three_frames()), 25).unwrap();
    assert_eq!(decoder.current_frame_len(), Some(25));
    assert_eq!(decoder.cursor(), 5);
    assert_eq!(drain(&mut decoder, 100), (1..=30).collect::<Vec<i16>>());
}

#[test]
fn no_sample_lost_with_target_of_one() {
    let mut decoder = StreamDecoder::new(FrameList::new(three_frames()), 1).unwrap();
    assert_eq!(decoder.current_frame_len(), Some(1));
    assert_eq!(drain(&mut decoder, 100), (1..=30).collect::<Vec<i16>>());
}

#[test]
fn no_sample_lost_with_frames_of_unequal_length() {
    let frames = vec![frame_of(1, 1), frame_of(2, 7), frame_of(9, 2), frame_of(11, 5)];
    for target in 1..20 {
        let mut decoder = StreamDecoder::new(FrameList::new(frames.clone()), target).unwrap();
        assert_eq!(drain(&mut decoder, 100), (1..=15).collect::<Vec<i16>>());
        assert_eq!(decoder.next(), None);
    }
}

#[test]
fn target_beyond_the_whole_stream_leaves_everything_queued() {
    let mut decoder = StreamDecoder::new(FrameList::new(three_frames()), 100).unwrap();
    assert_eq!(decoder.current_frame_len(), Some(30));
    assert_eq!(decoder.cursor(), 10);
    assert_eq!(drain(&mut decoder, 100), (1..=30).collect::<Vec<i16>>());
    assert_eq!(decoder.next(), None);
}

#[test]
fn fill_cycle_stops_at_the_target() {
    let mut decoder = StreamDecoder::new(FrameList::new(three_frames()), 12).unwrap();
    assert_eq!(decoder.current_frame_len(), Some(12));
    decoder.fill_buffer();
    assert_eq!(decoder.current_frame_len(), Some(12));
    assert_eq!(decoder.next(), Some(1));
    assert_eq!(decoder.current_frame_len(), Some(11));
    decoder.fill_buffer();
    assert_eq!(decoder.current_frame_len(), Some(12));
    assert_eq!(decoder.cursor(), 3);
}

#[test]
fn fill_cycle_stops_at_the_end_of_the_source() {
    let mut decoder = StreamDecoder::new(FrameList::new(vec![frame_of(1, 4)]), 9).unwrap();
    assert_eq!(decoder.current_frame_len(), Some(4));
    decoder.fill_buffer();
    assert_eq!(decoder.current_frame_len(), Some(4));
    assert_eq!(drain(&mut decoder, 100), vec![1, 2, 3, 4]);
}

#[test]
fn exhaustion_is_reported_again_and_again() {
    let mut decoder = StreamDecoder::new(FrameList::new(vec![frame_of(7, 2)]), 4).unwrap();
    assert_eq!(decoder.next(), Some(7));
    assert_eq!(decoder.next(), Some(8));
    for _ in 0..10 {
        assert_eq!(decoder.next(), None);
        assert_eq!(decoder.current_frame_len(), Some(0));
    }
}

#[test]
fn empty_source_fails_construction() {
    let made = StreamDecoder::new(FrameList::new(Vec::new()), 15);
    assert_eq!(made.err(), Some(DecodeError::NoInitialFrame));
}

#[test]
fn source_of_empty_frames_fails_construction() {
    let frames = vec![frame_of(1, 0), frame_of(1, 0)];
    let made = StreamDecoder::new(FrameList::new(frames), 15);
    assert_eq!(made.err(), Some(DecodeError::NoInitialFrame));
}

#[test]
fn empty_frames_are_passed_over() {
    let frames = vec![frame_of(0, 0), frame_of(1, 3), frame_of(0, 0), frame_of(4, 2), frame_of(0, 0)];
    let mut decoder = StreamDecoder::new(FrameList::new(frames), 4).unwrap();
    assert_eq!(drain(&mut decoder, 100), vec![1, 2, 3, 4, 5]);
    assert_eq!(decoder.next(), None);
}

#[test]
fn metadata_after_construction_is_that_of_the_first_frame() {
    let mut first = frame_of(1, 10);
    first.channels = 1;
    first.sample_rate = 22050;
    let decoder = StreamDecoder::new(FrameList::new(vec![first, frame_of(11, 10)]), 10).unwrap();
    assert_eq!(decoder.channels(), 1);
    assert_eq!(decoder.sample_rate(), 22050);
}

#[test]
fn metadata_follows_the_current_frame() {
    let mut first = frame_of(1, 10);
    first.channels = 1;
    first.sample_rate = 22050;
    let frames = vec![first, frame_of(11, 10)];
    let mut decoder = StreamDecoder::new(FrameList::new(frames.clone()), 10).unwrap();
    for _ in 0..11 {
        decoder.next();
    }
    assert_eq!(decoder.channels(), 2);
    assert_eq!(decoder.sample_rate(), 44100);
    let ahead = StreamDecoder::new(FrameList::new(frames), 15).unwrap();
    assert_eq!(ahead.channels(), 2);
    assert_eq!(ahead.sample_rate(), 44100);
}

#[test]
fn target_of_zero_never_yields() {
    let mut decoder = StreamDecoder::new(FrameList::new(three_frames()), 0).unwrap();
    assert_eq!(decoder.current_frame_len(), Some(0));
    assert_eq!(decoder.next(), None);
    assert_eq!(decoder.next(), None);
    assert_eq!(decoder.cursor(), 0);
}

#[test]
fn total_duration_is_unknown() {
    let decoder = StreamDecoder::new(FrameList::new(three_frames()), 15).unwrap();
    assert_eq!(decoder.total_duration(), None);
}

#[test]
fn construction_from_the_first_answer() {
    let mut list = FrameList::new(three_frames());
    let first = list.next_frame();
    let mut decoder = StreamDecoder::from_first_frame(list, first, 5).unwrap();
    assert_eq!(drain(&mut decoder, 100), (1..=30).collect::<Vec<i16>>());
    let mut empty = FrameList::new(Vec::new());
    let nothing = empty.next_frame();
    assert!(nothing.is_none());
    let made = StreamDecoder::from_first_frame(empty, nothing, 5);
    assert_eq!(made.err(), Some(DecodeError::NoInitialFrame));
}

#[test]
fn frame_list_hands_out_frames_in_order() {
    let mut list = FrameList::new(three_frames());
    assert_eq!(list.next_frame().unwrap().data, (1..=10).collect::<Vec<i16>>());
    assert_eq!(list.next_frame().unwrap().data, (11..=20).collect::<Vec<i16>>());
    assert_eq!(list.next_frame().unwrap().data, (21..=30).collect::<Vec<i16>>());
    assert!(list.next_frame().is_none());
    assert!(list.next_frame().is_none());
}
