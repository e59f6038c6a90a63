use nts_radio::frame::Frame;
use nts_radio::stream_buffer::StreamBuffer;

fn frame(data: Vec<i16>, channels: usize, sample_rate: i32) -> Frame {
    Frame { data, sample_rate, channels, layer: 3, bitrate: 128 }
}

#[test]
fn new_queue_holds_nothing() {
    let queue = StreamBuffer::new(frame(vec![1, 2, 3], 2, 48000), 2);
    assert_eq!(queue.len(), 0);
    assert_eq!(queue.cursor(), 0);
    assert!(!queue.needs_frame());
    assert_eq!(queue.channels(), 2);
    assert_eq!(queue.sample_rate(), 48000);
}

#[test]
fn top_up_stops_at_the_target() {
    let mut queue = StreamBuffer::new(frame(vec![1, 2, 3], 2, 48000), 2);
    queue.top_up();
    assert_eq!(queue.len(), 2);
    assert_eq!(queue.cursor(), 2);
    assert!(!queue.needs_frame());
    queue.top_up();
    assert_eq!(queue.len(), 2);
    assert_eq!(queue.cursor(), 2);
}

#[test]
fn top_up_stops_at_the_end_of_the_frame() {
    let mut queue = StreamBuffer::new(frame(vec![1, 2, 3], 2, 48000), 5);
    queue.top_up();
    assert_eq!(queue.len(), 3);
    assert_eq!(queue.cursor(), 3);
    assert!(queue.needs_frame());
}

#[test]
fn accepted_frame_becomes_current_and_fills_the_queue() {
    let mut queue = StreamBuffer::new(frame(vec![1, 2, 3], 2, 48000), 5);
    queue.top_up();
    queue.accept(Some(frame(vec![4, 5, 6], 1, 8000)));
    assert_eq!(queue.len(), 5);
    assert_eq!(queue.cursor(), 2);
    assert_eq!(queue.channels(), 1);
    assert_eq!(queue.sample_rate(), 8000);
    assert!(!queue.needs_frame());
    let out: Vec<Option<i16>> = (0..6).map(|_| queue.pop()).collect();
    assert_eq!(out, vec![Some(1), Some(2), Some(3), Some(4), Some(5), None]);
    queue.top_up();
    assert_eq!(queue.pop(), Some(6));
    assert_eq!(queue.pop(), None);
}

#[test]
fn accepting_no_frame_ends_the_stream() {
    let mut queue = StreamBuffer::new(frame(vec![1], 2, 48000), 5);
    queue.top_up();
    assert!(queue.needs_frame());
    queue.accept(None);
    assert!(!queue.needs_frame());
    assert_eq!(queue.pop(), Some(1));
    assert_eq!(queue.pop(), None);
    assert!(!queue.needs_frame());
}

#[test]
fn pop_on_an_empty_queue_changes_nothing() {
    let mut queue = StreamBuffer::new(frame(vec![9], 2, 48000), 1);
    assert_eq!(queue.pop(), None);
    assert_eq!(queue.len(), 0);
    assert_eq!(queue.cursor(), 0);
    queue.top_up();
    assert_eq!(queue.pop(), Some(9));
}

#[test]
fn channel_count_and_sample_rate_are_cast() {
    let wide = StreamBuffer::new(frame(vec![1], 65537, -1), 1);
    assert_eq!(wide.channels(), 1);
    assert_eq!(wide.sample_rate(), u32::MAX);
}
