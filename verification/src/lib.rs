//! A terminal radio player's library: a streaming decode buffer that turns
//! a frame-by-frame decoder into a sample-by-sample stream, and the rules of
//! the player around it.

pub mod catalog;
pub mod frame;
pub mod history;
pub mod json;
pub mod mp3_decoder;
pub mod radio;
pub mod recognition;
pub mod schedule;
pub mod stream_buffer;
pub mod stream_decoder;
pub mod stream_laws;
