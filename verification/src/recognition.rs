//! What the song recogniser is given and what is made of its answer.

use crate::json::{json_of_text, Json};
use vstd::prelude::*;
use vstd::string::StringExecFns;

verus! {

/// What is shown when the recogniser knows no song.
pub const NO_SONG: &'static str = "No song recognized";

/// What is shown while the recogniser is at work.
pub const RECOGNIZING: &'static str = "Recognizing...";

/// How many bytes of the stream make one second of the sample.
pub const SAMPLE_BYTES_PER_SEC: u64 = 131072;

/// The text of a string member, or `otherwise` where there is none.
pub open spec fn text_or(found: Option<Json>, otherwise: Seq<char>) -> Seq<char> {
    match found {
        Some(Json::Text(s)) => s@,
        _ => otherwise,
    }
}

/// What the recogniser's answer says: title and artist of the track, with
/// stand-ins for what is missing, or that there is no song if the answer
/// names no track.
pub open spec fn recognition_of(answer: Json) -> Seq<char> {
    match answer.member("track"@) {
        Some(track) => text_or(track.member("title"@), "Unknown Title"@) + " - "@ + text_or(
            track.member("subtitle"@),
            "Unknown Artist"@,
        ),
        None => NO_SONG@,
    }
}

/// The text of the member `key`, or `otherwise` if it is missing or not a
/// string.
fn member_text(json: &Json, key: &str, otherwise: &str) -> (text: String)
    ensures
        text@ == text_or(json.member(key@), otherwise@),
{
    match json.get(key) {
        Some(value) => match value.as_str() {
            Some(s) => s.to_owned(),
            None => otherwise.to_owned(),
        },
        None => otherwise.to_owned(),
    }
}

/// The size in bytes of a sample of `duration_secs` seconds, or nothing if
/// that is more than a `u64` holds.
pub fn sample_bytes(duration_secs: u64) -> (size: Option<u64>)
    ensures
        match size {
            Some(n) => n == duration_secs * 128 * 1024,
            None => duration_secs * 128 * 1024 > u64::MAX,
        },
{
    duration_secs.checked_mul(SAMPLE_BYTES_PER_SEC)
}

/// The song that a parsed answer of the recogniser names, as shown to the
/// listener.
pub fn recognition_text(answer: &Json) -> (text: String)
    ensures
        text@ == recognition_of(*answer),
{
    match answer.get("track") {
        Some(track) => {
            let title = member_text(track, "title", "Unknown Title");
            let artist = member_text(track, "subtitle", "Unknown Artist");
            title.concat(" - ").concat(artist.as_str())
        },
        None => NO_SONG.to_owned(),
    }
}

/// The song that the recogniser's output names, or nothing if the output
/// is not JSON.
pub fn recognize(output: &str) -> (text: Option<String>)
    ensures
        match text {
            Some(t) => json_of_text(output@) is Some && t@ == recognition_of(
                json_of_text(output@)->Some_0,
            ),
            None => json_of_text(output@) is None,
        },
{
    match Json::parse(output) {
        Some(answer) => Some(recognition_text(&answer)),
        None => None,
    }
}

/// Whether the text names a song, that is, whether it goes into the
/// history.
pub fn is_recognized(text: &str) -> (named: bool)
    ensures
        named == (text@ != NO_SONG@),
{
    let shown = text.to_owned();
    let none = NO_SONG.to_owned();
    !(shown == none)
}

} // verus!
