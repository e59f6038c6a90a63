//! The history of recognised songs: a text file with one song per line.

use vstd::prelude::*;
use vstd::string::StringExecFns;
use vstd::string::StringSliceAdditionalSpecFns;
use vstd::utf8::encode_utf8;

verus! {

/// Where the history is kept, relative to the home directory.
pub const HISTORY_FILE_PATH: &'static str = "./nts_cli_song_history.txt";

/// How many lines of history fit above the fold when the player starts.
pub const HISTORY_LINES_SHOWN: usize = 5;

/// The number of line feeds among the bytes.
pub open spec fn line_feeds(bytes: Seq<u8>) -> nat
    decreases bytes.len(),
{
    if bytes.len() == 0 {
        0
    } else {
        line_feeds(bytes.drop_last()) + if bytes.last() == 10u8 {
            1nat
        } else {
            0nat
        }
    }
}

/// The number of lines of a text, given as its bytes: every line feed ends
/// a line, and so does the end of a text that does not end in a line feed.
pub open spec fn lines_in(bytes: Seq<u8>) -> nat {
    line_feeds(bytes) + if bytes.len() > 0 && bytes.last() != 10u8 {
        1nat
    } else {
        0nat
    }
}

/// The number of lines of a text, counted on its UTF-8 encoding.
pub open spec fn lines_of(text: Seq<char>) -> nat {
    lines_in(encode_utf8(text))
}

/// There are no more line feeds than bytes.
pub proof fn lemma_line_feeds_bounded(bytes: Seq<u8>)
    ensures
        line_feeds(bytes) <= bytes.len(),
    decreases bytes.len(),
{
    if bytes.len() > 0 {
        lemma_line_feeds_bounded(bytes.drop_last());
    }
}

/// The number of lines of `text`.
pub fn line_count(text: &str) -> (count: usize)
    ensures
        count == lines_of(text@),
{
    let bytes = text.as_bytes();
    let mut count: usize = 0;
    let mut i: usize = 0;
    assert(bytes@.take(0) =~= Seq::<u8>::empty());
    while i < bytes.len()
        invariant
            i <= bytes.len(),
            bytes@ == text.spec_bytes(),
            count == line_feeds(bytes@.take(i as int)),
            count <= i,
        decreases bytes.len() - i,
    {
        assert(bytes@.take(i + 1).drop_last() =~= bytes@.take(i as int));
        if bytes[i] == 10u8 {
            count += 1;
        }
        i += 1;
    }
    assert(bytes@.take(bytes.len() as int) =~= bytes@);
    if bytes.len() > 0 && bytes[bytes.len() - 1] != 10u8 {
        proof {
            assert(bytes@.drop_last() =~= bytes@.take(bytes.len() - 1));
            lemma_line_feeds_bounded(bytes@.drop_last());
        }
        count += 1;
    }
    count
}

/// How far down the history is scrolled when the player starts: so that
/// its last lines show.
pub fn initial_scroll(history: &str) -> (scroll: usize)
    ensures
        scroll == if lines_of(history@) >= 5 {
            lines_of(history@) - 5
        } else {
            0
        },
{
    line_count(history).saturating_sub(HISTORY_LINES_SHOWN)
}

/// The line that records a song in the history.
pub fn history_entry(song: &str) -> (line: String)
    ensures
        line@ == song@ + "\n"@,
{
    song.to_owned().concat("\n")
}

} // verus!
