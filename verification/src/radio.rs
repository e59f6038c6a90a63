//! The state of the player and what each key does to it.

use crate::catalog::{Stream, StreamType, StreamsCollection};
use crate::history::{initial_scroll, line_count, lines_of};
use crate::recognition::{NO_SONG, RECOGNIZING};
use vstd::arithmetic::div_mod::{lemma_add_mod_noop, lemma_mod_self_0, lemma_small_mod};
use vstd::prelude::*;

verus! {

/// The length of the sample given to the recogniser at the start, in
/// seconds.
pub const DEFAULT_DURATION_SEC: u64 = 5;

/// For how many seconds the recognised song stays on show.
pub const RECOGNITION_INFO_TIMER: u64 = 12;

/// For how many seconds a changed sample length stays on show.
pub const DURATION_INFO_TIMER: u64 = 1;

/// For how many seconds a changed volume stays on show.
pub const VOLUME_INFO_TIMER: u64 = 2;

/// A key as the player sees it.
#[derive(Clone, Copy, Debug, PartialEq, Eq)]
pub enum Key {
    Char(char),
    Down,
    Up,
    Enter,
    Other,
}

/// What is left to do, outside the state, after a key has been handled.
#[derive(Clone, Copy, Debug, PartialEq, Eq)]
pub enum Action {
    /// Nothing but to draw the state.
    Nothing,
    /// Stop playing, restore the terminal and leave.
    Quit,
    /// Play the selected stream of this kind, then recognise what plays.
    Play(StreamType),
    /// Stop playing.
    Stop,
    /// Recognise what plays.
    Recognize,
    /// Show the sample length for a while.
    ShowDuration,
    /// Turn the volume down a notch.
    LowerVolume,
    /// Turn the volume up a notch.
    RaiseVolume,
    /// Move the scroll bar to the new scroll position.
    Scroll,
}

/// What the player knows: the streams on offer, which of them is selected
/// and which one plays, the recogniser's settings and results, and how far
/// the history is scrolled.
///
/// The list on screen shows the two stations first, then the mixtapes, so
/// a selection of 0 or 1 is a station and one of 2 or more a mixtape.
#[derive(Clone, Debug)]
pub struct RadioState {
    pub streams_collection: StreamsCollection,
    pub selected_stream_index: usize,
    pub current_stream_url: Option<String>,
    pub recognition_result: Option<String>,
    pub duration: u64,
    pub recognition_list: String,
    pub vertical_scroll: usize,
}

/// The number of entries in the list on screen.
pub open spec fn entries(state: RadioState) -> int {
    (state.streams_collection.mixtapes@.len() + 2) as int
}

/// The kind of stream that a selection stands for.
pub open spec fn kind_at(selected: usize) -> StreamType {
    if selected <= 1 {
        StreamType::Station
    } else {
        StreamType::Mixtape
    }
}

/// The state after a key.
pub open spec fn after_key(state: RadioState, key: Key) -> RadioState {
    match key {
        Key::Down => RadioState {
            selected_stream_index: ((state.selected_stream_index + 1) % entries(state)) as usize,
            ..state
        },
        Key::Up => RadioState {
            selected_stream_index: ((state.selected_stream_index + entries(state) - 1) % entries(
                state,
            )) as usize,
            ..state
        },
        Key::Char(c) => if c == '=' {
            RadioState { duration: (state.duration + 1) as u64, ..state }
        } else if c == '-' && state.duration > 1 {
            RadioState { duration: (state.duration - 1) as u64, ..state }
        } else if c == 'j' {
            RadioState {
                vertical_scroll: if state.vertical_scroll < usize::MAX {
                    (state.vertical_scroll + 1) as usize
                } else {
                    state.vertical_scroll
                },
                ..state
            }
        } else if c == 'k' {
            RadioState {
                vertical_scroll: if state.vertical_scroll > 0 {
                    (state.vertical_scroll - 1) as usize
                } else {
                    state.vertical_scroll
                },
                ..state
            }
        } else {
            state
        },
        _ => state,
    }
}

/// What is left to do after a key.
pub open spec fn action_for(state: RadioState, key: Key) -> Action {
    match key {
        Key::Enter => Action::Play(kind_at(state.selected_stream_index)),
        Key::Char(c) => if c == 'q' {
            Action::Quit
        } else if c == ' ' {
            Action::Stop
        } else if c == 'r' && state.current_stream_url is Some {
            Action::Recognize
        } else if c == '=' || (c == '-' && state.duration > 1) {
            Action::ShowDuration
        } else if c == '<' {
            Action::LowerVolume
        } else if c == '>' {
            Action::RaiseVolume
        } else if c == 'j' || c == 'k' {
            Action::Scroll
        } else {
            Action::Nothing
        },
        _ => Action::Nothing,
    }
}

/// The stream that plays when a stream of the given kind is asked for:
/// the station at the selection taken modulo two, or the mixtape two
/// places before the selection.
pub open spec fn playing_at(state: RadioState, kind: StreamType) -> Option<Stream> {
    match kind {
        StreamType::Station => if state.selected_stream_index % 2
            < state.streams_collection.stations@.len() {
            Some(state.streams_collection.stations@[(state.selected_stream_index % 2) as int])
        } else {
            None
        },
        StreamType::Mixtape => if 2 <= state.selected_stream_index
            < state.streams_collection.mixtapes@.len() + 2 {
            Some(state.streams_collection.mixtapes@[state.selected_stream_index - 2])
        } else {
            None
        },
    }
}

/// The stream whose description is on show: the selected station, or the
/// mixtape two places before the selection, counted round the list of
/// mixtapes.
pub open spec fn shown_at(state: RadioState) -> Option<Stream> {
    if state.selected_stream_index < 2 {
        if state.selected_stream_index < state.streams_collection.stations@.len() {
            Some(state.streams_collection.stations@[state.selected_stream_index as int])
        } else {
            None
        }
    } else if state.streams_collection.mixtapes@.len() > 0 {
        Some(
            state.streams_collection.mixtapes@[(state.selected_stream_index - 2)
                % state.streams_collection.mixtapes@.len() as int],
        )
    } else {
        None
    }
}

impl RadioState {
    /// The state at the start: the first station selected, nothing playing,
    /// no song recognised yet, the history scrolled to its end.
    pub fn new(streams_collection: StreamsCollection, history: String) -> (state: RadioState)
        ensures
            state.streams_collection == streams_collection,
            state.selected_stream_index == 0,
            state.current_stream_url is None,
            state.recognition_result matches Some(text) && text@ == NO_SONG@,
            state.duration == DEFAULT_DURATION_SEC,
            state.recognition_list == history,
            state.vertical_scroll == if lines_of(history@) >= 5 {
                lines_of(history@) - 5
            } else {
                0
            },
    {
        let vertical_scroll = initial_scroll(history.as_str());
        RadioState {
            streams_collection,
            selected_stream_index: 0,
            current_stream_url: None,
            recognition_result: Some(NO_SONG.to_owned()),
            duration: DEFAULT_DURATION_SEC,
            recognition_list: history,
            vertical_scroll,
        }
    }

    /// Takes in a freshly fetched collection.
    pub fn update_collection(&mut self, streams_collection: StreamsCollection)
        ensures
            *final(self) == (RadioState { streams_collection, ..*old(self) }),
    {
        self.streams_collection = streams_collection;
    }

    /// Notes that nothing plays any more.
    pub fn stop(&mut self)
        ensures
            *final(self) == (RadioState { current_stream_url: None, ..*old(self) }),
    {
        self.current_stream_url = None;
    }

    /// The stream to play when a stream of the given kind is asked for, or
    /// nothing if the selection points outside the collection.
    pub fn stream_to_play(&self, stream_type: StreamType) -> (stream: Option<&Stream>)
        ensures
            match stream {
                Some(s) => playing_at(*self, stream_type) == Some(*s),
                None => playing_at(*self, stream_type) is None,
            },
    {
        match stream_type {
            StreamType::Station => {
                let i = self.selected_stream_index % 2;
                if i < self.streams_collection.stations.len() {
                    Some(&self.streams_collection.stations[i])
                } else {
                    None
                }
            },
            StreamType::Mixtape => {
                if self.selected_stream_index >= 2 && self.selected_stream_index - 2
                    < self.streams_collection.mixtapes.len() {
                    Some(&self.streams_collection.mixtapes[self.selected_stream_index - 2])
                } else {
                    None
                }
            },
        }
    }

    /// Notes that the stream at `url` plays now.
    pub fn play(&mut self, url: String)
        ensures
            *final(self) == (RadioState { current_stream_url: Some(url), ..*old(self) }),
    {
        self.current_stream_url = Some(url);
    }

    /// Notes that the recogniser is at work.
    pub fn start_recognition(&mut self)
        ensures
            *final(self) == (RadioState { recognition_result: None, ..*old(self) }),
    {
        self.recognition_result = None;
    }

    /// Takes in what the recogniser found and the history as it now reads.
    /// Returns the number of lines of the history, which is the length of
    /// what the scroll bar scrolls over.
    pub fn handle_recognition_result(&mut self, result: String, history: String) -> (lines: usize)
        ensures
            *final(self) == (RadioState {
                recognition_result: Some(result),
                recognition_list: history,
                ..*old(self)
            }),
            lines == lines_of(history@),
    {
        let lines = line_count(history.as_str());
        self.recognition_result = Some(result);
        self.recognition_list = history;
        lines
    }

    /// The stream whose description is on show, or nothing if the selection
    /// points outside the collection.
    pub fn shown_stream(&self) -> (stream: Option<&Stream>)
        ensures
            match stream {
                Some(s) => shown_at(*self) == Some(*s),
                None => shown_at(*self) is None,
            },
    {
        if self.selected_stream_index < 2 {
            if self.selected_stream_index < self.streams_collection.stations.len() {
                Some(&self.streams_collection.stations[self.selected_stream_index])
            } else {
                None
            }
        } else if self.streams_collection.mixtapes.len() > 0 {
            let i = (self.selected_stream_index - 2) % self.streams_collection.mixtapes.len();
            Some(&self.streams_collection.mixtapes[i])
        } else {
            None
        }
    }

    /// Whether the station at place `i` of the stations is the selected
    /// entry.
    pub fn station_is_selected(&self, i: usize) -> (selected: bool)
        ensures
            selected == (i == self.selected_stream_index),
    {
        i == self.selected_stream_index
    }

    /// Whether the mixtape at place `i` of the mixtapes is the selected
    /// entry.
    pub fn mixtape_is_selected(&self, i: usize) -> (selected: bool)
        ensures
            selected == (i + 2 == self.selected_stream_index),
    {
        self.selected_stream_index >= 2 && i == self.selected_stream_index - 2
    }

    /// What to show of the recogniser: its result, or that it is at work.
    pub fn recognition_status(&self) -> (text: String)
        ensures
            text@ == match self.recognition_result {
                Some(result) => result@,
                None => RECOGNIZING@,
            },
    {
        match &self.recognition_result {
            Some(result) => result.clone(),
            None => RECOGNIZING.to_owned(),
        }
    }

    /// Handles a key: changes the state as the key asks and says what is
    /// left to do outside it.
    ///
    /// The arrow keys move the selection round the list; `=` and `-`
    /// lengthen and shorten the sample by a second, never below one; `j`
    /// and `k` scroll the history; the other keys leave the state as it is.
    pub fn handle_key_press(&mut self, key: Key) -> (action: Action)
        requires
            old(self).streams_collection.mixtapes@.len() + 2 <= usize::MAX,
            key == Key::Char('=') ==> old(self).duration < u64::MAX,
        ensures
            *final(self) == after_key(*old(self), key),
            action == action_for(*old(self), key),
    {
        let entries = self.streams_collection.mixtapes.len() + 2;
        match key {
            Key::Down => {
                let at = self.selected_stream_index % entries;
                proof {
                    lemma_add_mod_noop(self.selected_stream_index as int, 1, entries as int);
                    lemma_small_mod(1, entries as nat);
                    if at + 1 == entries {
                        lemma_mod_self_0(entries as int);
                    } else {
                        lemma_small_mod((at + 1) as nat, entries as nat);
                    }
                }
                self.selected_stream_index = if at + 1 == entries {
                    0
                } else {
                    at + 1
                };
                Action::Nothing
            },
            Key::Up => {
                let at = self.selected_stream_index % entries;
                proof {
                    lemma_add_mod_noop(
                        self.selected_stream_index as int,
                        entries - 1,
                        entries as int,
                    );
                    lemma_small_mod((entries - 1) as nat, entries as nat);
                    if at == 0 {
                    } else {
                        lemma_add_mod_noop((at - 1) as int, entries as int, entries as int);
                        lemma_mod_self_0(entries as int);
                        lemma_small_mod((at - 1) as nat, entries as nat);
                    }
                }
                self.selected_stream_index = if at == 0 {
                    entries - 1
                } else {
                    at - 1
                };
                Action::Nothing
            },
            Key::Enter => {
                if self.selected_stream_index <= 1 {
                    Action::Play(StreamType::Station)
                } else {
                    Action::Play(StreamType::Mixtape)
                }
            },
            Key::Char(c) => {
                if c == 'q' {
                    Action::Quit
                } else if c == ' ' {
                    Action::Stop
                } else if c == 'r' {
                    if self.current_stream_url.is_some() {
                        Action::Recognize
                    } else {
                        Action::Nothing
                    }
                } else if c == '=' {
                    self.duration = self.duration + 1;
                    Action::ShowDuration
                } else if c == '-' {
                    if self.duration > 1 {
                        self.duration = self.duration - 1;
                        Action::ShowDuration
                    } else {
                        Action::Nothing
                    }
                } else if c == '<' {
                    Action::LowerVolume
                } else if c == '>' {
                    Action::RaiseVolume
                } else if c == 'j' {
                    self.vertical_scroll = self.vertical_scroll.saturating_add(1);
                    Action::Scroll
                } else if c == 'k' {
                    self.vertical_scroll = self.vertical_scroll.saturating_sub(1);
                    Action::Scroll
                } else {
                    Action::Nothing
                }
            },
            Key::Other => Action::Nothing,
        }
    }
}

} // verus!
