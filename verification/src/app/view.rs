//! The texts that the screens show, computed from the state.
use vstd::prelude::*;
use crate::app::state::{App, MatchState, Message};
use crate::library::{format_minutes_seconds, minutes_seconds_text};
use crate::matcher::SearchResult;
use crate::text::{concat, decimal, push_decimal};

verus! {

broadcast use vstd::string::group_string_axioms;

/// The duration of a search result in minutes and seconds, or `--:--`
/// when it is unknown.
pub open spec fn result_duration_text(secs: u64) -> Seq<char> {
    if secs > 0 {
        minutes_seconds_text(secs)
    } else {
        "--:--"@
    }
}

/// The second line of a search result: its artist and its duration.
pub fn search_result_line(result: &SearchResult) -> (r: String)
    ensures
        r@ == result.artist@ + " \u{b7} "@ + result_duration_text(result.duration_secs),
{
    let d = if result.duration_secs > 0 {
        format_minutes_seconds(result.duration_secs)
    } else {
        String::from_str("--:--")
    };
    let mut r = concat(result.artist.as_str(), " \u{b7} ");
    r.append(d.as_str());
    r
}

/// What the result list of the review window shows.
#[derive(Debug, Clone, Copy, PartialEq, Eq, Structural)]
pub enum ResultsPanel {
    /// "Searching…", while a search runs.
    Searching,
    /// "No results found".
    NoResults,
    /// The results, each with a button that links it.
    Results,
}

/// The result list shows the search in progress, then either the results
/// or that there are none.
pub fn results_panel(search_loading: bool, result_count: usize) -> (r: ResultsPanel)
    ensures
        r == if search_loading {
            ResultsPanel::Searching
        } else if result_count == 0 {
            ResultsPanel::NoResults
        } else {
            ResultsPanel::Results
        },
{
    if search_loading {
        ResultsPanel::Searching
    } else if result_count == 0 {
        ResultsPanel::NoResults
    } else {
        ResultsPanel::Results
    }
}

/// What pressing a search result (or its Link button) in the review
/// window sends: link the track shown to that result.
pub fn link_message(idx: usize, result: &SearchResult) -> (r: Message)
    ensures
        r == Message::LinkTrack(idx, *result),
{
    Message::LinkTrack(idx, result.duplicate())
}

impl App {
    /// A review window is open: the library behind it is dimmed.
    pub fn review_open(&self) -> (r: bool)
        ensures
            r == self.match_state is Reviewing,
    {
        match &self.match_state {
            MatchState::Reviewing { .. } => true,
            _ => false,
        }
    }

    /// What pressing a row of the library sends: it selects the track,
    /// unless a review window is open, where rows cannot be pressed.
    pub fn row_press(&self, idx: usize) -> (r: Option<Message>)
        ensures
            r == if self.match_state is Reviewing {
                None
            } else {
                Some(Message::SelectTrack(idx))
            },
    {
        if self.review_open() {
            None
        } else {
            Some(Message::SelectTrack(idx))
        }
    }

    /// The track that the review window shows: the first one pending, if
    /// a review is open.
    pub fn review_track(&self) -> (r: Option<usize>)
        ensures
            r == match self.match_state {
                MatchState::Reviewing { pending, .. } => if pending@.len() > 0 {
                    Some(pending@[0])
                } else {
                    None
                },
                _ => None,
            },
    {
        match &self.match_state {
            MatchState::Reviewing { pending, .. } => {
                if pending.len() > 0 {
                    Some(pending[0])
                } else {
                    None
                }
            },
            _ => None,
        }
    }

    /// What the play button sends: `Pause` (with the pause icon) while a
    /// track plays, else `Play`.
    pub fn play_pause_message(&self) -> (r: Message)
        ensures
            r == if self.playing {
                Message::Pause
            } else {
                Message::Play
            },
    {
        if self.playing {
            Message::Pause
        } else {
            Message::Play
        }
    }

    /// The text that the library shows in place of its rows when the
    /// queue is empty.
    pub fn library_placeholder(&self) -> (r: Option<String>)
        ensures
            if self.queue@.len() == 0 {
                r matches Some(s) && s@ == "Open a folder to load music"@
            } else {
                r.is_none()
            },
    {
        if self.queue.len() == 0 {
            Some(String::from_str("Open a folder to load music"))
        } else {
            None
        }
    }

    /// The title of a row of the library: marked `⊘` when skipped, `?`
    /// when it still waits for a Last.fm match (with a session), plain
    /// otherwise.
    pub fn track_title_display(&self, idx: usize) -> (r: String)
        requires
            idx < self.queue@.len(),
        ensures
            ({
                let t = self.queue@[idx as int];
                r@ == if !t.linked {
                    "\u{2298} "@ + t.title@
                } else if t.lastfm_title.is_none() && self.scrobbler.session_key.is_some() {
                    "? "@ + t.title@
                } else {
                    t.title@
                }
            }),
    {
        let t = &self.queue[idx];
        if !t.linked {
            concat("\u{2298} ", t.title.as_str())
        } else if t.lastfm_title.is_none() && self.scrobbler.is_authenticated() {
            concat("? ", t.title.as_str())
        } else {
            t.title.clone()
        }
    }

    /// The first column of a row: `>` for the track that plays, else its
    /// number counted from one.
    pub fn row_number(&self, idx: usize) -> (r: String)
        requires
            idx < self.queue@.len(),
            idx < usize::MAX,
        ensures
            r@ == if self.current == Some(idx) && self.playing {
                ">"@
            } else {
                decimal((idx + 1) as nat)
            },
    {
        if self.current == Some(idx) && self.playing {
            String::from_str(">")
        } else {
            let mut r = String::new();
            push_decimal(&mut r, (idx + 1) as u64);
            assert(r@ =~= decimal((idx + 1) as nat));
            r
        }
    }

    /// The banner shown while tracks are matched.
    pub fn scanning_banner(&self) -> (r: Option<String>)
        ensures
            match self.match_state {
                MatchState::Scanning { total, done } => r matches Some(s) && s@
                    == "Matching tracks with Last.fm\u{2026} "@ + decimal(done as nat) + "/"@
                    + decimal(total as nat),
                _ => r.is_none(),
            },
    {
        match &self.match_state {
            MatchState::Scanning { total, done } => {
                let mut s = String::from_str("Matching tracks with Last.fm\u{2026} ");
                push_decimal(&mut s, *done as u64);
                s.append("/");
                push_decimal(&mut s, *total as u64);
                Some(s)
            },
            _ => None,
        }
    }

    /// The title, artist and album of the now-playing panel.
    pub fn now_playing_labels(&self) -> (r: (String, String, String))
        ensures
            match self.current {
                Some(c) => if c < self.queue@.len() {
                    let t = self.queue@[c as int];
                    r.0 == t.title && r.1 == t.artist && r.2 == t.album
                } else {
                    r.0@ == "No track selected"@ && r.1@.len() == 0 && r.2@.len() == 0
                },
                None => r.0@ == "No track selected"@ && r.1@.len() == 0 && r.2@.len() == 0,
            },
    {
        match self.current {
            Some(c) => {
                if c < self.queue.len() {
                    let t = &self.queue[c];
                    return (t.title.clone(), t.artist.clone(), t.album.clone());
                }
            },
            None => {},
        }
        (String::from_str("No track selected"), String::new(), String::new())
    }
}

/// The header of the review window.
pub fn review_header(remaining: usize) -> (r: String)
    ensures
        r@ == "Unrecognized track \u{2014} "@ + decimal(remaining as nat) + " remaining"@,
{
    let mut s = String::from_str("Unrecognized track \u{2014} ");
    push_decimal(&mut s, remaining as u64);
    s.append(" remaining");
    s
}

} // verus!
