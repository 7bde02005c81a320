//! What the player shows on Discord: the track that plays (or that
//! Last.fm reports), with the time it started and the time it ends.
use vstd::prelude::*;
use crate::app::state::App;
use crate::app::update::or_own;
use crate::encoding::{base64_encode, base64_spec};
use crate::num::{as_i64, u64_as_i64};
use crate::text::concat;

verus! {

broadcast use vstd::string::group_string_axioms;

/// A Discord activity.
#[derive(Debug, Clone)]
pub struct Activity {
    pub details: String,
    pub state: String,
    pub large_image: String,
    pub large_text: String,
    pub start: i64,
    pub end: i64,
}

/// The track to show: title, artist, album and duration; `None` clears
/// the activity. A Last.fm report wins (with the current duration); else a
/// playing queue track, under its Last.fm names where it has them.
pub open spec fn shown_track(app: App) -> Option<(String, String, String, u64)> {
    match app.lastfm_track {
        Some(t) => Some((t.name, t.artist.text, t.album.text, app.current_duration_secs)),
        None => if app.playing {
            match app.current {
                Some(c) => if c < app.queue@.len() {
                    let t = app.queue@[c as int];
                    Some(
                        (
                            or_own(t.lastfm_title, t.title),
                            or_own(t.lastfm_artist, t.artist),
                            t.album,
                            t.duration_secs,
                        ),
                    )
                } else {
                    None
                },
                None => None,
            }
        } else {
            None
        },
    }
}

/// The time left of the track: its duration, converted with `as i64`,
/// less the seconds played.
pub open spec fn time_left(app: App, d: u64) -> int {
    as_i64(d) - app.scrobble_timer as int
}

/// The start and end times can be computed in `i64`: the time left, the
/// start (`now` less the seconds played) and the end (`now` plus the time
/// left, if any) do not overflow.
pub open spec fn times_fit(app: App, now: i64) -> bool {
    match shown_track(app) {
        Some((_, _, _, d)) => {
            &&& i64::MIN <= time_left(app, d)
            &&& i64::MIN <= now - app.scrobble_timer
            &&& now + (if time_left(app, d) > 0 {
                time_left(app, d)
            } else {
                0
            }) <= i64::MAX
        },
        None => true,
    }
}

/// The activity for the player at `now` (seconds since the Unix epoch).
pub fn presence(app: &App, now: i64) -> (r: Option<Activity>)
    requires
        app.scrobble_timer <= crate::app::state::timer_cap(),
        times_fit(*app, now),
    ensures
        // A Last.fm report is shown under its own names.
        match app.lastfm_track {
            Some(lt) => (r matches Some(a) && a.details == lt.name && a.state@ == lt.artist.text@
                + " - "@ + lt.album.text@),
            None => true,
        },
        // A playing queue track (with no Last.fm report) is shown under its
        // Last.fm title and artist where it is linked, else its own tags.
        match app.current {
            Some(c) => (app.lastfm_track is None && app.playing && c < app.queue@.len()) ==> (
            r matches Some(a) && {
                let t = app.queue@[c as int];
                &&& (match t.lastfm_title {
                    Some(x) => a.details == x,
                    None => a.details == t.title,
                })
                &&& (match t.lastfm_artist {
                    Some(y) => a.state@ == y@ + " - "@ + t.album@,
                    None => a.state@ == t.artist@ + " - "@ + t.album@,
                })
            }),
            None => true,
        },
        // Nothing is shown when nothing plays and Last.fm reports nothing.
        app.lastfm_track is None && !app.playing ==> r.is_none(),
        match shown_track(*app) {
            None => r.is_none(),
            Some((title, artist, album, d)) => r matches Some(a) && {
                let elapsed = app.scrobble_timer as int;
                let left = time_left(*app, d);
                &&& a.details == title
                &&& a.state@ == artist@ + " - "@ + album@
                &&& a.large_text@ == title@ + " \u{b7} "@ + artist@
                &&& a.large_image@ == (match app.discord_artwork_url {
                    Some(u) => u@,
                    None => "music"@,
                })
                &&& a.start == now - elapsed
                &&& a.end == now + (if left > 0 {
                    left
                } else {
                    0
                })
            },
        },
{
    let (title, artist, album, duration) = match &app.lastfm_track {
        Some(t) => (t.name.clone(), t.artist.text.clone(), t.album.text.clone(), app.current_duration_secs),
        None => {
            if !app.playing {
                return None;
            }
            match app.current {
                None => {
                    return None;
                },
                Some(c) => {
                    if c >= app.queue.len() {
                        return None;
                    }
                    let t = &app.queue[c];
                    let title = match &t.lastfm_title {
                        Some(x) => x.clone(),
                        None => t.title.clone(),
                    };
                    let artist = match &t.lastfm_artist {
                        Some(x) => x.clone(),
                        None => t.artist.clone(),
                    };
                    (title, artist, t.album.clone(), t.duration_secs)
                },
            }
        },
    };
    let elapsed = app.scrobble_timer as i64;
    let diff = u64_as_i64(duration) - elapsed;
    let remaining = if diff > 0 { diff } else { 0 };
    let start = now - elapsed;
    let end = now + remaining;
    let mut state = concat(artist.as_str(), " - ");
    state.append(album.as_str());
    let mut large_text = concat(title.as_str(), " \u{b7} ");
    large_text.append(artist.as_str());
    let large_image = match &app.discord_artwork_url {
        Some(u) => u.clone(),
        None => String::from_str("music"),
    };
    Some(Activity { details: title, state, large_image, large_text, start, end })
}

/// The form that uploads artwork to the image host: the API key and the
/// picture in Base64.
pub fn artwork_upload_form(api_key: &str, bytes: &Vec<u8>) -> (r: Vec<(String, String)>)
    requires
        (bytes@.len() / 3) * 4 + (if bytes@.len() % 3 > 0 {
            4int
        } else {
            0int
        }) <= usize::MAX,
    ensures
        r@.len() == 2,
        r@[0].0@ == "key"@,
        r@[0].1@ == api_key@,
        r@[1].0@ == "image"@,
        r@[1].1@ == base64_spec(bytes@),
{
    let image = base64_encode(bytes.as_slice());
    let mut r = Vec::new();
    r.push((String::from_str("key"), api_key.to_owned()));
    r.push((String::from_str("image"), image));
    r
}

} // verus!
