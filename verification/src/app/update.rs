//! How each event changes the player, and what it asks to be done.
use vstd::prelude::*;
use crate::app::state::{timer_cap, App, Effect, MatchState, Message};
use crate::cache::{cache_key, cache_key_spec, CachedLink, LinkView};
use crate::lastfm::SimilarTrack;
use crate::library::TrackMeta;
use crate::matcher::{AutoMatchResult, SearchResult};
use crate::recommender::{rank_candidates, rank_spec};
use crate::scrobbler::Scrobbler;
use crate::text::concat;
use crate::theme::{AppTheme, Screen};

verus! {

broadcast use vstd::string::group_string_axioms;

// ---------------------------------------------------------------------
// The specification of each event
// ---------------------------------------------------------------------

/// A track still to be matched: it has no Last.fm title and is not
/// skipped.
pub open spec fn needs_scan(t: TrackMeta) -> bool {
    t.lastfm_title.is_none() && t.linked
}

/// The positions of the tracks still to be matched, in queue order.
pub open spec fn scan_list(q: Seq<TrackMeta>) -> Seq<usize>
    decreases q.len(),
{
    if q.len() == 0 {
        Seq::empty()
    } else {
        scan_list(q.drop_last()) + (if needs_scan(q.last()) {
            seq![(q.len() - 1) as usize]
        } else {
            Seq::empty()
        })
    }
}

/// The first track after `idx` still to be matched.
pub open spec fn next_to_scan(q: Seq<TrackMeta>, idx: int) -> Option<usize> {
    if exists|j: int| idx < j < q.len() && needs_scan(#[trigger] q[j]) {
        Some(
            (choose|j: int|
                idx < j < q.len() && needs_scan(#[trigger] q[j]) && forall|k: int|
                    idx < k < j ==> !needs_scan(q[k])) as usize,
        )
    } else {
        None
    }
}

/// A track linked to a Last.fm title and artist.
pub open spec fn linked_track(t: TrackMeta, title: String, artist: String) -> TrackMeta {
    TrackMeta { lastfm_title: Some(title), lastfm_artist: Some(artist), linked: true, ..t }
}

/// A track the user skipped.
pub open spec fn skipped_track(t: TrackMeta) -> TrackMeta {
    TrackMeta { linked: false, ..t }
}

pub open spec fn link_view(title: Seq<char>, artist: Seq<char>, skipped: bool) -> LinkView {
    LinkView { lastfm_title: title, lastfm_artist: artist, skipped, last_played: None }
}

/// The key of a track in the links.
pub open spec fn track_key(t: TrackMeta) -> Seq<char> {
    cache_key_spec(t.file_name@, t.duration_secs)
}

/// The effect that stores a link for a track.
pub open spec fn persists(e: Effect, t: TrackMeta, title: Seq<char>, artist: Seq<char>, skipped: bool) -> bool {
    e matches Effect::PersistLink { key, link } && key@ == track_key(t) && link@ == link_view(
        title,
        artist,
        skipped,
    )
}

/// A track after the stored links are applied to it: a skipped link
/// unlinks it, another link gives it its Last.fm title and artist.
pub open spec fn linked_by_cache(t: TrackMeta, n: TrackMeta, cache: Map<Seq<char>, LinkView>) -> bool {
    let key = track_key(t);
    &&& n == TrackMeta {
        lastfm_title: n.lastfm_title,
        lastfm_artist: n.lastfm_artist,
        linked: n.linked,
        ..t
    }
    &&& if cache.contains_key(key) {
        if cache[key].skipped {
            !n.linked && n.lastfm_title == t.lastfm_title && n.lastfm_artist == t.lastfm_artist
        } else {
            &&& n.linked
            &&& n.lastfm_title matches Some(x) && x@ == cache[key].lastfm_title
            &&& n.lastfm_artist matches Some(y) && y@ == cache[key].lastfm_artist
        }
    } else {
        n == t
    }
}

/// The review of the tracks in `pending` begins (or matching is done
/// when there are none): the first is shown, with a search for its title
/// and artist.
pub open spec fn review_started(
    api_key: String,
    q: Seq<TrackMeta>,
    pending: Seq<usize>,
    ms: MatchState,
    eff: Seq<Effect>,
) -> bool {
    if pending.len() == 0 {
        ms is Done && eff.len() == 0
    } else {
        let first = q[pending[0] as int];
        &&& ms matches MatchState::Reviewing {
            pending: p,
            search_query: sq,
            search_results: sr,
            search_loading: sl,
            preview_playing: pp,
        } && p@ == pending && sq@ == first.title@ + seq![' '] + first.artist@ && sr@.len() == 0
            && sl && !pp
        &&& eff == seq![
            Effect::SearchTracks { api_key: api_key, title: first.title, artist: first.artist },
        ]
    }
}

/// The review moves past the track shown: the preview stops, and the
/// review goes on with the remaining tracks.
pub open spec fn review_advanced(mid: App, new: App, eff: Seq<Effect>) -> bool {
    &&& eff.len() > 0
    &&& eff[0] == Effect::PausePlayer
    &&& match mid.match_state {
        MatchState::Reviewing { pending, .. } => {
            &&& new == App { match_state: new.match_state, ..mid }
            &&& review_started(
                mid.lastfm_api_key,
                mid.queue@,
                pending@.drop_first(),
                new.match_state,
                eff.drop_first(),
            )
        },
        _ => new == mid && eff.len() == 1,
    }
}

/// A track is stored as linked (or skipped), and the review moves on.
pub open spec fn link_then_advance(
    old: App,
    new: App,
    i: int,
    n: TrackMeta,
    title: Seq<char>,
    artist: Seq<char>,
    skipped: bool,
    eff: Seq<Effect>,
) -> bool {
    let t = old.queue@[i];
    &&& new.queue@ == old.queue@.update(i, n)
    &&& new.link_cache@ == old.link_cache@.insert(track_key(t), link_view(title, artist, skipped))
    &&& eff.len() > 0
    &&& persists(eff[0], t, title, artist, skipped)
    &&& review_advanced(
        App { queue: new.queue, link_cache: new.link_cache, ..old },
        new,
        eff.drop_first(),
    )
}

/// The seconds of play at which a track is scrobbled: half its duration,
/// at least 30 and at most 240.
pub open spec fn scrobble_due(timer: u64, duration: u64) -> bool {
    timer >= 30 && (timer >= 240 || 2 * timer >= duration)
}

/// The track starts to play from its beginning.
pub open spec fn starts_track(old: App, new: App, idx: usize, ms: MatchState) -> bool {
    new == App {
        match_state: ms,
        current: Some(idx),
        playing: true,
        scrobble_timer: 0,
        scrobbled: false,
        current_duration_secs: old.queue@[idx as int].duration_secs,
        ..old
    }
}

/// The Last.fm name of a track where it has one, else its own.
pub open spec fn or_own(lastfm: Option<String>, own: String) -> String {
    match lastfm {
        Some(x) => x,
        None => own,
    }
}

/// Everything that `update` does with an event, by event.
pub open spec fn step(old: App, m: Message, new: App, eff: Seq<Effect>) -> bool {
    match m {
        Message::OpenFolder => new == old && eff == seq![Effect::PickFolder],
        Message::FolderPicked(None) => new == old && eff.len() == 0,
        Message::FolderPicked(Some(tracks)) => {
            &&& new == App {
                queue: new.queue,
                current: None,
                playing: false,
                match_state: new.match_state,
                ..old
            }
            &&& if old.scrobbler.session_key is None {
                new.queue@ == tracks@ && new.match_state is Idle && eff.len() == 0
            } else {
                let l = scan_list(new.queue@);
                &&& new.queue@.len() == tracks@.len()
                &&& forall|i: int|
                    0 <= i < tracks@.len() ==> linked_by_cache(
                        #[trigger] tracks@[i],
                        new.queue@[i],
                        old.link_cache@,
                    )
                &&& if l.len() == 0 {
                    new.match_state is Done && eff.len() == 0
                } else {
                    new.match_state == (MatchState::Scanning { total: l.len() as usize, done: 0 })
                        && eff == seq![Effect::Dispatch(Message::ScanTrack(l[0]))]
                }
            }
        },
        Message::ScanTrack(i) => {
            let t = old.queue@[i as int];
            &&& new == old
            &&& eff == seq![
                Effect::AutoMatch {
                    idx: i,
                    api_key: old.lastfm_api_key,
                    title: t.title,
                    artist: t.artist,
                    duration_secs: t.duration_secs,
                },
            ]
        },
        Message::TrackScanned(idx, result) => {
            let q1 = match result {
                AutoMatchResult::Matched { title, artist } => old.queue@.update(
                    idx as int,
                    linked_track(old.queue@[idx as int], title, artist),
                ),
                AutoMatchResult::NeedsReview => old.queue@,
            };
            let ms1 = match old.match_state {
                MatchState::Scanning { total, done } => MatchState::Scanning {
                    total,
                    done: (done + 1) as usize,
                },
                _ => old.match_state,
            };
            let rest = if result is Matched {
                eff.drop_first()
            } else {
                eff
            };
            &&& new.queue@ == q1
            &&& match result {
                AutoMatchResult::Matched { title, artist } => {
                    &&& new.link_cache@ == old.link_cache@.insert(
                        track_key(old.queue@[idx as int]),
                        link_view(title@, artist@, false),
                    )
                    &&& eff.len() > 0
                    &&& persists(eff[0], old.queue@[idx as int], title@, artist@, false)
                },
                AutoMatchResult::NeedsReview => new.link_cache == old.link_cache,
            }
            &&& match next_to_scan(q1, idx as int) {
                Some(j) => {
                    &&& new == App {
                        queue: new.queue,
                        link_cache: new.link_cache,
                        match_state: ms1,
                        ..old
                    }
                    &&& rest == seq![Effect::Dispatch(Message::ScanTrack(j))]
                },
                None => {
                    &&& new == App {
                        queue: new.queue,
                        link_cache: new.link_cache,
                        match_state: new.match_state,
                        ..old
                    }
                    &&& review_started(old.lastfm_api_key, q1, scan_list(q1), new.match_state, rest)
                },
            }
        },
        Message::SearchQueryChanged(q) => eff.len() == 0 && match old.match_state {
            MatchState::Reviewing {
                pending,
                search_results,
                search_loading,
                preview_playing,
                ..
            } => new == App {
                match_state: MatchState::Reviewing {
                    pending,
                    search_query: q,
                    search_results,
                    search_loading,
                    preview_playing,
                },
                ..old
            },
            _ => new == old,
        },
        Message::SearchSubmitted => match old.match_state {
            MatchState::Reviewing {
                pending,
                search_query,
                search_results,
                preview_playing,
                ..
            } => {
                &&& new == App {
                    match_state: MatchState::Reviewing {
                        pending,
                        search_query,
                        search_results,
                        search_loading: true,
                        preview_playing,
                    },
                    ..old
                }
                &&& eff == seq![
                    Effect::SearchByQuery { api_key: old.lastfm_api_key, query: search_query },
                ]
            },
            _ => new == old && eff.len() == 0,
        },
        Message::SearchResults(results) => eff.len() == 0 && match old.match_state {
            MatchState::Reviewing { pending, search_query, preview_playing, .. } => new == App {
                match_state: MatchState::Reviewing {
                    pending,
                    search_query,
                    search_results: results,
                    search_loading: false,
                    preview_playing,
                },
                ..old
            },
            _ => new == old,
        },
        Message::LinkTrack(i, result) => link_then_advance(
            old,
            new,
            i as int,
            linked_track(old.queue@[i as int], result.title, result.artist),
            result.title@,
            result.artist@,
            false,
            eff,
        ),
        Message::SkipTrack(i) => link_then_advance(
            old,
            new,
            i as int,
            skipped_track(old.queue@[i as int]),
            Seq::empty(),
            Seq::empty(),
            true,
            eff,
        ),
        Message::PreviewToggle => match old.match_state {
            MatchState::Reviewing {
                pending,
                search_query,
                search_results,
                search_loading,
                preview_playing,
            } => {
                &&& new == App {
                    match_state: MatchState::Reviewing {
                        pending,
                        search_query,
                        search_results,
                        search_loading,
                        preview_playing: !preview_playing,
                    },
                    ..old
                }
                &&& eff == if preview_playing {
                    seq![Effect::PausePlayer]
                } else {
                    seq![Effect::LoadTrack(pending@[0]), Effect::PlayPlayer]
                }
            },
            _ => new == old && eff.len() == 0,
        },
        Message::SelectTrack(idx) => {
            let t = old.queue@[idx as int];
            let ms = match old.match_state {
                MatchState::Reviewing {
                    pending,
                    search_query,
                    search_results,
                    search_loading,
                    ..
                } => MatchState::Reviewing {
                    pending,
                    search_query,
                    search_results,
                    search_loading,
                    preview_playing: false,
                },
                _ => old.match_state,
            };
            &&& starts_track(old, new, idx, ms)
            &&& eff == seq![Effect::LoadTrack(idx), Effect::PlayPlayer] + match old.scrobbler.session_key {
                Some(sk) => seq![
                    Effect::UpdateNowPlaying {
                        api_key: old.scrobbler.api_key,
                        api_secret: old.scrobbler.api_secret,
                        session_key: sk,
                        artist: or_own(t.lastfm_artist, t.artist),
                        title: or_own(t.lastfm_title, t.title),
                        album: t.album,
                    },
                ],
                None => seq![Effect::UpdateDiscord],
            }
        },
        Message::Play => new == App { playing: true, ..old } && eff == seq![
            Effect::PlayPlayer,
            Effect::UpdateDiscord,
        ],
        Message::Pause => new == App { playing: false, ..old } && eff == seq![
            Effect::PausePlayer,
            Effect::UpdateDiscord,
        ],
        Message::Next => if old.queue@.len() == 0 {
            new == old && eff.len() == 0
        } else {
            let next = match old.current {
                Some(c) => ((c + 1) % (old.queue@.len() as int)) as usize,
                None => 0usize,
            };
            starts_track(old, new, next, old.match_state) && eff == seq![
                Effect::LoadTrack(next),
                Effect::PlayPlayer,
                Effect::UpdateDiscord,
            ]
        },
        Message::Previous => if old.queue@.len() == 0 {
            new == old && eff.len() == 0
        } else {
            let prev = match old.current {
                Some(c) => if c > 0 {
                    (c - 1) as usize
                } else {
                    0usize
                },
                None => 0usize,
            };
            starts_track(old, new, prev, old.match_state) && eff == seq![
                Effect::LoadTrack(prev),
                Effect::PlayPlayer,
                Effect::UpdateDiscord,
            ]
        },
        Message::LastfmTick => new == old && eff == seq![
            Effect::FetchNowPlaying { api_key: old.lastfm_api_key, username: old.lastfm_username },
        ],
        Message::LastfmUpdated(t) => new == App { lastfm_track: t, ..old } && eff == seq![
            Effect::UpdateDiscord,
        ],
        Message::LastfmArtworkFetched(a) => new == App { lastfm_artwork: a, ..old } && eff.len()
            == 0,
        Message::StartAuth => new == old && eff == seq![
            Effect::RequestToken {
                api_key: old.scrobbler.api_key,
                api_secret: old.scrobbler.api_secret,
            },
        ],
        Message::AuthTokenReceived(None) => new == old && eff.len() == 0,
        Message::AuthTokenReceived(Some(token)) => {
            &&& new == App { auth_token: Some(token), auth_poll_attempts_left: 15, ..old }
            &&& eff.len() == 2
            &&& eff[0] matches Effect::OpenUrl(u) && u@ == "https://www.last.fm/api/auth/?api_key="@
                + old.scrobbler.api_key@ + "&token="@ + token@
            &&& eff[1] == Effect::Dispatch(Message::AuthPollTick)
        },
        Message::AuthCompleted(Some(sk)) => {
            &&& new == App {
                scrobbler: Scrobbler { session_key: Some(sk), ..old.scrobbler },
                auth_token: None,
                auth_poll_attempts_left: 0,
                ..old
            }
            &&& eff.len() == 1
            &&& eff[0] matches Effect::Log(s) && s@ == "Last.fm auth successful!"@
        },
        Message::AuthCompleted(None) => if old.auth_poll_attempts_left > 0
            && old.auth_token.is_some() {
            new == old && eff == seq![Effect::Dispatch(Message::AuthPollTick)]
        } else {
            &&& new == App { auth_token: None, ..old }
            &&& eff.len() == 1
            &&& eff[0] matches Effect::Log(s) && s@ == "Last.fm auth timed out or was not approved."@
        },
        Message::AuthPollTick => match old.auth_token {
            None => new == old && eff.len() == 0,
            Some(token) => if old.auth_poll_attempts_left == 0 {
                new == old && eff.len() == 0
            } else {
                &&& new == App {
                    auth_poll_attempts_left: (old.auth_poll_attempts_left - 1) as u8,
                    ..old
                }
                &&& eff == seq![
                    Effect::PollSession {
                        api_key: old.scrobbler.api_key,
                        api_secret: old.scrobbler.api_secret,
                        token: token,
                    },
                ]
            },
        },
        Message::ScrobbleTick => if !old.playing {
            new == old && eff.len() == 0
        } else {
            let timer = if old.scrobble_timer < timer_cap() {
                (old.scrobble_timer + 1) as u64
            } else {
                old.scrobble_timer
            };
            if old.scrobbled || !scrobble_due(timer, old.current_duration_secs) {
                new == App { scrobble_timer: timer, ..old } && eff.len() == 0
            } else {
                &&& new == App { scrobble_timer: timer, scrobbled: true, ..old }
                &&& match old.current {
                    Some(c) => if !old.queue@[c as int].linked {
                        eff.len() == 0
                    } else {
                        let t = old.queue@[c as int];
                        match old.scrobbler.session_key {
                            None => eff.len() == 0,
                            Some(sk) => eff == seq![
                                Effect::Scrobble {
                                    api_key: old.scrobbler.api_key,
                                    api_secret: old.scrobbler.api_secret,
                                    session_key: sk,
                                    artist: or_own(t.lastfm_artist, t.artist),
                                    title: or_own(t.lastfm_title, t.title),
                                    album: t.album,
                                },
                            ],
                        }
                    },
                    None => eff.len() == 0,
                }
            }
        },
        Message::RecommendationReady(similar) => {
            &&& eff.len() == 0
            &&& match old.current {
                Some(c) => new == old || {
                    &&& new == App { next_up: new.next_up, ..old }
                    &&& exists|now: u64|
                        rank_spec(old.queue@, old.link_cache@, similar@, c as int, now, new.next_up)
                },
                None => new == App { next_up: None, ..old },
            }
        },
        Message::OpenSettings => new == App { screen: Screen::Settings, ..old } && eff.len() == 0,
        Message::CloseSettings => new == App { screen: Screen::Library, ..old } && eff.len() == 0,
        Message::SettingsLastfmUsernameChanged(v) => new == App {
            settings_lastfm_username: v,
            ..old
        } && eff.len() == 0,
        Message::SettingsLastfmApiKeyChanged(v) => new == App {
            settings_lastfm_api_key: v,
            ..old
        } && eff.len() == 0,
        Message::SettingsLastfmApiSecretChanged(v) => new == App {
            settings_lastfm_api_secret: v,
            ..old
        } && eff.len() == 0,
        Message::SettingsApiKeyHoverChanged(b) => new == App {
            hover_show_lastfm_api_key: b,
            ..old
        } && eff.len() == 0,
        Message::SettingsApiSecretHoverChanged(b) => new == App {
            hover_show_lastfm_api_secret: b,
            ..old
        } && eff.len() == 0,
        Message::LibrarySearchChanged(v) => new == App { library_search: v, ..old } && eff.len()
            == 0,
        Message::SaveSettings => new == old && eff == seq![
            Effect::SaveLastfmSettings {
                api_key: old.settings_lastfm_api_key,
                api_secret: old.settings_lastfm_api_secret,
                username: old.settings_lastfm_username,
            },
        ],
        Message::SettingsSaved(ok) => eff.len() == 0 && if ok {
            new == App {
                lastfm_api_key: old.settings_lastfm_api_key,
                lastfm_username: old.settings_lastfm_username,
                scrobbler: Scrobbler {
                    api_key: old.settings_lastfm_api_key,
                    api_secret: old.settings_lastfm_api_secret,
                    session_key: None,
                },
                ..old
            }
        } else {
            new == old
        },
        Message::DiscordArtworkReady(u) => new == App { discord_artwork_url: u, ..old }
            && eff.len() == 0,
        Message::ThemeChanged(t) => {
            &&& new == App { app_theme: t, ..old }
            &&& eff.len() == 1
            &&& eff[0] matches Effect::SaveTheme(s) && s@ == t.label_spec()
        },
    }
}

// ---------------------------------------------------------------------
// Executable handlers
// ---------------------------------------------------------------------

/// A copy of a list of positions.
fn copy_indices(v: &Vec<usize>) -> (r: Vec<usize>)
    ensures
        r@ == v@,
{
    let mut r: Vec<usize> = Vec::new();
    let mut i: usize = 0;
    while i < v.len()
        invariant
            i <= v.len(),
            r@ == v@.take(i as int),
        decreases v.len() - i,
    {
        r.push(v[i]);
        assert(r@ =~= v@.take(i + 1));
        i += 1;
    }
    assert(v@.take(v.len() as int) =~= v@);
    r
}

/// The positions of the tracks still to be matched.
fn scan_list_exec(q: &Vec<TrackMeta>) -> (r: Vec<usize>)
    ensures
        r@ == scan_list(q@),
        forall|k: int| 0 <= k < r@.len() ==> #[trigger] r@[k] < q@.len(),
{
    let mut r: Vec<usize> = Vec::new();
    let mut i: usize = 0;
    while i < q.len()
        invariant
            i <= q.len(),
            r@ == scan_list(q@.take(i as int)),
            forall|k: int| 0 <= k < r@.len() ==> #[trigger] r@[k] < i,
        decreases q.len() - i,
    {
        let t = &q[i];
        proof {
            let s = q@.take(i + 1);
            assert(s.drop_last() =~= q@.take(i as int));
            assert(s.last() == q@[i as int]);
        }
        if t.lastfm_title.is_none() && t.linked {
            r.push(i);
        }
        i += 1;
    }
    assert(q@.take(q.len() as int) =~= q@);
    r
}

pub proof fn lemma_scan_list_bounds(q: Seq<TrackMeta>)
    ensures
        forall|k: int| 0 <= k < scan_list(q).len() ==> #[trigger] scan_list(q)[k] < q.len(),
    decreases q.len(),
{
    if q.len() > 0 {
        lemma_scan_list_bounds(q.drop_last());
        let a = scan_list(q.drop_last());
        let b: Seq<usize> = if needs_scan(q.last()) {
            seq![(q.len() - 1) as usize]
        } else {
            Seq::empty()
        };
        assert forall|k: int| 0 <= k < scan_list(q).len() implies #[trigger] scan_list(q)[k] < q.len() by {
            if k < a.len() {
                assert(scan_list(q)[k] == a[k]);
            } else {
                assert(scan_list(q)[k] == b[k - a.len()]);
            }
        }
    }
}

fn or_own_exec(lastfm: &Option<String>, own: &String) -> (r: String)
    ensures
        r == or_own(*lastfm, *own),
{
    match lastfm {
        Some(x) => x.clone(),
        None => own.clone(),
    }
}

impl App {
    /// Stores the link of the track at `idx` and, unless it is skipped,
    /// links the track.
    fn store_link(&mut self, idx: usize, title: String, artist: String, skipped: bool) -> (r: Vec<Effect>)
        requires
            old(self).wf(),
            idx < old(self).queue@.len(),
        ensures
            final(self).wf(),
            *final(self) == (App {
                queue: final(self).queue,
                link_cache: final(self).link_cache,
                ..*old(self)
            }),
            final(self).link_cache@ == old(self).link_cache@.insert(
                track_key(old(self).queue@[idx as int]),
                link_view(title@, artist@, skipped),
            ),
            final(self).queue@ == if skipped {
                old(self).queue@
            } else {
                old(self).queue@.update(
                    idx as int,
                    linked_track(old(self).queue@[idx as int], title, artist),
                )
            },
            r@.len() == 1,
            persists(r@[0], old(self).queue@[idx as int], title@, artist@, skipped),
    {
        let key = cache_key(self.queue[idx].file_name.as_str(), self.queue[idx].duration_secs);
        let link = CachedLink {
            lastfm_title: title.clone(),
            lastfm_artist: artist.clone(),
            skipped,
            last_played: None,
        };
        let copy = link.duplicate();
        let key2 = key.clone();
        self.link_cache.insert(key, link);
        if !skipped {
            let ghost t = self.queue@[idx as int];
            self.queue[idx].lastfm_title = Some(title);
            self.queue[idx].lastfm_artist = Some(artist);
            self.queue[idx].linked = true;
        }
        vec![Effect::PersistLink { key: key2, link: copy }]
    }

    /// Shows the first of `pending` for review, or ends the matching.
    fn start_review(&mut self, pending: Vec<usize>) -> (r: Vec<Effect>)
        requires
            old(self).wf(),
            forall|k: int| 0 <= k < pending@.len() ==> #[trigger] pending@[k] < old(self).queue@.len(),
        ensures
            final(self).wf(),
            *final(self) == (App { match_state: final(self).match_state, ..*old(self) }),
            review_started(
                old(self).lastfm_api_key,
                old(self).queue@,
                pending@,
                final(self).match_state,
                r@,
            ),
    {
        if pending.len() == 0 {
            self.match_state = MatchState::Done;
            return Vec::new();
        }
        let first = pending[0];
        let mut query = concat(self.queue[first].title.as_str(), " ");
        query.append(self.queue[first].artist.as_str());
        proof {
            reveal_strlit(" ");
        }
        let title = self.queue[first].title.clone();
        let artist = self.queue[first].artist.clone();
        let api_key = self.lastfm_api_key.clone();
        let ghost pv = pending@;
        assert(query@ == self.queue@[first as int].title@ + seq![' '] + self.queue@[first as int].artist@);
        self.match_state = MatchState::Reviewing {
            pending,
            search_query: query,
            search_results: Vec::new(),
            search_loading: true,
            preview_playing: false,
        };
        let mut r = Vec::new();
        r.push(Effect::SearchTracks { api_key, title, artist });
        assert(r@ =~= seq![Effect::SearchTracks { api_key: old(self).lastfm_api_key, title: old(self).queue@[pv[0] as int].title, artist: old(self).queue@[pv[0] as int].artist }]);
        r
    }

    /// Leaves the track under review: stops the preview and shows the next.
    fn advance_review(&mut self) -> (r: Vec<Effect>)
        requires
            old(self).wf(),
        ensures
            final(self).wf(),
            review_advanced(*old(self), *final(self), r@),
    {
        let mut eff = vec![Effect::PausePlayer];
        let mut rest = match &self.match_state {
            MatchState::Reviewing { pending, .. } => copy_indices(pending),
            _ => {
                return eff;
            },
        };
        let ghost p = rest@;
        rest.remove(0);
        assert(rest@ =~= p.drop_first());
        let mut more = self.start_review(rest);
        let ghost m = more@;
        eff.append(&mut more);
        assert(eff@.drop_first() =~= m);
        eff
    }

    fn handle_folder_picked(&mut self, tracks: Vec<TrackMeta>) -> (r: Vec<Effect>)
        requires
            old(self).wf(),
        ensures
            final(self).wf(),
            step(*old(self), Message::FolderPicked(Some(tracks)), *final(self), r@),
    {
        let ghost t0 = tracks@;
        self.queue = tracks;
        self.current = None;
        self.playing = false;
        if !self.scrobbler.is_authenticated() {
            self.match_state = MatchState::Idle;
            return Vec::new();
        }
        let n = self.queue.len();
        let mut i: usize = 0;
        let ghost s0 = *self;
        while i < n
            invariant
                *self == (App { queue: self.queue, ..s0 }),
                n == self.queue@.len() == t0.len(),
                i <= n,
                self.link_cache == old(self).link_cache,
                forall|j: int| 0 <= j < i ==> linked_by_cache(#[trigger] t0[j], self.queue@[j], self.link_cache@),
                forall|j: int| i <= j < n ==> #[trigger] self.queue@[j] == t0[j],
            decreases n - i,
        {
            let key = cache_key(self.queue[i].file_name.as_str(), self.queue[i].duration_secs);
            match self.link_cache.get(&key) {
                Some(cached) => {
                    if cached.skipped {
                        self.queue[i].linked = false;
                    } else {
                        let t = cached.lastfm_title.clone();
                        let a = cached.lastfm_artist.clone();
                        self.queue[i].lastfm_title = Some(t);
                        self.queue[i].lastfm_artist = Some(a);
                        self.queue[i].linked = true;
                    }
                },
                None => {},
            }
            i += 1;
        }
        let to_scan = scan_list_exec(&self.queue);
        if to_scan.len() == 0 {
            self.match_state = MatchState::Done;
            return Vec::new();
        }
        let first = to_scan[0];
        self.match_state = MatchState::Scanning { total: to_scan.len(), done: 0 };
        let mut r = Vec::new();
        r.push(Effect::Dispatch(Message::ScanTrack(first)));
        assert(r@ =~= seq![Effect::Dispatch(Message::ScanTrack(first))]);
        r
    }

    fn track_scanned(&mut self, idx: usize, result: AutoMatchResult) -> (r: Vec<Effect>)
        requires
            old(self).wf(),
            old(self).accepts(Message::TrackScanned(idx, result)),
        ensures
            final(self).wf(),
            step(*old(self), Message::TrackScanned(idx, result), *final(self), r@),
    {
        let ghost res = result;
        let mut eff: Vec<Effect> = Vec::new();
        match result {
            AutoMatchResult::Matched { title, artist } => {
                eff = self.store_link(idx, title, artist, false);
            },
            AutoMatchResult::NeedsReview => {},
        }
        let ghost e1 = eff@;
        match &mut self.match_state {
            MatchState::Scanning { done, .. } => {
                *done = *done + 1;
            },
            _ => {},
        }
        match find_next_scan(&self.queue, idx) {
            Some(j) => {
                eff.push(Effect::Dispatch(Message::ScanTrack(j)));
                proof {
                    if res is Matched {
                        assert(eff@.drop_first() =~= seq![Effect::Dispatch(Message::ScanTrack(j))]);
                    } else {
                        assert(eff@ =~= seq![Effect::Dispatch(Message::ScanTrack(j))]);
                    }
                }
            },
            None => {
                let pending = scan_list_exec(&self.queue);
                let mut more = self.start_review(pending);
                let ghost m = more@;
                eff.append(&mut more);
                proof {
                    if res is Matched {
                        assert(eff@.drop_first() =~= m);
                    } else {
                        assert(eff@ =~= m);
                    }
                }
            },
        }
        eff
    }

    /// Reviews the next track after a link or a skip.
    fn link_or_skip(&mut self, i: usize, title: String, artist: String, skipped: bool) -> (r: Vec<Effect>)
        requires
            old(self).wf(),
            i < old(self).queue@.len(),
        ensures
            final(self).wf(),
            link_then_advance(
                *old(self),
                *final(self),
                i as int,
                if skipped {
                    skipped_track(old(self).queue@[i as int])
                } else {
                    linked_track(old(self).queue@[i as int], title, artist)
                },
                title@,
                artist@,
                skipped,
                r@,
            ),
    {
        let ghost t0 = self.queue@[i as int];
        let mut eff = self.store_link(i, title, artist, skipped);
        if skipped {
            self.queue[i].linked = false;
            assert(self.queue@ =~= old(self).queue@.update(i as int, skipped_track(t0)));
        }
        let ghost mid = *self;
        let mut more = self.advance_review();
        let ghost m = more@;
        eff.append(&mut more);
        assert(eff@.drop_first() =~= m);
        eff
    }

    /// `PreviewToggle`: plays or pauses the track under review.
    fn preview_toggle(&mut self) -> (r: Vec<Effect>)
        requires
            old(self).wf(),
        ensures
            final(self).wf(),
            step(*old(self), Message::PreviewToggle, *final(self), r@),
    {
        match &mut self.match_state {
            MatchState::Reviewing { pending, preview_playing, .. } => {
                let idx = pending[0];
                if *preview_playing {
                    *preview_playing = false;
                    one(Effect::PausePlayer)
                } else {
                    *preview_playing = true;
                    two(Effect::LoadTrack(idx), Effect::PlayPlayer)
                }
            },
            _ => Vec::new(),
        }
    }

    /// `SelectTrack`: plays the chosen track from its start.
    fn select_track(&mut self, idx: usize) -> (r: Vec<Effect>)
        requires
            old(self).wf(),
            idx < old(self).queue@.len(),
        ensures
            final(self).wf(),
            step(*old(self), Message::SelectTrack(idx), *final(self), r@),
    {
        match &mut self.match_state {
            MatchState::Reviewing { preview_playing, .. } => {
                *preview_playing = false;
            },
            _ => {},
        }
        self.current = Some(idx);
        self.playing = true;
        self.scrobble_timer = 0;
        self.scrobbled = false;
        self.current_duration_secs = self.queue[idx].duration_secs;
        let mut eff = two(Effect::LoadTrack(idx), Effect::PlayPlayer);
        match &self.scrobbler.session_key {
            Some(sk) => {
                let t = &self.queue[idx];
                eff.push(
                    Effect::UpdateNowPlaying {
                        api_key: self.scrobbler.api_key.clone(),
                        api_secret: self.scrobbler.api_secret.clone(),
                        session_key: sk.clone(),
                        artist: or_own_exec(&t.lastfm_artist, &t.artist),
                        title: or_own_exec(&t.lastfm_title, &t.title),
                        album: t.album.clone(),
                    },
                );
            },
            None => {
                eff.push(Effect::UpdateDiscord);
            },
        }
        proof {
            let extra = match old(self).scrobbler.session_key {
                Some(sk) => seq![
                    Effect::UpdateNowPlaying {
                        api_key: old(self).scrobbler.api_key,
                        api_secret: old(self).scrobbler.api_secret,
                        session_key: sk,
                        artist: or_own(old(self).queue@[idx as int].lastfm_artist, old(self).queue@[idx as int].artist),
                        title: or_own(old(self).queue@[idx as int].lastfm_title, old(self).queue@[idx as int].title),
                        album: old(self).queue@[idx as int].album,
                    },
                ],
                None => seq![Effect::UpdateDiscord],
            };
            assert(eff@ =~= seq![Effect::LoadTrack(idx), Effect::PlayPlayer] + extra);
        }
        eff
    }

    /// `Next` (`forward`) or `Previous`: plays the neighbouring track.
    fn step_track(&mut self, forward: bool) -> (r: Vec<Effect>)
        requires
            old(self).wf(),
        ensures
            final(self).wf(),
            step(
                *old(self),
                if forward {
                    Message::Next
                } else {
                    Message::Previous
                },
                *final(self),
                r@,
            ),
    {
        let n = self.queue.len();
        if n == 0 {
            return Vec::new();
        }
        let target = if forward {
            match self.current {
                Some(c) => (c + 1) % n,
                None => 0,
            }
        } else {
            match self.current {
                Some(c) => if c > 0 {
                    c - 1
                } else {
                    0
                },
                None => 0,
            }
        };
        self.current = Some(target);
        self.playing = true;
        self.scrobble_timer = 0;
        self.scrobbled = false;
        self.current_duration_secs = self.queue[target].duration_secs;
        three(Effect::LoadTrack(target), Effect::PlayPlayer, Effect::UpdateDiscord)
    }

    /// `AuthPollTick`: asks Last.fm once more whether access was granted.
    fn auth_poll_tick(&mut self) -> (r: Vec<Effect>)
        requires
            old(self).wf(),
        ensures
            final(self).wf(),
            step(*old(self), Message::AuthPollTick, *final(self), r@),
    {
        let token = match &self.auth_token {
            None => {
                return Vec::new();
            },
            Some(t) => t.clone(),
        };
        if self.auth_poll_attempts_left == 0 {
            return Vec::new();
        }
        self.auth_poll_attempts_left = self.auth_poll_attempts_left - 1;
        one(
            Effect::PollSession {
                api_key: self.scrobbler.api_key.clone(),
                api_secret: self.scrobbler.api_secret.clone(),
                token,
            },
        )
    }

    /// `ScrobbleTick`: counts a second of play and scrobbles the track
    /// once it has played long enough.
    fn scrobble_tick(&mut self) -> (r: Vec<Effect>)
        requires
            old(self).wf(),
        ensures
            final(self).wf(),
            step(*old(self), Message::ScrobbleTick, *final(self), r@),
    {
        if !self.playing {
            return Vec::new();
        }
        if self.scrobble_timer < 16777216 {
            self.scrobble_timer = self.scrobble_timer + 1;
        }
        let t = self.scrobble_timer;
        let due = t >= 30 && (t >= 240 || 2 * t >= self.current_duration_secs);
        if self.scrobbled || !due {
            return Vec::new();
        }
        self.scrobbled = true;
        match self.current {
            None => Vec::new(),
            Some(c) => {
                let track = &self.queue[c];
                if !track.linked {
                    return Vec::new();
                }
                match &self.scrobbler.session_key {
                    None => Vec::new(),
                    Some(sk) => one(
                        Effect::Scrobble {
                            api_key: self.scrobbler.api_key.clone(),
                            api_secret: self.scrobbler.api_secret.clone(),
                            session_key: sk.clone(),
                            artist: or_own_exec(&track.lastfm_artist, &track.artist),
                            title: or_own_exec(&track.lastfm_title, &track.title),
                            album: track.album.clone(),
                        },
                    ),
                }
            },
        }
    }

    /// Handles one event: changes the state as `step` says and returns
    /// what is to be done outside, in order.
    pub fn update(&mut self, message: Message) -> (r: Vec<Effect>)
        requires
            old(self).wf(),
            old(self).accepts(message),
        ensures
            final(self).wf(),
            step(*old(self), message, *final(self), r@),
    {
        match message {
            Message::OpenFolder => one(Effect::PickFolder),
            Message::FolderPicked(Some(tracks)) => self.handle_folder_picked(tracks),
            Message::FolderPicked(None) => Vec::new(),
            Message::ScanTrack(i) => {
                let t = &self.queue[i];
                one(
                    Effect::AutoMatch {
                        idx: i,
                        api_key: self.lastfm_api_key.clone(),
                        title: t.title.clone(),
                        artist: t.artist.clone(),
                        duration_secs: t.duration_secs,
                    },
                )
            },
            Message::TrackScanned(i, result) => self.track_scanned(i, result),
            Message::SearchQueryChanged(q) => {
                match &mut self.match_state {
                    MatchState::Reviewing { search_query, .. } => {
                        *search_query = q;
                    },
                    _ => {},
                }
                Vec::new()
            },
            Message::SearchSubmitted => {
                match &mut self.match_state {
                    MatchState::Reviewing { search_query, search_loading, .. } => {
                        *search_loading = true;
                        let query = search_query.clone();
                        one(Effect::SearchByQuery { api_key: self.lastfm_api_key.clone(), query })
                    },
                    _ => Vec::new(),
                }
            },
            Message::SearchResults(results) => {
                match &mut self.match_state {
                    MatchState::Reviewing { search_results, search_loading, .. } => {
                        *search_results = results;
                        *search_loading = false;
                    },
                    _ => {},
                }
                Vec::new()
            },
            Message::LinkTrack(i, result) => self.link_or_skip(i, result.title, result.artist, false),
            Message::SkipTrack(i) => {
                let r = self.link_or_skip(i, String::new(), String::new(), true);
                r
            },
            Message::PreviewToggle => self.preview_toggle(),
            Message::SelectTrack(i) => self.select_track(i),
            Message::Play => {
                self.playing = true;
                two(Effect::PlayPlayer, Effect::UpdateDiscord)
            },
            Message::Pause => {
                self.playing = false;
                two(Effect::PausePlayer, Effect::UpdateDiscord)
            },
            Message::Next => self.step_track(true),
            Message::Previous => self.step_track(false),
            Message::LastfmTick => one(
                Effect::FetchNowPlaying {
                    api_key: self.lastfm_api_key.clone(),
                    username: self.lastfm_username.clone(),
                },
            ),
            Message::LastfmUpdated(t) => {
                self.lastfm_track = t;
                one(Effect::UpdateDiscord)
            },
            Message::LastfmArtworkFetched(a) => {
                self.lastfm_artwork = a;
                Vec::new()
            },
            Message::StartAuth => one(
                Effect::RequestToken {
                    api_key: self.scrobbler.api_key.clone(),
                    api_secret: self.scrobbler.api_secret.clone(),
                },
            ),
            Message::AuthTokenReceived(None) => Vec::new(),
            Message::AuthTokenReceived(Some(token)) => {
                let url = self.scrobbler.auth_url(token.as_str());
                self.auth_token = Some(token);
                self.auth_poll_attempts_left = 15;
                two(Effect::OpenUrl(url), Effect::Dispatch(Message::AuthPollTick))
            },
            Message::AuthCompleted(Some(sk)) => {
                self.scrobbler.session_key = Some(sk);
                self.auth_token = None;
                self.auth_poll_attempts_left = 0;
                one(Effect::Log(String::from_str("Last.fm auth successful!")))
            },
            Message::AuthCompleted(None) => {
                if self.auth_poll_attempts_left > 0 && self.auth_token.is_some() {
                    one(Effect::Dispatch(Message::AuthPollTick))
                } else {
                    self.auth_token = None;
                    one(Effect::Log(String::from_str("Last.fm auth timed out or was not approved.")))
                }
            },
            Message::AuthPollTick => self.auth_poll_tick(),
            Message::ScrobbleTick => self.scrobble_tick(),
            Message::RecommendationReady(similar) => {
                match self.current {
                    // With the clock before the Unix epoch nothing is ranked
                    // and the state stays as it was.
                    Some(c) => match rank_candidates(&self.queue, &self.link_cache, &similar, c) {
                        Ok(next) => {
                            self.next_up = next;
                        },
                        Err(_) => {},
                    },
                    None => {
                        self.next_up = None;
                    },
                }
                Vec::new()
            },
            Message::OpenSettings => {
                self.screen = Screen::Settings;
                Vec::new()
            },
            Message::CloseSettings => {
                self.screen = Screen::Library;
                Vec::new()
            },
            Message::SettingsLastfmUsernameChanged(v) => {
                self.settings_lastfm_username = v;
                Vec::new()
            },
            Message::SettingsLastfmApiKeyChanged(v) => {
                self.settings_lastfm_api_key = v;
                Vec::new()
            },
            Message::SettingsLastfmApiSecretChanged(v) => {
                self.settings_lastfm_api_secret = v;
                Vec::new()
            },
            Message::SettingsApiKeyHoverChanged(b) => {
                self.hover_show_lastfm_api_key = b;
                Vec::new()
            },
            Message::SettingsApiSecretHoverChanged(b) => {
                self.hover_show_lastfm_api_secret = b;
                Vec::new()
            },
            Message::LibrarySearchChanged(v) => {
                self.library_search = v;
                Vec::new()
            },
            Message::SaveSettings => one(
                Effect::SaveLastfmSettings {
                    api_key: self.settings_lastfm_api_key.clone(),
                    api_secret: self.settings_lastfm_api_secret.clone(),
                    username: self.settings_lastfm_username.clone(),
                },
            ),
            Message::SettingsSaved(ok) => {
                if ok {
                    self.lastfm_api_key = self.settings_lastfm_api_key.clone();
                    self.lastfm_username = self.settings_lastfm_username.clone();
                    self.scrobbler = Scrobbler::new(
                        self.settings_lastfm_api_key.clone(),
                        self.settings_lastfm_api_secret.clone(),
                    );
                }
                Vec::new()
            },
            Message::DiscordArtworkReady(u) => {
                self.discord_artwork_url = u;
                Vec::new()
            },
            Message::ThemeChanged(t) => {
                self.app_theme = t;
                one(Effect::SaveTheme(String::from_str(t.label())))
            },
        }
    }
}

fn one(e: Effect) -> (r: Vec<Effect>)
    ensures
        r@ == seq![e],
{
    let mut r = Vec::new();
    r.push(e);
    assert(r@ =~= seq![e]);
    r
}

fn two(a: Effect, b: Effect) -> (r: Vec<Effect>)
    ensures
        r@ == seq![a, b],
{
    let mut r = Vec::new();
    r.push(a);
    r.push(b);
    assert(r@ =~= seq![a, b]);
    r
}

fn three(a: Effect, b: Effect, c: Effect) -> (r: Vec<Effect>)
    ensures
        r@ == seq![a, b, c],
{
    let mut r = Vec::new();
    r.push(a);
    r.push(b);
    r.push(c);
    assert(r@ =~= seq![a, b, c]);
    r
}

/// The first track after `idx` still to be matched.
fn find_next_scan(q: &Vec<TrackMeta>, idx: usize) -> (r: Option<usize>)
    ensures
        r == next_to_scan(q@, idx as int),
{
    let mut j: usize = 0;
    while j < q.len()
        invariant
            j <= q@.len(),
            forall|k: int| idx < k < j ==> !needs_scan(#[trigger] q@[k]),
        decreases q.len() - j,
    {
        if j > idx && q[j].lastfm_title.is_none() && q[j].linked {
            proof {
                assert(idx < j < q@.len() && needs_scan(q@[j as int]));
                let w = choose|w: int|
                    idx < w < q@.len() && needs_scan(#[trigger] q@[w]) && forall|k: int|
                        idx < k < w ==> !needs_scan(q@[k]);
                if w < j {
                    assert(!needs_scan(q@[w]));
                } else if j < w {
                    assert(!needs_scan(q@[j as int]));
                }
            }
            return Some(j);
        }
        j += 1;
    }
    None
}

} // verus!
