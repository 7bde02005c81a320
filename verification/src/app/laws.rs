//! What holds of the player across events.
use vstd::prelude::*;
use crate::app::state::{App, Effect, MatchState, Message};
use crate::app::update::{lemma_scan_list_bounds, linked_by_cache, scan_list, step, track_key};
use crate::cache::LinkView;
use crate::library::TrackMeta;
use crate::matcher::{AutoMatchResult, SearchResult};
use crate::app::update::linked_track;

verus! {

/// Law: once the current track is scrobbled, the ticks that follow ask for
/// no scrobble until another track starts.
pub proof fn law_scrobble_once(old: App, new: App, eff: Seq<Effect>)
    requires
        old.wf(),
        old.scrobbled,
        step(old, Message::ScrobbleTick, new, eff),
    ensures
        eff.len() == 0,
        new.scrobbled,
        new.current == old.current,
{
}

/// Law: a track the user skipped is never scrobbled.
pub proof fn law_skipped_not_scrobbled(old: App, new: App, eff: Seq<Effect>)
    requires
        old.wf(),
        old.current matches Some(c) && !old.queue@[c as int].linked,
        step(old, Message::ScrobbleTick, new, eff),
    ensures
        forall|i: int| 0 <= i < eff.len() ==> !(#[trigger] eff[i] is Scrobble),
{
}

/// Law: `Previous` after `Next` comes back to the track that played,
/// unless `Next` wrapped around from the last track.
pub proof fn law_next_then_previous(a: App, b: App, c: App, e1: Seq<Effect>, e2: Seq<Effect>, i: usize)
    requires
        a.wf(),
        a.current == Some(i),
        i + 1 < a.queue.len(),
        step(a, Message::Next, b, e1),
        step(b, Message::Previous, c, e2),
    ensures
        b.current == Some((i + 1) as usize),
        c.current == Some(i),
        c.queue == a.queue,
        c.playing,
{
    assert((i + 1) % (a.queue@.len() as int) == i + 1) by (nonlinear_arith)
        requires
            0 <= i + 1 < a.queue@.len(),
    ;
}

/// Law: after a token is received, the player asks Last.fm for the session
/// fifteen times at most: each poll uses up one attempt, and none is made
/// without one.
pub proof fn law_poll_uses_attempt(old: App, new: App, eff: Seq<Effect>)
    requires
        old.wf(),
        step(old, Message::AuthPollTick, new, eff),
    ensures
        eff.len() > 0 ==> old.auth_poll_attempts_left > 0 && new.auth_poll_attempts_left
            == old.auth_poll_attempts_left - 1,
        eff.len() == 0 ==> new == old,
{
}

/// Law: a token grants fifteen attempts.
pub proof fn law_token_grants_attempts(old: App, new: App, eff: Seq<Effect>, token: String)
    requires
        old.wf(),
        step(old, Message::AuthTokenReceived(Some(token)), new, eff),
    ensures
        new.auth_poll_attempts_left == 15,
        new.auth_token == Some(token),
{
}

/// Law: linking or skipping the track under review moves the review on:
/// one track fewer remains, or the matching is done after the last.
pub proof fn law_review_moves_on(old: App, m: Message, new: App, eff: Seq<Effect>)
    requires
        old.wf(),
        old.accepts(m),
        m is LinkTrack || m is SkipTrack,
        old.match_state matches MatchState::Reviewing { .. },
        step(old, m, new, eff),
    ensures
        match old.match_state {
            MatchState::Reviewing { pending, .. } => if pending@.len() == 1 {
                new.match_state is Done
            } else {
                new.match_state matches MatchState::Reviewing { pending: p, .. } && p@
                    == pending@.drop_first()
            },
            _ => false,
        },
{
}

/// Law: a link stored for a track (by linking it in the review) is applied
/// when a folder with that file is opened again: the track comes back
/// linked to the same Last.fm title and artist.
pub proof fn law_link_applied_on_reopen(
    a: App,
    i: usize,
    result: SearchResult,
    b: App,
    e1: Seq<Effect>,
    tracks: Vec<TrackMeta>,
    j: int,
    c: App,
    e2: Seq<Effect>,
)
    requires
        a.wf(),
        a.accepts(Message::LinkTrack(i, result)),
        step(a, Message::LinkTrack(i, result), b, e1),
        b.wf(),
        b.scrobbler.session_key.is_some(),
        0 <= j < tracks@.len(),
        track_key(tracks@[j]) == track_key(a.queue@[i as int]),
        step(b, Message::FolderPicked(Some(tracks)), c, e2),
    ensures
        c.queue@[j].linked,
        c.queue@[j].lastfm_title matches Some(t) && t@ == result.title@,
        c.queue@[j].lastfm_artist matches Some(x) && x@ == result.artist@,
{
    let key = track_key(a.queue@[i as int]);
    assert(b.link_cache@.contains_key(key));
    assert(linked_by_cache(tracks@[j], c.queue@[j], b.link_cache@));
}

/// Law: a skip stored for a track is applied when a folder with that file
/// is opened again: the track comes back unlinked.
pub proof fn law_skip_applied_on_reopen(
    a: App,
    i: usize,
    b: App,
    e1: Seq<Effect>,
    tracks: Vec<TrackMeta>,
    j: int,
    c: App,
    e2: Seq<Effect>,
)
    requires
        a.wf(),
        a.accepts(Message::SkipTrack(i)),
        step(a, Message::SkipTrack(i), b, e1),
        b.scrobbler.session_key.is_some(),
        0 <= j < tracks@.len(),
        track_key(tracks@[j]) == track_key(a.queue@[i as int]),
        step(b, Message::FolderPicked(Some(tracks)), c, e2),
    ensures
        !c.queue@[j].linked,
{
    let key = track_key(a.queue@[i as int]);
    assert(b.link_cache@.contains_key(key));
    assert(linked_by_cache(tracks@[j], c.queue@[j], b.link_cache@));
}

/// The positions that the player holds point into its queue: the current
/// track, and the tracks of an open review (of which there is at least
/// one).
pub open spec fn indices_in_queue(a: App) -> bool {
    &&& (a.current matches Some(c) ==> c < a.queue@.len())
    &&& (a.match_state matches MatchState::Reviewing { pending, .. } ==> {
        &&& pending@.len() > 0
        &&& forall|k: int| 0 <= k < pending@.len() ==> #[trigger] pending@[k] < a.queue@.len()
    })
}

/// Law: an event whose track positions are in the queue leaves every
/// position that the player holds in the queue, so no later event (the
/// preview of the first pending track, `Next`, `Previous`) looks past it.
pub proof fn law_update_keeps_indices(old: App, m: Message, new: App, eff: Seq<Effect>)
    requires
        indices_in_queue(old),
        old.accepts(m),
        step(old, m, new, eff),
    ensures
        indices_in_queue(new),
{
    match m {
        Message::TrackScanned(idx, result) => {
            let q1 = match result {
                AutoMatchResult::Matched { title, artist } => old.queue@.update(
                    idx as int,
                    linked_track(old.queue@[idx as int], title, artist),
                ),
                AutoMatchResult::NeedsReview => old.queue@,
            };
            lemma_scan_list_bounds(q1);
        },
        Message::FolderPicked(Some(tracks)) => {
            lemma_scan_list_bounds(new.queue@);
        },
        _ => {},
    }
}

/// Law: a scrobble goes out under the Last.fm names of the track where it
/// is linked to them, and under its own tags where it is not: the artist
/// is the track's Last.fm artist if it has one, else its tag artist, and
/// likewise the title; the album is the track's album.
pub proof fn law_scrobble_uses_lastfm_names(old: App, new: App, eff: Seq<Effect>)
    requires
        old.wf(),
        step(old, Message::ScrobbleTick, new, eff),
        eff.len() > 0,
    ensures
        old.current matches Some(c) && c < old.queue@.len(),
        eff.len() == 1,
        eff[0] is Scrobble,
        match (old.current, eff[0]) {
            (Some(c), Effect::Scrobble { artist, title, album, session_key, .. }) => {
                let t = old.queue@[c as int];
                &&& (match t.lastfm_artist {
                    Some(x) => artist == x,
                    None => artist == t.artist,
                })
                &&& (match t.lastfm_title {
                    Some(x) => title == x,
                    None => title == t.title,
                })
                &&& album == t.album
                &&& old.scrobbler.session_key == Some(session_key)
            },
            _ => false,
        },
{
}

/// Law: once saved, the Last.fm settings are the ones in use: the user
/// name, API key and secret become the ones typed in the settings screen,
/// and the next `LastfmTick` asks Last.fm about the saved user with the
/// saved key.
pub proof fn law_saved_settings_in_use(
    old: App,
    mid: App,
    e1: Seq<Effect>,
    new: App,
    e2: Seq<Effect>,
)
    requires
        step(old, Message::SettingsSaved(true), mid, e1),
        step(mid, Message::LastfmTick, new, e2),
    ensures
        mid.lastfm_username == old.settings_lastfm_username,
        mid.lastfm_api_key == old.settings_lastfm_api_key,
        mid.scrobbler.api_key == old.settings_lastfm_api_key,
        mid.scrobbler.api_secret == old.settings_lastfm_api_secret,
        e2 == seq![
            Effect::FetchNowPlaying {
                api_key: old.settings_lastfm_api_key,
                username: old.settings_lastfm_username,
            },
        ],
{
}

} // verus!
