//! Choosing the track to play next: a linked, not skipped track of the
//! queue, preferring ones that Last.fm finds similar to the current one
//! and ones played recently.
use vstd::prelude::*;
use crate::cache::{cache_key, cache_key_spec, LinkCache, LinkView};
use crate::lastfm::SimilarTrack;
use crate::library::TrackMeta;
use crate::text::{lowercase, to_lowercase};

verus! {

broadcast use vstd::string::group_string_axioms;

/// Seconds in a day: a play this long ago or longer earns no bonus.
pub open spec fn day_secs() -> int {
    86400
}

/// The link stored for a track, if any.
pub open spec fn entry_of(t: TrackMeta, cache: Map<Seq<char>, LinkView>) -> Option<LinkView> {
    let key = cache_key_spec(t.file_name@, t.duration_secs);
    if cache.contains_key(key) {
        Some(cache[key])
    } else {
        None
    }
}

pub open spec fn text_or_empty(s: Option<String>) -> Seq<char> {
    match s {
        Some(x) => x@,
        None => Seq::empty(),
    }
}

/// A track may come next: it is not the current one, it is linked, and
/// its link is not marked as skipped.
pub open spec fn is_candidate(
    t: TrackMeta,
    idx: int,
    current: int,
    cache: Map<Seq<char>, LinkView>,
) -> bool {
    &&& idx != current
    &&& t.linked
    &&& !(entry_of(t, cache) matches Some(e) && e.skipped)
}

/// Last.fm lists the track among the similar ones (title and artist equal
/// ignoring case; a missing Last.fm title or artist counts as empty).
pub open spec fn is_similar(t: TrackMeta, similar: Seq<SimilarTrack>) -> bool {
    exists|k: int|
        0 <= k < similar.len() && lowercase((#[trigger] similar[k]).title@) == lowercase(
            text_or_empty(t.lastfm_title),
        ) && lowercase(similar[k].artist@) == lowercase(text_or_empty(t.lastfm_artist))
}

/// The recency bonus in units of 1/172800: a day minus the age of the
/// last play, capped at a day; none without a recorded play.
pub open spec fn recency(t: TrackMeta, cache: Map<Seq<char>, LinkView>, now: u64) -> int {
    match entry_of(t, cache) {
        Some(e) => match e.last_played {
            Some(ts) => {
                let age: int = if now >= ts {
                    now - ts
                } else {
                    0
                };
                day_secs() - (if age < day_secs() {
                    age
                } else {
                    day_secs()
                })
            },
            None => 0,
        },
        None => 0,
    }
}

/// The score of a track, scaled by 172800 so that it is a whole number:
/// 1 for a similar track (172800) plus a bonus of up to 0.5 (86400) that
/// falls from a play just now to a play a day ago.
pub open spec fn score(
    t: TrackMeta,
    similar: Seq<SimilarTrack>,
    cache: Map<Seq<char>, LinkView>,
    now: u64,
) -> int {
    (if is_similar(t, similar) {
        2 * day_secs()
    } else {
        0
    }) + recency(t, cache, now)
}

/// `i` is the track to play next: a candidate of highest score, the first
/// such in the queue.
pub open spec fn is_best(
    queue: Seq<TrackMeta>,
    cache: Map<Seq<char>, LinkView>,
    similar: Seq<SimilarTrack>,
    current: int,
    now: u64,
    i: int,
) -> bool {
    &&& 0 <= i < queue.len()
    &&& is_candidate(queue[i], i, current, cache)
    &&& forall|j: int|
        0 <= j < queue.len() && is_candidate(#[trigger] queue[j], j, current, cache) ==> score(
            queue[j],
            similar,
            cache,
            now,
        ) <= score(queue[i], similar, cache, now)
    &&& forall|j: int|
        0 <= j < i && is_candidate(#[trigger] queue[j], j, current, cache) ==> score(
            queue[j],
            similar,
            cache,
            now,
        ) < score(queue[i], similar, cache, now)
}

pub open spec fn rank_spec(
    queue: Seq<TrackMeta>,
    cache: Map<Seq<char>, LinkView>,
    similar: Seq<SimilarTrack>,
    current: int,
    now: u64,
    r: Option<usize>,
) -> bool {
    match r {
        None => forall|j: int| 0 <= j < queue.len() ==> !is_candidate(#[trigger] queue[j], j, current, cache),
        Some(i) => is_best(queue, cache, similar, current, now, i as int),
    }
}

fn similar_match(t: &TrackMeta, similar: &Vec<SimilarTrack>) -> (r: bool)
    ensures
        r == is_similar(*t, similar@),
{
    let want_title = match &t.lastfm_title {
        Some(x) => to_lowercase(x.as_str()),
        None => to_lowercase(""),
    };
    let want_artist = match &t.lastfm_artist {
        Some(x) => to_lowercase(x.as_str()),
        None => to_lowercase(""),
    };
    proof {
        assert(""@ =~= Seq::<char>::empty()) by {
            reveal_strlit("");
        }
    }
    let mut k: usize = 0;
    while k < similar.len()
        invariant
            k <= similar@.len(),
            want_title@ == lowercase(text_or_empty(t.lastfm_title)),
            want_artist@ == lowercase(text_or_empty(t.lastfm_artist)),
            forall|j: int|
                0 <= j < k ==> !(lowercase((#[trigger] similar@[j]).title@) == lowercase(
                    text_or_empty(t.lastfm_title),
                ) && lowercase(similar@[j].artist@) == lowercase(text_or_empty(t.lastfm_artist))),
        decreases similar.len() - k,
    {
        let s = &similar[k];
        if to_lowercase(s.title.as_str()) == want_title && to_lowercase(s.artist.as_str())
            == want_artist {
            return true;
        }
        k += 1;
    }
    false
}

/// The candidate test and the score of one track.
fn rate(t: &TrackMeta, idx: usize, current_idx: usize, cache: &LinkCache, similar: &Vec<SimilarTrack>, now: u64) -> (r: Option<u64>)
    ensures
        match r {
            None => !is_candidate(*t, idx as int, current_idx as int, cache@),
            Some(s) => is_candidate(*t, idx as int, current_idx as int, cache@) && s == score(
                *t,
                similar@,
                cache@,
                now,
            ),
        },
{
    if idx == current_idx || !t.linked {
        return None;
    }
    let key = cache_key(t.file_name.as_str(), t.duration_secs);
    let entry = cache.get(&key);
    let mut bonus: u64 = 0;
    match entry {
        Some(e) => {
            if e.skipped {
                return None;
            }
            match e.last_played {
                Some(ts) => {
                    let age = if now >= ts { now - ts } else { 0 };
                    bonus = 86400 - (if age < 86400 { age } else { 86400 });
                },
                None => {},
            }
        },
        None => {},
    }
    let base: u64 = if similar_match(t, similar) { 172800 } else { 0 };
    Some(base + bonus)
}

/// `rank_candidates` at a given time `now` (seconds since the Unix epoch):
/// the index of the track to play next, or `None` when no track of the
/// queue may come next.
pub fn rank_candidates_at(
    queue: &Vec<TrackMeta>,
    link_cache: &LinkCache,
    similar: &Vec<SimilarTrack>,
    current_idx: usize,
    now: u64,
) -> (r: Option<usize>)
    ensures
        rank_spec(queue@, link_cache@, similar@, current_idx as int, now, r),
{
    let mut best: Option<(usize, u64)> = None;
    let mut i: usize = 0;
    while i < queue.len()
        invariant
            i <= queue@.len(),
            match best {
                None => forall|j: int|
                    0 <= j < i ==> !is_candidate(#[trigger] queue@[j], j, current_idx as int, link_cache@),
                Some((b, s)) => b < i && s == score(queue@[b as int], similar@, link_cache@, now) && is_candidate(
                    queue@[b as int],
                    b as int,
                    current_idx as int,
                    link_cache@,
                ) && (forall|j: int|
                    0 <= j < i && is_candidate(#[trigger] queue@[j], j, current_idx as int, link_cache@)
                        ==> score(queue@[j], similar@, link_cache@, now) <= s) && (forall|j: int|
                    0 <= j < b && is_candidate(#[trigger] queue@[j], j, current_idx as int, link_cache@)
                        ==> score(queue@[j], similar@, link_cache@, now) < s),
            },
        decreases queue.len() - i,
    {
        match rate(&queue[i], i, current_idx, link_cache, similar, now) {
            None => {},
            Some(s) => {
                match best {
                    None => {
                        best = Some((i, s));
                    },
                    Some((_, bs)) => {
                        if s > bs {
                            best = Some((i, s));
                        }
                    },
                }
            },
        }
        i += 1;
    }
    match best {
        None => None,
        Some((b, _)) => Some(b),
    }
}

/// The clock's time type, `std::time::SystemTime`, as Verus sees it:
/// opaque.
#[verifier::external_type_specification]
#[verifier::external_body]
pub struct ExSystemTime(std::time::SystemTime);

/// `SystemTime::now`: the machine's clock. Nothing is promised of it.
#[verifier::external_body]
fn system_now() -> (r: std::time::SystemTime) {
    std::time::SystemTime::now()
}

/// `SystemTime::duration_since(UNIX_EPOCH)`: the time since the Unix
/// epoch, or `None` where `t` lies before it. Nothing is promised of the
/// value.
#[verifier::external_body]
fn since_epoch(t: &std::time::SystemTime) -> (r: Option<std::time::Duration>) {
    match t.duration_since(std::time::UNIX_EPOCH) {
        Ok(d) => Some(d),
        Err(_) => None,
    }
}

/// `Duration::as_secs`: the whole seconds of a duration. The duration is
/// opaque here, so nothing is promised of the value.
#[verifier::external_body]
fn whole_secs(d: &std::time::Duration) -> (r: u64) {
    d.as_secs()
}

/// The clock reads a time before the Unix epoch, so no age of a play can
/// be taken.
#[derive(Debug, Clone, Copy, PartialEq, Eq, Structural)]
pub struct ClockBeforeEpoch;

/// `rank_candidates`: the track to play next at the present time, or
/// `ClockBeforeEpoch` where the clock reads a time before the Unix epoch
/// (there is no present time in seconds since the epoch to rank by).
pub fn rank_candidates(
    queue: &Vec<TrackMeta>,
    link_cache: &LinkCache,
    similar: &Vec<SimilarTrack>,
    current_idx: usize,
) -> (r: Result<Option<usize>, ClockBeforeEpoch>)
    ensures
        match r {
            Ok(x) => exists|now: u64| rank_spec(queue@, link_cache@, similar@, current_idx as int, now, x),
            Err(_) => true,
        },
{
    match since_epoch(&system_now()) {
        Some(d) => {
            let now = whole_secs(&d);
            Ok(rank_candidates_at(queue, link_cache, similar, current_idx, now))
        },
        None => Err(ClockBeforeEpoch),
    }
}

} // verus!
