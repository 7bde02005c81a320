//! Matching local tracks to Last.fm tracks: the search requests, the
//! results they give, and when a result is taken without asking the user.
use vstd::prelude::*;
use crate::encoding::{url_encode, url_encode_spec};
use crate::lastfm::utf8;
use crate::num::{as_i64, u64_as_i64};
use crate::text::{lowercase, parse_u64, parse_u64_spec, to_lowercase};

verus! {

broadcast use vstd::string::group_string_axioms;

/// The pause between two automatic searches, in milliseconds.
pub const SCAN_DELAY_MS: u64 = 1000;

/// A track that a Last.fm search found.
#[derive(Debug, Clone)]
pub struct SearchResult {
    pub title: String,
    pub artist: String,
    /// 0 when Last.fm gives no usable duration.
    pub duration_secs: u64,
}

#[derive(Debug, Clone)]
pub enum AutoMatchResult {
    Matched { title: String, artist: String },
    NeedsReview,
}

impl SearchResult {
    /// A copy with the same fields.
    pub fn duplicate(&self) -> (r: SearchResult)
        ensures
            r == *self,
    {
        SearchResult {
            title: self.title.clone(),
            artist: self.artist.clone(),
            duration_secs: self.duration_secs,
        }
    }
}

/// The `track.search` request for a title and an artist (at most 8
/// results).
pub fn search_url(api_key: &str, title: &str, artist: &str) -> (r: String)
    ensures
        r@ == "https://ws.audioscrobbler.com/2.0/?method=track.search&track="@ + url_encode_spec(
            utf8(title@),
        ) + "&artist="@ + url_encode_spec(utf8(artist@)) + "&api_key="@ + api_key@
            + "&format=json&limit=8"@,
{
    let mut r = String::from_str("https://ws.audioscrobbler.com/2.0/?method=track.search&track=");
    let t = url_encode(title);
    r.append(t.as_str());
    r.append("&artist=");
    let a = url_encode(artist);
    r.append(a.as_str());
    r.append("&api_key=");
    r.append(api_key);
    r.append("&format=json&limit=8");
    r
}

/// The `track.search` request for free text.
pub fn search_by_query_url(api_key: &str, query: &str) -> (r: String)
    ensures
        r@ == "https://ws.audioscrobbler.com/2.0/?method=track.search&track="@ + url_encode_spec(
            utf8(query@),
        ) + "&api_key="@ + api_key@ + "&format=json&limit=8"@,
{
    let mut r = String::from_str("https://ws.audioscrobbler.com/2.0/?method=track.search&track=");
    let q = url_encode(query);
    r.append(q.as_str());
    r.append("&api_key=");
    r.append(api_key);
    r.append("&format=json&limit=8");
    r
}

/// A search hit as a result: its duration is the number in its `duration`
/// text, or 0 when there is none or it is not a number.
pub fn search_result_from(name: String, artist: String, duration: Option<String>) -> (r:
    SearchResult)
    ensures
        r.title == name,
        r.artist == artist,
        r.duration_secs == (match duration {
            Some(d) => match parse_u64_spec(d@) {
                Some(v) => v,
                None => 0,
            },
            None => 0,
        }),
{
    let secs = match &duration {
        Some(d) => match parse_u64(d.as_str()) {
            Some(v) => v,
            None => 0,
        },
        None => 0,
    };
    SearchResult { title: name, artist, duration_secs: secs }
}

/// The difference that the durations are compared by: each converted
/// with `as i64` (so a value above `i64::MAX` wraps), the track's taken
/// from the result's.
pub open spec fn duration_gap(result_secs: u64, track_secs: u64) -> int {
    as_i64(result_secs) - as_i64(track_secs)
}

/// Two durations agree when either is unknown (0) or they differ by ten
/// seconds at most.
pub open spec fn durations_agree(track_secs: u64, result_secs: u64) -> bool {
    track_secs == 0 || result_secs == 0 || (-10 <= duration_gap(result_secs, track_secs) <= 10)
}

/// A result matches a track when title and artist are equal ignoring case
/// and the durations agree.
pub open spec fn result_matches(r: SearchResult, title: Seq<char>, artist: Seq<char>, secs: u64) -> bool {
    &&& lowercase(r.title@) == lowercase(title)
    &&& lowercase(r.artist@) == lowercase(artist)
    &&& durations_agree(secs, r.duration_secs)
}

/// Comparing the durations neither overflows the subtraction nor takes the
/// absolute value of `i64::MIN`; either is skipped when a duration is 0.
pub open spec fn gap_in_range(result_secs: u64, track_secs: u64) -> bool {
    track_secs == 0 || result_secs == 0 || (i64::MIN < duration_gap(result_secs, track_secs)
        <= i64::MAX)
}

/// No result before the `i`-th matches the track.
pub open spec fn none_before(
    results: Seq<SearchResult>,
    title: Seq<char>,
    artist: Seq<char>,
    secs: u64,
    i: int,
) -> bool {
    forall|j: int| 0 <= j < i ==> !result_matches(#[trigger] results[j], title, artist, secs)
}

/// Every result that the search compares (each one up to the first that
/// matches) compares within range.
pub open spec fn compared_in_range(
    results: Seq<SearchResult>,
    title: Seq<char>,
    artist: Seq<char>,
    secs: u64,
) -> bool {
    forall|i: int|
        0 <= i < results.len() && none_before(results, title, artist, secs, i) ==> gap_in_range(
            (#[trigger] results[i]).duration_secs,
            secs,
        )
}

/// Whether the `i`-th result's title and artist equal the track's,
/// ignoring case, and whether its duration agrees; `None` where the
/// comparison of the durations would overflow.
fn compare(r: &SearchResult, title_lower: &String, artist_lower: &String, duration_secs: u64) -> (out:
    Option<(bool, bool)>)
    ensures
        match out {
            None => !gap_in_range(r.duration_secs, duration_secs),
            Some((names, durations)) => gap_in_range(r.duration_secs, duration_secs) && names == (
            lowercase(r.title@) == title_lower@ && lowercase(r.artist@) == artist_lower@)
                && durations == durations_agree(duration_secs, r.duration_secs),
        },
{
    let title_match = to_lowercase(r.title.as_str()) == *title_lower;
    let artist_match = to_lowercase(r.artist.as_str()) == *artist_lower;
    let duration_match = if duration_secs == 0 || r.duration_secs == 0 {
        true
    } else {
        let a = u64_as_i64(r.duration_secs);
        let b = u64_as_i64(duration_secs);
        if b > 0 && a < i64::MIN + b {
            return None;
        }
        if b < 0 && a > i64::MAX + b {
            return None;
        }
        let diff = a - b;
        if diff == i64::MIN {
            return None;
        }
        let dist = if diff < 0 { -diff } else { diff };
        dist <= 10
    };
    Some((title_match && artist_match, duration_match))
}

/// `try_auto_match` once the search results are in: the first result that
/// matches the track is taken, with Last.fm's title and artist; with none,
/// the user is to review the track. The comparisons it makes must stay in
/// range (else the `i64` arithmetic overflows); `auto_match_checked` tests
/// that first.
pub fn try_auto_match(results: &Vec<SearchResult>, title: &str, artist: &str, duration_secs: u64) -> (r:
    AutoMatchResult)
    requires
        compared_in_range(results@, title@, artist@, duration_secs),
    ensures
        match r {
            AutoMatchResult::Matched { title: t, artist: a } => exists|i: int|
                0 <= i < results@.len() && result_matches(
                    #[trigger] results@[i],
                    title@,
                    artist@,
                    duration_secs,
                ) && none_before(results@, title@, artist@, duration_secs, i) && t
                    == results@[i].title && a == results@[i].artist,
            AutoMatchResult::NeedsReview => forall|i: int|
                0 <= i < results@.len() ==> !result_matches(
                    #[trigger] results@[i],
                    title@,
                    artist@,
                    duration_secs,
                ),
        },
{
    let title_lower = to_lowercase(title);
    let artist_lower = to_lowercase(artist);
    let mut i: usize = 0;
    while i < results.len()
        invariant
            i <= results@.len(),
            title_lower@ == lowercase(title@),
            artist_lower@ == lowercase(artist@),
            compared_in_range(results@, title@, artist@, duration_secs),
            none_before(results@, title@, artist@, duration_secs, i as int),
        decreases results.len() - i,
    {
        let r = &results[i];
        assert(gap_in_range(results@[i as int].duration_secs, duration_secs));
        match compare(r, &title_lower, &artist_lower, duration_secs) {
            None => {
                assert(false);
            },
            Some((names, durations)) => {
                if names && durations {
                    return AutoMatchResult::Matched {
                        title: r.title.clone(),
                        artist: r.artist.clone(),
                    };
                }
            },
        }
        i += 1;
    }
    AutoMatchResult::NeedsReview
}

/// `try_auto_match` where its comparisons stay in range; `None` where one
/// of them would overflow.
pub fn auto_match_checked(results: &Vec<SearchResult>, title: &str, artist: &str, duration_secs: u64) -> (r:
    Option<AutoMatchResult>)
    ensures
        r.is_some() == compared_in_range(results@, title@, artist@, duration_secs),
        match r {
            Some(AutoMatchResult::Matched { title: t, artist: a }) => exists|i: int|
                0 <= i < results@.len() && result_matches(
                    #[trigger] results@[i],
                    title@,
                    artist@,
                    duration_secs,
                ) && none_before(results@, title@, artist@, duration_secs, i) && t
                    == results@[i].title && a == results@[i].artist,
            Some(AutoMatchResult::NeedsReview) => forall|i: int|
                0 <= i < results@.len() ==> !result_matches(
                    #[trigger] results@[i],
                    title@,
                    artist@,
                    duration_secs,
                ),
            None => true,
        },
{
    let title_lower = to_lowercase(title);
    let artist_lower = to_lowercase(artist);
    let mut i: usize = 0;
    while i < results.len()
        invariant
            i <= results@.len(),
            title_lower@ == lowercase(title@),
            artist_lower@ == lowercase(artist@),
            none_before(results@, title@, artist@, duration_secs, i as int),
            forall|k: int| 0 <= k < i ==> gap_in_range(#[trigger] results@[k].duration_secs, duration_secs),
        decreases results.len() - i,
    {
        match compare(&results[i], &title_lower, &artist_lower, duration_secs) {
            None => {
                return None;
            },
            Some((names, durations)) => {
                if names && durations {
                    proof {
                        assert forall|k: int|
                            0 <= k < results@.len() && none_before(
                                results@,
                                title@,
                                artist@,
                                duration_secs,
                                k,
                            ) implies gap_in_range(
                            (#[trigger] results@[k]).duration_secs,
                            duration_secs,
                        ) by {
                            if k > i {
                                assert(result_matches(results@[i as int], title@, artist@, duration_secs));
                            }
                        }
                    }
                    return Some(try_auto_match(results, title, artist, duration_secs));
                }
            },
        }
        i += 1;
    }
    Some(try_auto_match(results, title, artist, duration_secs))
}

} // verus!
