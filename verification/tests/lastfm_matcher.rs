use rustify::lastfm::{
    artwork_url, get_now_playing, recent_tracks_url, similar_from_entries, similar_tracks_url,
    track_info_url, Album, Artist, NowPlayingAttr, Track,
};
use rustify::matcher::{
    auto_match_checked, search_by_query_url, search_result_from, search_url, try_auto_match, AutoMatchResult,
    SearchResult, SCAN_DELAY_MS,
};

fn track(name: &str, now: Option<&str>) -> Track {
    Track {
        name: name.to_string(),
        artist: Artist { text: "Artist".to_string() },
        album: Album { text: "Album".to_string() },
        attr: now.map(|n| NowPlayingAttr { nowplaying: n.to_string() }),
    }
}

#[test]
fn now_playing_only_first_marked_track() {
    assert_eq!(get_now_playing(vec![track("a", Some("true")), track("b", None)]).unwrap().name, "a");
    assert!(get_now_playing(vec![track("a", None), track("b", Some("true"))]).is_none());
    assert!(get_now_playing(vec![track("a", Some("false"))]).is_none());
    assert!(get_now_playing(vec![]).is_none());
}

#[test]
fn recent_tracks_request() {
    assert_eq!(
        recent_tracks_url("KEY", "user"),
        "https://ws.audioscrobbler.com/2.0/?method=user.getrecenttracks&user=user&api_key=KEY&format=json&limit=1"
    );
}

#[test]
fn track_info_request_encodes_names() {
    assert_eq!(
        track_info_url("KEY", "AC/DC", "T.N.T."),
        "https://ws.audioscrobbler.com/2.0/?method=track.getInfo&api_key=KEY&artist=AC%2FDC&track=T.N.T.&format=json"
    );
    assert_eq!(
        similar_tracks_url("KEY", "Sigur Rós", "Hoppípolla"),
        "https://ws.audioscrobbler.com/2.0/?method=track.getSimilar&api_key=KEY&artist=Sigur%20R%C3%B3s&track=Hopp%C3%ADpolla&limit=20&format=json"
    );
}

#[test]
fn artwork_url_takes_last_image() {
    let s = |x: &str| Some(x.to_string());
    assert_eq!(artwork_url(Some(vec![s("small"), s("large")])), s("large"));
    assert_eq!(artwork_url(Some(vec![s("small"), s("")])), None);
    assert_eq!(artwork_url(Some(vec![s("small"), None])), None);
    assert_eq!(artwork_url(Some(vec![])), None);
    assert_eq!(artwork_url(None), None);
}

#[test]
fn similar_keeps_complete_entries_in_order() {
    let s = |x: &str| Some(x.to_string());
    let out = similar_from_entries(vec![(s("t1"), s("a1")), (None, s("a2")), (s("t3"), None), (s("t4"), s("a4"))]);
    assert_eq!(out.len(), 2);
    assert_eq!(out[0].title, "t1");
    assert_eq!(out[0].artist, "a1");
    assert_eq!(out[1].title, "t4");
    assert!(similar_from_entries(vec![]).is_empty());
}

#[test]
fn search_requests() {
    assert_eq!(SCAN_DELAY_MS, 1000);
    assert_eq!(
        search_url("KEY", "My Song", "Band & Co"),
        "https://ws.audioscrobbler.com/2.0/?method=track.search&track=My%20Song&artist=Band%20%26%20Co&api_key=KEY&format=json&limit=8"
    );
    assert_eq!(
        search_by_query_url("KEY", "a+b"),
        "https://ws.audioscrobbler.com/2.0/?method=track.search&track=a%2Bb&api_key=KEY&format=json&limit=8"
    );
}

#[test]
fn search_result_duration_parsing() {
    assert_eq!(search_result_from("t".into(), "a".into(), Some("215".into())).duration_secs, 215);
    assert_eq!(search_result_from("t".into(), "a".into(), Some("n/a".into())).duration_secs, 0);
    assert_eq!(search_result_from("t".into(), "a".into(), None).duration_secs, 0);
}

fn result(t: &str, a: &str, d: u64) -> SearchResult {
    SearchResult { title: t.to_string(), artist: a.to_string(), duration_secs: d }
}

#[test]
fn auto_match_ignores_case_and_allows_ten_seconds() {
    let results = vec![result("Other", "Band", 200), result("MY SONG", "band", 210)];
    match try_auto_match(&results, "my song", "Band", 200) {
        AutoMatchResult::Matched { title, artist } => {
            assert_eq!(title, "MY SONG");
            assert_eq!(artist, "band");
        }
        AutoMatchResult::NeedsReview => panic!("expected a match"),
    }
}

#[test]
fn auto_match_rejects_far_durations() {
    let results = vec![result("Song", "Band", 211)];
    assert!(matches!(try_auto_match(&results, "Song", "Band", 200), AutoMatchResult::NeedsReview));
    assert!(matches!(try_auto_match(&results, "Song", "Band", 221), AutoMatchResult::Matched { .. }));
}

#[test]
fn auto_match_unknown_durations_agree() {
    let results = vec![result("Song", "Band", 0)];
    assert!(matches!(try_auto_match(&results, "Song", "Band", 999), AutoMatchResult::Matched { .. }));
    let results = vec![result("Song", "Band", 999)];
    assert!(matches!(try_auto_match(&results, "Song", "Band", 0), AutoMatchResult::Matched { .. }));
}

#[test]
fn auto_match_first_of_several() {
    let results = vec![result("Song", "Band", 100), result("Song", "Band", 300), result("song", "band", 301)];
    match try_auto_match(&results, "Song", "Band", 300) {
        AutoMatchResult::Matched { title, .. } => assert_eq!(title, "Song"),
        AutoMatchResult::NeedsReview => panic!("expected a match"),
    }
    assert!(matches!(try_auto_match(&vec![], "Song", "Band", 300), AutoMatchResult::NeedsReview));
}

#[test]
fn auto_match_checked_out_of_range_comparison() {
    let big = (1u64 << 63) + 5;
    assert!(auto_match_checked(&vec![result("Song", "Band", big)], "Song", "Band", 5).is_none());
    assert!(matches!(
        auto_match_checked(&vec![result("Song", "Band", 5), result("Song", "Band", big)], "Song", "Band", 5),
        Some(AutoMatchResult::Matched { .. })
    ));
    assert!(auto_match_checked(&vec![result("Song", "Band", 50), result("Song", "Band", big)], "Song", "Band", 5).is_none());
    assert!(matches!(
        auto_match_checked(&vec![result("Song", "Band", big)], "Song", "Band", 0),
        Some(AutoMatchResult::Matched { .. })
    ));
}

#[test]
fn auto_match_compares_durations_as_i64() {
    let results = vec![result("Song", "Band", u64::MAX)];
    assert!(matches!(try_auto_match(&results, "Song", "Band", 1), AutoMatchResult::Matched { .. }));
    assert!(matches!(auto_match_checked(&results, "Song", "Band", 20), Some(AutoMatchResult::NeedsReview)));
}
