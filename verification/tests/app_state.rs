use rustify::app::{App, Effect, MatchState, Message};
use rustify::app::view::{results_panel, review_header, search_result_line, ResultsPanel};
use rustify::cache::{CachedLink, LinkCache};
use rustify::discord::{artwork_upload_form, presence};
use rustify::lastfm::{Album, Artist, SimilarTrack, Track};
use rustify::library::{track_from_tags, TrackMeta};
use rustify::matcher::{AutoMatchResult, SearchResult};
use rustify::recommender::rank_candidates_at;
use rustify::theme::{AppTheme, Screen};

fn app(session: Option<&str>) -> App {
    App::new(
        "KEY".to_string(),
        "user".to_string(),
        "SECRET".to_string(),
        session.map(|s| s.to_string()),
        LinkCache::new(),
        AppTheme::Nord,
    )
}

fn tr(name: &str, secs: u64) -> TrackMeta {
    track_from_tags(
        format!("{}.mp3", name),
        Some(name.to_string()),
        Some(name.to_string()),
        Some("Band".to_string()),
        Some("Record".to_string()),
        None,
        Some(secs),
    )
}

fn send(a: &mut App, m: Message) -> Vec<Effect> {
    assert!(a.can_accept(&m));
    a.update(m)
}

#[test]
fn new_app_is_idle() {
    let a = app(None);
    assert!(a.queue.is_empty());
    assert!(a.current.is_none());
    assert!(matches!(a.match_state, MatchState::Idle));
    assert_eq!(a.screen, Screen::Library);
    assert_eq!(a.settings_lastfm_api_key, "KEY");
}

#[test]
fn folder_without_session_is_idle() {
    let mut a = app(None);
    let eff = send(&mut a, Message::FolderPicked(Some(vec![tr("a", 100), tr("b", 200)])));
    assert!(eff.is_empty());
    assert_eq!(a.queue.len(), 2);
    assert!(matches!(a.match_state, MatchState::Idle));
}

#[test]
fn folder_with_session_starts_scanning() {
    let mut a = app(Some("SK"));
    let eff = send(&mut a, Message::FolderPicked(Some(vec![tr("a", 100), tr("b", 200)])));
    assert!(matches!(a.match_state, MatchState::Scanning { total: 2, done: 0 }));
    assert_eq!(eff.len(), 1);
    assert!(matches!(eff[0], Effect::Dispatch(Message::ScanTrack(0))));
    let eff = send(&mut a, Message::ScanTrack(0));
    match &eff[0] {
        Effect::AutoMatch { idx, api_key, title, artist, duration_secs } => {
            assert_eq!(*idx, 0);
            assert_eq!(api_key, "KEY");
            assert_eq!(title, "a");
            assert_eq!(artist, "Band");
            assert_eq!(*duration_secs, 100);
        }
        _ => panic!("expected a search"),
    }
}

#[test]
fn scanning_then_review_then_link() {
    let mut a = app(Some("SK"));
    send(&mut a, Message::FolderPicked(Some(vec![tr("a", 100), tr("b", 200)])));
    let eff = send(
        &mut a,
        Message::TrackScanned(0, AutoMatchResult::Matched { title: "A!".into(), artist: "BAND".into() }),
    );
    assert_eq!(eff.len(), 2);
    assert!(matches!(&eff[0], Effect::PersistLink { key, link } if key == "a.mp3::100" && link.lastfm_title == "A!"));
    assert!(matches!(eff[1], Effect::Dispatch(Message::ScanTrack(1))));
    assert!(matches!(a.match_state, MatchState::Scanning { total: 2, done: 1 }));
    assert_eq!(a.queue[0].lastfm_title.as_deref(), Some("A!"));
    let eff = send(&mut a, Message::TrackScanned(1, AutoMatchResult::NeedsReview));
    assert_eq!(eff.len(), 1);
    assert!(matches!(&eff[0], Effect::SearchTracks { title, .. } if title == "b"));
    match &a.match_state {
        MatchState::Reviewing { pending, search_query, search_loading, preview_playing, .. } => {
            assert_eq!(pending, &vec![1]);
            assert_eq!(search_query, "b Band");
            assert!(*search_loading);
            assert!(!*preview_playing);
        }
        _ => panic!("expected a review"),
    }
    let eff = send(&mut a, Message::LinkTrack(1, SearchResult { title: "B".into(), artist: "X".into(), duration_secs: 0 }));
    assert_eq!(eff.len(), 2);
    assert!(matches!(eff[1], Effect::PausePlayer));
    assert!(matches!(a.match_state, MatchState::Done));
    assert_eq!(a.queue[1].lastfm_artist.as_deref(), Some("X"));
}

#[test]
fn law_link_applied_on_reopen_values() {
    let mut a = app(Some("SK"));
    send(&mut a, Message::FolderPicked(Some(vec![tr("a", 100)])));
    send(&mut a, Message::TrackScanned(0, AutoMatchResult::NeedsReview));
    send(&mut a, Message::LinkTrack(0, SearchResult { title: "T".into(), artist: "R".into(), duration_secs: 1 }));
    let eff = send(&mut a, Message::FolderPicked(Some(vec![tr("a", 100), tr("c", 5)])));
    assert!(a.queue[0].linked);
    assert_eq!(a.queue[0].lastfm_title.as_deref(), Some("T"));
    assert_eq!(a.queue[0].lastfm_artist.as_deref(), Some("R"));
    assert!(matches!(eff[0], Effect::Dispatch(Message::ScanTrack(1))));
}

#[test]
fn law_skip_applied_on_reopen_values() {
    let mut a = app(Some("SK"));
    send(&mut a, Message::FolderPicked(Some(vec![tr("a", 100)])));
    send(&mut a, Message::TrackScanned(0, AutoMatchResult::NeedsReview));
    let eff = send(&mut a, Message::SkipTrack(0));
    assert!(matches!(&eff[0], Effect::PersistLink { link, .. } if link.skipped));
    assert!(!a.queue[0].linked);
    assert!(matches!(a.match_state, MatchState::Done));
    let eff = send(&mut a, Message::FolderPicked(Some(vec![tr("a", 100)])));
    assert!(!a.queue[0].linked);
    assert!(eff.is_empty());
    assert!(matches!(a.match_state, MatchState::Done));
}

#[test]
fn review_moves_on_one_at_a_time() {
    let mut a = app(Some("SK"));
    send(&mut a, Message::FolderPicked(Some(vec![tr("a", 1), tr("b", 2), tr("c", 3)])));
    send(&mut a, Message::TrackScanned(2, AutoMatchResult::NeedsReview));
    match &a.match_state {
        MatchState::Reviewing { pending, .. } => assert_eq!(pending, &vec![0, 1, 2]),
        _ => panic!("expected a review"),
    }
    send(&mut a, Message::SkipTrack(0));
    match &a.match_state {
        MatchState::Reviewing { pending, search_query, .. } => {
            assert_eq!(pending, &vec![1, 2]);
            assert_eq!(search_query, "b Band");
        }
        _ => panic!("expected a review"),
    }
    send(&mut a, Message::SearchQueryChanged("typed".into()));
    let eff = send(&mut a, Message::SearchSubmitted);
    assert!(matches!(&eff[0], Effect::SearchByQuery { query, .. } if query == "typed"));
    send(&mut a, Message::SearchResults(vec![SearchResult { title: "x".into(), artist: "y".into(), duration_secs: 0 }]));
    match &a.match_state {
        MatchState::Reviewing { search_results, search_loading, .. } => {
            assert_eq!(search_results.len(), 1);
            assert!(!*search_loading);
        }
        _ => panic!("expected a review"),
    }
    let eff = send(&mut a, Message::PreviewToggle);
    assert!(matches!(eff[0], Effect::LoadTrack(1)));
    let eff = send(&mut a, Message::PreviewToggle);
    assert!(matches!(eff[0], Effect::PausePlayer));
}

#[test]
fn select_next_previous() {
    let mut a = app(None);
    send(&mut a, Message::FolderPicked(Some(vec![tr("a", 1), tr("b", 2), tr("c", 3)])));
    assert!(send(&mut a, Message::Previous).len() == 3);
    assert_eq!(a.current, Some(0));
    let eff = send(&mut a, Message::SelectTrack(1));
    assert!(matches!(eff[2], Effect::UpdateDiscord));
    assert_eq!(a.current, Some(1));
    assert!(a.playing);
    assert_eq!(a.current_duration_secs, 2);
    send(&mut a, Message::Next);
    assert_eq!(a.current, Some(2));
    send(&mut a, Message::Next);
    assert_eq!(a.current, Some(0));
    send(&mut a, Message::Previous);
    assert_eq!(a.current, Some(0));
}

#[test]
fn law_next_then_previous_values() {
    let mut a = app(None);
    send(&mut a, Message::FolderPicked(Some(vec![tr("a", 1), tr("b", 2), tr("c", 3)])));
    send(&mut a, Message::SelectTrack(1));
    send(&mut a, Message::Next);
    send(&mut a, Message::Previous);
    assert_eq!(a.current, Some(1));
}

#[test]
fn next_on_empty_queue_does_nothing() {
    let mut a = app(None);
    assert!(send(&mut a, Message::Next).is_empty());
    assert!(a.current.is_none());
}

#[test]
fn select_with_session_reports_now_playing() {
    let mut a = app(Some("SK"));
    send(&mut a, Message::FolderPicked(Some(vec![tr("a", 100)])));
    send(&mut a, Message::TrackScanned(0, AutoMatchResult::Matched { title: "LT".into(), artist: "LA".into() }));
    let eff = send(&mut a, Message::SelectTrack(0));
    match &eff[2] {
        Effect::UpdateNowPlaying { session_key, artist, title, album, .. } => {
            assert_eq!(session_key, "SK");
            assert_eq!(artist, "LA");
            assert_eq!(title, "LT");
            assert_eq!(album, "Record");
        }
        _ => panic!("expected a now-playing call"),
    }
}

#[test]
fn scrobble_after_half_the_track() {
    let mut a = app(Some("SK"));
    send(&mut a, Message::FolderPicked(Some(vec![tr("a", 100)])));
    send(&mut a, Message::TrackScanned(0, AutoMatchResult::Matched { title: "T".into(), artist: "R".into() }));
    send(&mut a, Message::SelectTrack(0));
    for _ in 0..49 {
        assert!(send(&mut a, Message::ScrobbleTick).is_empty());
    }
    let eff = send(&mut a, Message::ScrobbleTick);
    assert_eq!(a.scrobble_timer, 50);
    assert!(matches!(&eff[0], Effect::Scrobble { title, .. } if title == "T"));
    // law: scrobbled once only
    for _ in 0..10 {
        assert!(send(&mut a, Message::ScrobbleTick).is_empty());
    }
    assert!(a.scrobbled);
}

#[test]
fn scrobble_threshold_bounds() {
    let mut a = app(Some("SK"));
    send(&mut a, Message::FolderPicked(Some(vec![tr("short", 20), tr("long", 1000)])));
    send(&mut a, Message::SelectTrack(0));
    for _ in 0..29 {
        assert!(send(&mut a, Message::ScrobbleTick).is_empty());
    }
    assert_eq!(send(&mut a, Message::ScrobbleTick).len(), 1);
    send(&mut a, Message::SelectTrack(1));
    for _ in 0..239 {
        assert!(send(&mut a, Message::ScrobbleTick).is_empty());
    }
    assert_eq!(send(&mut a, Message::ScrobbleTick).len(), 1);
}

#[test]
fn paused_does_not_count() {
    let mut a = app(Some("SK"));
    send(&mut a, Message::FolderPicked(Some(vec![tr("a", 100)])));
    send(&mut a, Message::SelectTrack(0));
    send(&mut a, Message::Pause);
    assert!(!a.playing);
    send(&mut a, Message::ScrobbleTick);
    assert_eq!(a.scrobble_timer, 0);
    send(&mut a, Message::Play);
    send(&mut a, Message::ScrobbleTick);
    assert_eq!(a.scrobble_timer, 1);
}

#[test]
fn law_skipped_not_scrobbled_values() {
    let mut a = app(Some("SK"));
    send(&mut a, Message::FolderPicked(Some(vec![tr("a", 60)])));
    send(&mut a, Message::TrackScanned(0, AutoMatchResult::NeedsReview));
    send(&mut a, Message::SkipTrack(0));
    send(&mut a, Message::SelectTrack(0));
    for _ in 0..100 {
        assert!(send(&mut a, Message::ScrobbleTick).is_empty());
    }
}

#[test]
fn auth_flow_polls_fifteen_times() {
    let mut a = app(None);
    let eff = send(&mut a, Message::StartAuth);
    assert!(matches!(&eff[0], Effect::RequestToken { api_key, .. } if api_key == "KEY"));
    let eff = send(&mut a, Message::AuthTokenReceived(Some("TOK".into())));
    assert!(matches!(&eff[0], Effect::OpenUrl(u) if u == "https://www.last.fm/api/auth/?api_key=KEY&token=TOK"));
    assert!(matches!(eff[1], Effect::Dispatch(Message::AuthPollTick)));
    let mut polls = 0;
    loop {
        let eff = send(&mut a, Message::AuthPollTick);
        if eff.is_empty() {
            break;
        }
        polls += 1;
        let eff = send(&mut a, Message::AuthCompleted(None));
        if !matches!(eff[0], Effect::Dispatch(Message::AuthPollTick)) {
            assert!(matches!(&eff[0], Effect::Log(s) if s == "Last.fm auth timed out or was not approved."));
            break;
        }
    }
    assert_eq!(polls, 15);
    assert!(a.auth_token.is_none());
}

#[test]
fn auth_completed_keeps_session() {
    let mut a = app(None);
    send(&mut a, Message::AuthTokenReceived(Some("TOK".into())));
    send(&mut a, Message::AuthPollTick);
    let eff = send(&mut a, Message::AuthCompleted(Some("SK".into())));
    assert!(matches!(&eff[0], Effect::Log(s) if s == "Last.fm auth successful!"));
    assert_eq!(a.scrobbler.session_key.as_deref(), Some("SK"));
    assert!(a.auth_token.is_none());
    assert_eq!(a.auth_poll_attempts_left, 0);
}

#[test]
fn settings_screen_and_save() {
    let mut a = app(Some("SK"));
    send(&mut a, Message::OpenSettings);
    assert_eq!(a.screen, Screen::Settings);
    send(&mut a, Message::SettingsLastfmApiKeyChanged("NEWKEY".into()));
    send(&mut a, Message::SettingsLastfmApiSecretChanged("NEWSECRET".into()));
    send(&mut a, Message::SettingsLastfmUsernameChanged("other".into()));
    send(&mut a, Message::SettingsApiKeyHoverChanged(true));
    assert!(a.hover_show_lastfm_api_key);
    let eff = send(&mut a, Message::SaveSettings);
    assert!(matches!(&eff[0], Effect::SaveLastfmSettings { api_key, username, .. } if api_key == "NEWKEY" && username == "other"));
    assert_eq!(a.lastfm_api_key, "KEY");
    send(&mut a, Message::SettingsSaved(false));
    assert_eq!(a.lastfm_api_key, "KEY");
    send(&mut a, Message::SettingsSaved(true));
    assert_eq!(a.lastfm_api_key, "NEWKEY");
    assert_eq!(a.scrobbler.api_secret, "NEWSECRET");
    assert!(a.scrobbler.session_key.is_none());
    send(&mut a, Message::CloseSettings);
    assert_eq!(a.screen, Screen::Library);
}

#[test]
fn theme_change_is_saved() {
    let mut a = app(None);
    let eff = send(&mut a, Message::ThemeChanged(AppTheme::TokyoNight));
    assert_eq!(a.app_theme, AppTheme::TokyoNight);
    assert!(matches!(&eff[0], Effect::SaveTheme(s) if s == "Tokyo Night"));
}

#[test]
fn unaccepted_events_are_refused() {
    let a = app(None);
    assert!(!a.can_accept(&Message::SelectTrack(0)));
    assert!(!a.can_accept(&Message::ScanTrack(3)));
    assert!(a.can_accept(&Message::TrackScanned(3, AutoMatchResult::NeedsReview)));
    assert!(!a.can_accept(&Message::TrackScanned(3, AutoMatchResult::Matched { title: "t".into(), artist: "a".into() })));
}

#[test]
fn view_texts() {
    let mut a = app(Some("SK"));
    send(&mut a, Message::FolderPicked(Some(vec![tr("a", 100), tr("b", 2)])));
    assert_eq!(a.scanning_banner(), Some("Matching tracks with Last.fm\u{2026} 0/2".to_string()));
    assert_eq!(a.track_title_display(0), "? a");
    assert_eq!(a.row_number(1), "2");
    send(&mut a, Message::SelectTrack(0));
    assert_eq!(a.row_number(0), ">");
    assert_eq!(a.now_playing_labels(), ("a".to_string(), "Band".to_string(), "Record".to_string()));
    assert_eq!(review_header(3), "Unrecognized track \u{2014} 3 remaining");
    let r = SearchResult { title: "t".into(), artist: "A".into(), duration_secs: 0 };
    assert_eq!(search_result_line(&r), "A \u{b7} --:--");
    let r = SearchResult { title: "t".into(), artist: "A".into(), duration_secs: 61 };
    assert_eq!(search_result_line(&r), "A \u{b7} 1:01");
    let b = app(None);
    assert_eq!(b.now_playing_labels(), ("No track selected".to_string(), String::new(), String::new()));
}

#[test]
fn presence_of_playing_track() {
    let mut a = app(None);
    assert!(presence(&a, 1000).is_none());
    send(&mut a, Message::FolderPicked(Some(vec![tr("a", 100)])));
    send(&mut a, Message::SelectTrack(0));
    for _ in 0..10 {
        send(&mut a, Message::ScrobbleTick);
    }
    let p = presence(&a, 1000).unwrap();
    assert_eq!(p.details, "a");
    assert_eq!(p.state, "Band - Record");
    assert_eq!(p.large_text, "a \u{b7} Band");
    assert_eq!(p.large_image, "music");
    assert_eq!(p.start, 990);
    assert_eq!(p.end, 1090);
    send(&mut a, Message::Pause);
    assert!(presence(&a, 1000).is_none());
    send(&mut a, Message::LastfmUpdated(Some(Track {
        name: "N".into(),
        artist: Artist { text: "AR".into() },
        album: Album { text: "AL".into() },
        attr: None,
    })));
    send(&mut a, Message::DiscordArtworkReady(Some("http://img".into())));
    let p = presence(&a, 1000).unwrap();
    assert_eq!(p.details, "N");
    assert_eq!(p.state, "AR - AL");
    assert_eq!(p.large_image, "http://img");
}

#[test]
fn presence_duration_read_as_i64() {
    let mut a = app(None);
    send(&mut a, Message::FolderPicked(Some(vec![tr("a", u64::MAX)])));
    send(&mut a, Message::SelectTrack(0));
    send(&mut a, Message::ScrobbleTick);
    let p = presence(&a, -5).unwrap();
    assert_eq!(p.start, -6);
    assert_eq!(p.end, -5);
}

#[test]
fn upload_form_has_base64_image() {
    let f = artwork_upload_form("K", &vec![b'f', b'o', b'o']);
    assert_eq!(f, vec![("key".to_string(), "K".to_string()), ("image".to_string(), "Zm9v".to_string())]);
}

fn link(title: &str, skipped: bool, last: Option<u64>) -> CachedLink {
    CachedLink { lastfm_title: title.into(), lastfm_artist: "R".into(), skipped, last_played: last }
}

#[test]
fn rank_prefers_similar_then_recent() {
    let mut q = vec![tr("cur", 10), tr("x", 11), tr("y", 12), tr("z", 13)];
    for t in q.iter_mut() {
        t.lastfm_title = Some(t.title.to_uppercase());
        t.lastfm_artist = Some("R".into());
    }
    let mut cache = LinkCache::new();
    cache.insert("y.mp3::12".into(), link("Y", false, Some(9_000)));
    cache.insert("z.mp3::13".into(), link("Z", false, Some(9_990)));
    let similar = vec![SimilarTrack { title: "x".into(), artist: "r".into() }];
    assert_eq!(rank_candidates_at(&q, &cache, &similar, 0, 10_000), Some(1));
    assert_eq!(rank_candidates_at(&q, &cache, &vec![], 0, 10_000), Some(3));
    assert_eq!(rank_candidates_at(&q, &cache, &vec![], 0, 200_000), Some(1));
}

#[test]
fn rank_skips_current_unlinked_and_skipped() {
    let mut q = vec![tr("a", 1), tr("b", 2), tr("c", 3)];
    q[1].linked = false;
    let mut cache = LinkCache::new();
    cache.insert("c.mp3::3".into(), link("", true, None));
    assert_eq!(rank_candidates_at(&q, &cache, &vec![], 0, 0), None);
    assert_eq!(rank_candidates_at(&q, &cache, &vec![], 2, 0), Some(0));
}

#[test]
fn recommendation_sets_next_up() {
    let mut a = app(None);
    send(&mut a, Message::RecommendationReady(vec![]));
    assert!(a.next_up.is_none());
    send(&mut a, Message::FolderPicked(Some(vec![tr("a", 1), tr("b", 2)])));
    send(&mut a, Message::SelectTrack(0));
    send(&mut a, Message::RecommendationReady(vec![]));
    assert_eq!(a.next_up, Some(1));
}

#[test]
fn artwork_and_library_search_fields() {
    let mut a = app(None);
    send(&mut a, Message::LastfmArtworkFetched(Some(vec![1, 2])));
    assert_eq!(a.lastfm_artwork, Some(vec![1, 2]));
    send(&mut a, Message::LibrarySearchChanged("q".into()));
    assert_eq!(a.library_search, "q");
    let eff = send(&mut a, Message::LastfmTick);
    assert!(matches!(&eff[0], Effect::FetchNowPlaying { username, .. } if username == "user"));
    let eff = send(&mut a, Message::OpenFolder);
    assert!(matches!(eff[0], Effect::PickFolder));
}

#[test]
fn view_decisions() {
    let mut a = app(Some("SK"));
    assert_eq!(a.library_placeholder().as_deref(), Some("Open a folder to load music"));
    assert!(matches!(a.play_pause_message(), Message::Play));
    send(&mut a, Message::FolderPicked(Some(vec![tr("a", 100)])));
    assert_eq!(a.library_placeholder(), None);
    assert!(!a.review_open());
    assert!(matches!(a.row_press(0), Some(Message::SelectTrack(0))));
    send(&mut a, Message::TrackScanned(0, AutoMatchResult::NeedsReview));
    assert!(a.review_open());
    assert!(a.row_press(0).is_none());
    send(&mut a, Message::SelectTrack(0));
    assert!(matches!(a.play_pause_message(), Message::Pause));
    assert_eq!(results_panel(true, 3), ResultsPanel::Searching);
    assert_eq!(results_panel(false, 0), ResultsPanel::NoResults);
    assert_eq!(results_panel(false, 2), ResultsPanel::Results);
}

#[test]
fn law_update_keeps_indices_values() {
    let mut a = app(Some("SK"));
    send(&mut a, Message::FolderPicked(Some(vec![tr("a", 100), tr("b", 200), tr("c", 300)])));
    send(&mut a, Message::TrackScanned(0, AutoMatchResult::NeedsReview));
    send(&mut a, Message::TrackScanned(1, AutoMatchResult::NeedsReview));
    send(&mut a, Message::TrackScanned(2, AutoMatchResult::NeedsReview));
    match &a.match_state {
        MatchState::Reviewing { pending, .. } => {
            assert!(!pending.is_empty());
            assert!(pending.iter().all(|&i| i < a.queue.len()));
        }
        _ => panic!("expected a review"),
    }
    send(&mut a, Message::PreviewToggle);
    send(&mut a, Message::SkipTrack(0));
    send(&mut a, Message::Previous);
    send(&mut a, Message::Next);
    send(&mut a, Message::Next);
    send(&mut a, Message::Next);
    assert!(a.current.unwrap() < a.queue.len());
}

#[test]
fn review_window_messages() {
    let mut a = app(Some("SK"));
    assert_eq!(a.review_track(), None);
    send(&mut a, Message::FolderPicked(Some(vec![tr("a", 100), tr("b", 200)])));
    send(&mut a, Message::TrackScanned(0, AutoMatchResult::NeedsReview));
    send(&mut a, Message::TrackScanned(1, AutoMatchResult::NeedsReview));
    assert_eq!(a.review_track(), Some(0));
    let r = SearchResult { title: "T".into(), artist: "R".into(), duration_secs: 5 };
    match rustify::app::view::link_message(0, &r) {
        Message::LinkTrack(i, res) => {
            assert_eq!(i, 0);
            assert_eq!(res.title, "T");
            assert_eq!(res.artist, "R");
            assert_eq!(res.duration_secs, 5);
        }
        _ => panic!("expected a link"),
    }
    send(&mut a, Message::SkipTrack(0));
    assert_eq!(a.review_track(), Some(1));
}

#[test]
fn rank_candidates_reads_the_clock() {
    let q = vec![tr("a", 1), tr("b", 2)];
    let cache = LinkCache::new();
    assert_eq!(rustify::recommender::rank_candidates(&q, &cache, &vec![], 0), Ok(Some(1)));
}
