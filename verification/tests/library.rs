use rustify::library::{format_duration, format_minutes_seconds, is_audio_extension, parse_duration, track_from_tags};
use rustify::theme::{theme_from_config, AppTheme, Screen};
use rustify::cache::{cache_key, insert, CachedLink, LinkCache};

#[test]
fn format_duration_is_hours_and_minutes() {
    assert_eq!(format_duration(0), "0:00");
    assert_eq!(format_duration(215), "0:03");
    assert_eq!(format_duration(600), "0:10");
    assert_eq!(format_duration(3599), "0:59");
    assert_eq!(format_duration(3600), "1:00");
    assert_eq!(format_duration(3660 + 59), "1:01");
    assert_eq!(format_duration(36000 * 10), "100:00");
}

#[test]
fn format_minutes_seconds_pads_seconds() {
    assert_eq!(format_minutes_seconds(0), "0:00");
    assert_eq!(format_minutes_seconds(65), "1:05");
    assert_eq!(format_minutes_seconds(215), "3:35");
    assert_eq!(format_minutes_seconds(3600), "60:00");
}

#[test]
fn parse_duration_reads_two_parts() {
    assert_eq!(parse_duration("3:07"), 187);
    assert_eq!(parse_duration("0:59"), 59);
    assert_eq!(parse_duration("x:5"), 5);
    assert_eq!(parse_duration("abc"), 0);
    assert_eq!(parse_duration("1:2:3"), 0);
    assert_eq!(parse_duration(""), 0);
}

#[test]
fn law_duration_roundtrip_values() {
    for secs in [0u64, 1, 59, 60, 61, 3599, 3600, 86399, 123456789] {
        assert_eq!(parse_duration(&format_minutes_seconds(secs)), secs);
    }
}

#[test]
fn law_track_duration_minutes_values() {
    for secs in [0u64, 59, 60, 215, 3599, 3600, 3719, 86399, 123456789] {
        assert_eq!(parse_duration(&format_duration(secs)), secs / 60);
    }
}

#[test]
fn audio_extensions_ignore_case() {
    assert!(is_audio_extension("mp3"));
    assert!(is_audio_extension("FLAC"));
    assert!(is_audio_extension("M4a"));
    assert!(!is_audio_extension("txt"));
    assert!(!is_audio_extension(""));
}

#[test]
fn track_from_tags_defaults() {
    let t = track_from_tags("song.mp3".to_string(), Some("song".to_string()), None, None, None, None, None);
    assert_eq!(t.title, "song");
    assert_eq!(t.artist, "Unknown Artist");
    assert_eq!(t.album, "Unknown Album");
    assert_eq!(t.duration, "--:--");
    assert_eq!(t.duration_secs, 0);
    assert!(t.linked);
    assert!(t.lastfm_title.is_none());
    let u = track_from_tags("x".to_string(), None, None, None, None, None, Some(125));
    assert_eq!(u.title, "Unknown");
    assert_eq!(u.duration, "0:02");
    assert_eq!(u.duration_secs, 125);
}

#[test]
fn track_from_tags_uses_tags() {
    let t = track_from_tags(
        "a.flac".to_string(),
        Some("a".to_string()),
        Some("Title".to_string()),
        Some("Artist".to_string()),
        Some("Album".to_string()),
        Some(vec![1, 2, 3]),
        Some(3725),
    );
    assert_eq!(t.title, "Title");
    assert_eq!(t.artist, "Artist");
    assert_eq!(t.album, "Album");
    assert_eq!(t.duration, "1:02");
    assert_eq!(t.artwork, Some(vec![1, 2, 3]));
}

#[test]
fn theme_labels() {
    assert_eq!(AppTheme::Nord.label(), "Nord");
    assert_eq!(AppTheme::CatppuccinMacchiato.label(), "Catppuccin Macchiato");
    assert_eq!(AppTheme::CatppuccinLatte.label(), "Catppuccin Latte");
    assert_eq!(AppTheme::TokyoNight.label(), "Tokyo Night");
    assert_eq!(AppTheme::AyuDark.label(), "Ayu Dark");
}

#[test]
fn law_label_leads_back_to_theme() {
    let all = AppTheme::all();
    assert_eq!(all.len(), 5);
    for t in all {
        assert_eq!(AppTheme::from_label(t.label()), Some(t));
    }
    assert_eq!(AppTheme::from_label("nord"), None);
    assert_eq!(AppTheme::from_label(""), None);
}

#[test]
fn theme_from_config_defaults_to_nord() {
    assert_eq!(theme_from_config(""), AppTheme::Nord);
    assert_eq!(theme_from_config("theme = \"Unknown\"\n"), AppTheme::Nord);
    assert_eq!(theme_from_config("theme = \"Ayu Dark\"\n"), AppTheme::AyuDark);
}

#[test]
fn law_theme_persists_values() {
    for t in AppTheme::all() {
        let written = rustify::settings::write_theme("x = \"1\"\n", t.label());
        assert_eq!(theme_from_config(&written), t);
    }
}

#[test]
fn screens_differ() {
    assert_ne!(Screen::Library, Screen::Settings);
}

#[test]
fn cache_key_joins_name_and_duration() {
    assert_eq!(cache_key("song.mp3", 215), "song.mp3::215");
    assert_eq!(cache_key("", 0), "::0");
}

#[test]
fn link_cache_get_after_insert() {
    let mut c = LinkCache::new();
    let link = |t: &str, skipped| CachedLink {
        lastfm_title: t.to_string(),
        lastfm_artist: "A".to_string(),
        skipped,
        last_played: None,
    };
    insert(&mut c, "k1".to_string(), link("one", false));
    insert(&mut c, "k2".to_string(), link("two", true));
    assert_eq!(c.get(&"k1".to_string()).unwrap().lastfm_title, "one");
    assert!(c.get(&"k2".to_string()).unwrap().skipped);
    insert(&mut c, "k1".to_string(), link("uno", false));
    assert_eq!(c.get(&"k1".to_string()).unwrap().lastfm_title, "uno");
    assert_eq!(c.entries().len(), 2);
    assert!(c.get(&"k3".to_string()).is_none());
}

#[test]
fn cache_keys_of_different_tracks_differ() {
    let keys = [cache_key("a::1", 2), cache_key("a", 12), cache_key("a:", 12), cache_key("a::1::2", 0), cache_key("a", 1)];
    for i in 0..keys.len() {
        for j in 0..keys.len() {
            assert_eq!(i == j, keys[i] == keys[j]);
        }
    }
}
