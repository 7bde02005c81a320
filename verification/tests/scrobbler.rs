use rustify::scrobbler::{Scrobbler, API_URL};

fn md5(s: &str) -> String {
    format!("{:x}", md5::compute(s.as_bytes()))
}

fn pairs(v: &[(&str, &str)]) -> Vec<(String, String)> {
    v.iter().map(|(k, x)| (k.to_string(), x.to_string())).collect()
}

#[test]
fn new_has_no_session() {
    let s = Scrobbler::new("k".into(), "s".into());
    assert!(!s.is_authenticated());
    let t = Scrobbler::new_with_session("k".into(), "s".into(), "sk".into());
    assert!(t.is_authenticated());
    assert_eq!(API_URL, "https://ws.audioscrobbler.com/2.0/");
}

#[test]
fn auth_url_holds_key_and_token() {
    let s = Scrobbler::new("KEY".into(), "SECRET".into());
    assert_eq!(s.auth_url("TOK"), "https://www.last.fm/api/auth/?api_key=KEY&token=TOK");
}

#[test]
fn sign_sorts_keys_then_appends_secret() {
    let s = Scrobbler::new("KEY".into(), "SECRET".into());
    let sig = s.sign(&pairs(&[("method", "auth.getToken"), ("api_key", "KEY")]));
    assert_eq!(sig, md5("api_keyKEYmethodauth.getTokenSECRET"));
}

#[test]
fn law_signature_ignores_order_values() {
    let s = Scrobbler::new("KEY".into(), "SECRET".into());
    let a = s.sign(&pairs(&[("b", "2"), ("a", "1"), ("c", "3")]));
    let b = s.sign(&pairs(&[("c", "3"), ("a", "1"), ("b", "2")]));
    assert_eq!(a, b);
    assert_eq!(a, md5("a1b2c3SECRET"));
}

#[test]
fn get_token_query() {
    let s = Scrobbler::new("KEY".into(), "SECRET".into());
    let q = s.get_token();
    assert_eq!(q.len(), 4);
    assert_eq!(q[0], ("method".to_string(), "auth.getToken".to_string()));
    assert_eq!(q[1], ("api_key".to_string(), "KEY".to_string()));
    assert_eq!(q[2], ("api_sig".to_string(), md5("api_keyKEYmethodauth.getTokenSECRET")));
    assert_eq!(q[3], ("format".to_string(), "json".to_string()));
}

#[test]
fn session_request_query() {
    let s = Scrobbler::new("KEY".into(), "SECRET".into());
    let q = s.session_request("TOK");
    assert_eq!(q.len(), 5);
    assert_eq!(q[2], ("token".to_string(), "TOK".to_string()));
    assert_eq!(q[3].1, md5("api_keyKEYmethodauth.getSessiontokenTOKSECRET"));
}

#[test]
fn get_session_keeps_answered_key() {
    let mut s = Scrobbler::new("KEY".into(), "SECRET".into());
    assert!(!s.get_session(None));
    assert!(s.session_key.is_none());
    assert!(s.get_session(Some("SK".into())));
    assert_eq!(s.session_key, Some("SK".to_string()));
}

#[test]
fn no_session_sends_nothing() {
    let s = Scrobbler::new("KEY".into(), "SECRET".into());
    assert!(s.update_now_playing("a", "t", "al").is_none());
    assert!(s.scrobble("a", "t", "al", 5).is_none());
}

#[test]
fn now_playing_form_is_signed() {
    let s = Scrobbler::new_with_session("KEY".into(), "SECRET".into(), "SK".into());
    let f = s.update_now_playing("Artist", "Track", "Album").unwrap();
    assert_eq!(f.len(), 8);
    assert_eq!(f[0].1, "track.updateNowPlaying");
    assert_eq!(
        f[6].1,
        md5("albumAlbumapi_keyKEYartistArtistmethodtrack.updateNowPlayingskSKtrackTrackSECRET")
    );
}

#[test]
fn scrobble_form_has_timestamp() {
    let s = Scrobbler::new_with_session("KEY".into(), "SECRET".into(), "SK".into());
    let f = s.scrobble("Artist", "Track", "Album", 1700000000).unwrap();
    assert_eq!(f.len(), 9);
    assert_eq!(f[6], ("timestamp".to_string(), "1700000000".to_string()));
    assert_eq!(
        f[7].1,
        md5("albumAlbumapi_keyKEYartistArtistmethodtrack.scrobbleskSKtimestamp1700000000trackTrackSECRET")
    );
}
