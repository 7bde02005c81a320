use rustify::discord::artwork_upload_form;
use rustify::encoding::{hex_lower_string, md5_hex};
use rustify::matcher::{search_by_query_url, try_auto_match, AutoMatchResult, SearchResult};
use rustify::text::{chars_of, parse_u64, str_eq, str_less, u64_to_string};

#[test]
fn chars_of_keeps_order() {
    assert_eq!(chars_of("aé b"), vec!['a', 'é', ' ', 'b']);
    assert_eq!(chars_of(""), Vec::<char>::new());
}

#[test]
fn parse_u64_accepts_digits_and_plus() {
    assert_eq!(parse_u64("42"), Some(42));
    assert_eq!(parse_u64("+7"), Some(7));
    assert_eq!(parse_u64("007"), Some(7));
    assert_eq!(parse_u64("18446744073709551615"), Some(u64::MAX));
}

#[test]
fn parse_u64_rejects_other_text() {
    assert_eq!(parse_u64(""), None);
    assert_eq!(parse_u64("+"), None);
    assert_eq!(parse_u64("-1"), None);
    assert_eq!(parse_u64("12a"), None);
    assert_eq!(parse_u64(" 12"), None);
    assert_eq!(parse_u64("18446744073709551616"), None);
}

#[test]
fn u64_to_string_is_decimal() {
    assert_eq!(u64_to_string(0), "0");
    assert_eq!(u64_to_string(1234), "1234");
    assert_eq!(u64_to_string(u64::MAX), "18446744073709551615");
}

#[test]
fn decimal_reads_back() {
    for n in [0u64, 9, 10, 99, 100, 65535, 1700000000, u64::MAX] {
        assert_eq!(parse_u64(&u64_to_string(n)), Some(n));
    }
}

#[test]
fn string_order_is_by_code_point() {
    assert!(str_less("LASTFM_API_KEY", "LASTFM_API_SECRET"));
    assert!(str_less("a", "ab"));
    assert!(!str_less("ab", "a"));
    assert!(!str_less("same", "same"));
    assert!(str_less("Z", "a"));
    assert!(str_eq("x", "x"));
    assert!(!str_eq("x", "X"));
}

fn one_result(title: &str, artist: &str) -> Vec<SearchResult> {
    vec![SearchResult { title: title.to_string(), artist: artist.to_string(), duration_secs: 0 }]
}

#[test]
fn lowercase_uses_unicode_mapping() {
    assert!(matches!(try_auto_match(&one_result("MP3", "ÉTÉ"), "mp3", "été", 0), AutoMatchResult::Matched { .. }));
    assert!(matches!(try_auto_match(&one_result("MP3", "ÉTÉ"), "mp3", "ete", 0), AutoMatchResult::NeedsReview));
}

fn query_part(query: &str) -> String {
    let url = search_by_query_url("K", query);
    let head = "https://ws.audioscrobbler.com/2.0/?method=track.search&track=";
    let tail = "&api_key=K&format=json&limit=8";
    assert!(url.starts_with(head) && url.ends_with(tail));
    url[head.len()..url.len() - tail.len()].to_string()
}

#[test]
fn url_encode_escapes_unsafe_bytes() {
    assert_eq!(query_part("a b&c"), "a%20b%26c");
    assert_eq!(query_part("AZaz09-._~"), "AZaz09-._~");
    assert_eq!(query_part("é"), "%C3%A9");
    assert_eq!(query_part(""), "");
}

fn image_part(bytes: &[u8]) -> String {
    let form = artwork_upload_form("K", &bytes.to_vec());
    assert_eq!(form[0], ("key".to_string(), "K".to_string()));
    assert_eq!(form[1].0, "image");
    form[1].1.clone()
}

#[test]
fn base64_pads_to_four() {
    assert_eq!(image_part(b""), "");
    assert_eq!(image_part(b"f"), "Zg==");
    assert_eq!(image_part(b"fo"), "Zm8=");
    assert_eq!(image_part(b"foo"), "Zm9v");
    assert_eq!(image_part(b"foobar"), "Zm9vYmFy");
    assert_eq!(image_part(&[0xff, 0xfe]), "//4=");
}

#[test]
fn md5_hex_is_lower_case_digest() {
    assert_eq!(md5_hex(b""), "d41d8cd98f00b204e9800998ecf8427e");
    assert_eq!(md5_hex(b"abc"), "900150983cd24fb0d6963f7d28e17f72");
}

#[test]
fn hex_lower_string_two_digits_per_byte() {
    assert_eq!(hex_lower_string(&vec![0x00, 0x0f, 0xa0, 0xff]), "000fa0ff");
}
