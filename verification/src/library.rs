//! The tracks of a music folder: which files count as audio, what a track
//! holds once its tags are read, and durations as text.
use vstd::prelude::*;
use crate::text::{
    all_digits, chars_of, decimal, digit_char, digits_value, find_char, first_index, is_digit,
    is_first, lemma_decimal_digits, lemma_first_index_is, lemma_no_first, lowercase,
    parse_u64_spec, push_char, push_decimal, str_eq, string_of, to_lowercase, parse_u64,
};

verus! {

broadcast use vstd::string::group_string_axioms;

/// Everything the player keeps of one audio file.
#[derive(Debug, Clone)]
pub struct TrackMeta {
    /// The file's name (the last part of its path), or empty where it is
    /// not valid UTF-8.
    pub file_name: String,
    pub title: String,
    pub artist: String,
    pub album: String,
    /// The duration in hours and minutes, `h:mm`, or `--:--` when the file
    /// could not be read.
    pub duration: String,
    pub duration_secs: u64,
    pub artwork: Option<Vec<u8>>,
    pub lastfm_title: Option<String>,
    pub lastfm_artist: Option<String>,
    /// `false` once the user chose to skip the track: it is not scrobbled.
    pub linked: bool,
}

/// `format!("{}:{:02}", high, low)` for `low` below 100.
pub open spec fn colon_text(high: nat, low: int) -> Seq<char> {
    decimal(high) + seq![':', digit_char(low / 10), digit_char(low % 10)]
}

/// A track's duration in hours and minutes:
/// `format!("{}:{:02}", secs / 3600, secs % 3600 / 60)`.
pub open spec fn duration_text(secs: u64) -> Seq<char> {
    colon_text((secs / 3600) as nat, ((secs % 3600) / 60) as int)
}

/// A duration in minutes and seconds:
/// `format!("{}:{:02}", secs / 60, secs % 60)`.
pub open spec fn minutes_seconds_text(secs: u64) -> Seq<char> {
    colon_text((secs / 60) as nat, (secs % 60) as int)
}

fn colon_string(high: u64, low: u64) -> (r: String)
    requires
        low < 100,
    ensures
        r@ == colon_text(high as nat, low as int),
{
    let mut r = String::new();
    push_decimal(&mut r, high);
    push_char(&mut r, ':');
    push_decimal(&mut r, low / 10);
    push_decimal(&mut r, low % 10);
    assert(r@ =~= colon_text(high as nat, low as int));
    r
}

/// A track's duration as hours and two-digit minutes.
pub fn format_duration(secs: u64) -> (r: String)
    ensures
        r@ == duration_text(secs),
{
    colon_string(secs / 3600, (secs % 3600) / 60)
}

/// A duration as minutes and two-digit seconds.
pub fn format_minutes_seconds(secs: u64) -> (r: String)
    ensures
        r@ == minutes_seconds_text(secs),
{
    colon_string(secs / 60, secs % 60)
}

/// `s.parse::<u64>().unwrap_or(0)`.
pub open spec fn parse_or_zero(s: Seq<char>) -> nat {
    match parse_u64_spec(s) {
        Some(v) => v as nat,
        None => 0,
    }
}

/// The seconds of an `m:s` text: minutes times sixty plus seconds, each
/// part read as a number or as 0; any text that is not two parts is 0.
pub open spec fn duration_value(s: Seq<char>) -> nat {
    let i = first_index(s, ':');
    if i < 0 {
        0
    } else if s.skip(i + 1).contains(':') {
        0
    } else {
        parse_or_zero(s.take(i)) * 60 + parse_or_zero(s.skip(i + 1))
    }
}

/// `parse_duration`: the seconds of `m:s`. The sum must fit a `u64` (else
/// the arithmetic overflows).
pub fn parse_duration(s: &str) -> (r: u64)
    requires
        duration_value(s@) <= u64::MAX,
    ensures
        r == duration_value(s@),
{
    let v = chars_of(s);
    let n = v.len();
    match find_char(&v, 0, n, ':') {
        None => {
            assert(v@.subrange(0, n as int) =~= s@);
            0
        },
        Some(i) => {
            assert(v@.subrange(0, n as int) =~= s@);
            assert(s@.skip(i + 1) =~= v@.subrange(i + 1, n as int));
            match find_char(&v, i + 1, n, ':') {
                Some(j) => {
                    assert(s@.skip(i + 1).contains(':')) by {
                        let k = (j - (i + 1)) as int;
                        assert(is_first(v@.subrange(i + 1, n as int), ':', k));
                    }
                    0
                },
                None => {
                    proof {
                        crate::text::lemma_first_index(v@.subrange(i + 1, n as int), ':');
                    }
                    let m = string_of(&v, 0, i);
                    let sec = string_of(&v, i + 1, n);
                    assert(m@ =~= s@.take(i as int));
                    let mv = match parse_u64(m.as_str()) {
                        Some(x) => x,
                        None => 0,
                    };
                    let sv = match parse_u64(sec.as_str()) {
                        Some(x) => x,
                        None => 0,
                    };
                    mv * 60 + sv
                },
            }
        },
    }
}

proof fn lemma_two_digits(d: int)
    requires
        0 <= d < 60,
    ensures
        parse_u64_spec(seq![digit_char(d / 10), digit_char(d % 10)]) == Some(d as u64),
{
    lemma_decimal_digits((d / 10) as nat);
    lemma_decimal_digits((d % 10) as nat);
    let s = seq![digit_char(d / 10), digit_char(d % 10)];
    assert(decimal((d / 10) as nat) == seq![digit_char(d / 10)]);
    assert(decimal((d % 10) as nat) == seq![digit_char(d % 10)]);
    assert(is_digit(s[0]));
    assert(is_digit(s[1]));
    assert(all_digits(s));
    assert(s.drop_last() =~= seq![digit_char(d / 10)]);
    assert(seq![digit_char(d / 10)].drop_last() =~= Seq::<char>::empty());
    assert(digits_value(seq![digit_char(d / 10)]) == d / 10);
    assert(digits_value(s) == (d / 10) * 10 + d % 10);
}

/// `high:ll` reads back as `high` times sixty plus `ll`.
pub proof fn lemma_colon_text_value(high: u64, low: int)
    requires
        0 <= low < 60,
    ensures
        duration_value(colon_text(high as nat, low)) == high * 60 + low,
{
    let t = colon_text(high as nat, low);
    let m = decimal(high as nat);
    lemma_decimal_digits(high as nat);
    let i = m.len() as int;
    assert forall|j: int| 0 <= j < i implies t[j] != ':' by {
        assert(t[j] == m[j]);
        assert(is_digit(m[j]));
    }
    assert(t[i] == ':');
    assert(is_first(t, ':', i));
    lemma_first_index_is(t, ':', i);
    let rest = seq![digit_char(low / 10), digit_char(low % 10)];
    assert(t.take(i) =~= m);
    assert(t.skip(i + 1) =~= rest);
    lemma_decimal_digits((low / 10) as nat);
    lemma_decimal_digits((low % 10) as nat);
    assert(decimal((low / 10) as nat) == seq![digit_char(low / 10)]);
    assert(decimal((low % 10) as nat) == seq![digit_char(low % 10)]);
    if rest.contains(':') {
        let k = choose|k: int| 0 <= k < rest.len() && rest[k] == ':';
        assert(is_digit(rest[k]));
    }
    lemma_two_digits(low);
    crate::text::lemma_parse_decimal(high);
}

/// Law: a duration written as minutes and seconds (as a search result
/// shows it) reads back with `parse_duration` as the same number of
/// seconds.
pub proof fn law_duration_roundtrip(secs: u64)
    ensures
        duration_value(minutes_seconds_text(secs)) == secs,
{
    lemma_colon_text_value(secs / 60, (secs % 60) as int);
    assert((secs / 60) * 60 + secs % 60 == secs);
}

/// Law: a track's duration text (hours and minutes) read with
/// `parse_duration` gives the track's whole minutes.
pub proof fn law_track_duration_minutes(secs: u64)
    ensures
        duration_value(duration_text(secs)) == secs / 60,
{
    lemma_colon_text_value(secs / 3600, ((secs % 3600) / 60) as int);
    assert((secs / 3600) * 60 + (secs % 3600) / 60 == secs / 60) by (nonlinear_arith);
}

/// The file extensions that count as audio.
pub open spec fn audio_extensions() -> Seq<Seq<char>> {
    seq!["mp3"@, "flac"@, "ogg"@, "wav"@, "m4a"@]
}

/// Law: the audio files are exactly those ending in `mp3`, `flac`, `ogg`,
/// `wav` or `m4a` (in any case): `is_audio_extension` accepts an
/// extension exactly when its lower-case form is one of these five.
pub proof fn law_audio_extensions(e: Seq<char>)
    ensures
        audio_extensions().contains(e) <==> (e == "mp3"@ || e == "flac"@ || e == "ogg"@ || e
            == "wav"@ || e == "m4a"@),
{
    let x = audio_extensions();
    assert(x[0] == "mp3"@ && x[1] == "flac"@ && x[2] == "ogg"@ && x[3] == "wav"@ && x[4] == "m4a"@);
    if x.contains(e) {
        let k = choose|k: int| 0 <= k < x.len() && x[k] == e;
        assert(k == 0 || k == 1 || k == 2 || k == 3 || k == 4);
    }
    if e == "mp3"@ {
        assert(x[0] == e);
    } else if e == "flac"@ {
        assert(x[1] == e);
    } else if e == "ogg"@ {
        assert(x[2] == e);
    } else if e == "wav"@ {
        assert(x[3] == e);
    } else if e == "m4a"@ {
        assert(x[4] == e);
    }
}

/// Whether a file with this extension is audio: its lower-case form is
/// one of `audio_extensions`.
pub fn is_audio_extension(ext: &str) -> (r: bool)
    ensures
        r == audio_extensions().contains(lowercase(ext@)),
{
    let lower = to_lowercase(ext);
    let l = lower.as_str();
    let r = str_eq(l, "mp3") || str_eq(l, "flac") || str_eq(l, "ogg") || str_eq(l, "wav")
        || str_eq(l, "m4a");
    proof {
        let e = audio_extensions();
        if e.contains(lower@) {
            let k = choose|k: int| 0 <= k < e.len() && e[k] == lower@;
            assert(k == 0 || k == 1 || k == 2 || k == 3 || k == 4);
        }
        if r {
            if lower@ == "mp3"@ {
                assert(e[0] == lower@);
            } else if lower@ == "flac"@ {
                assert(e[1] == lower@);
            } else if lower@ == "ogg"@ {
                assert(e[2] == lower@);
            } else if lower@ == "wav"@ {
                assert(e[3] == lower@);
            } else {
                assert(e[4] == lower@);
            }
        }
    }
    r
}

/// The track of an audio file. `stem` is the file name without extension
/// (if valid text); `tags` are the title, artist and album of the file's
/// tag, `artwork` its first picture, and `duration_secs` is `None` when the
/// file could not be read.
pub fn track_from_tags(
    file_name: String,
    stem: Option<String>,
    tag_title: Option<String>,
    tag_artist: Option<String>,
    tag_album: Option<String>,
    artwork: Option<Vec<u8>>,
    duration_secs: Option<u64>,
) -> (r: TrackMeta)
    ensures
        r.file_name == file_name,
        r.title@ == (match tag_title {
            Some(t) => t@,
            None => match stem {
                Some(s) => s@,
                None => "Unknown"@,
            },
        }),
        r.artist@ == (match tag_artist {
            Some(a) => a@,
            None => "Unknown Artist"@,
        }),
        r.album@ == (match tag_album {
            Some(a) => a@,
            None => "Unknown Album"@,
        }),
        r.duration@ == (match duration_secs {
            Some(d) => duration_text(d),
            None => "--:--"@,
        }),
        r.duration_secs == (match duration_secs {
            Some(d) => d,
            None => 0,
        }),
        r.artwork == artwork,
        r.lastfm_title.is_none(),
        r.lastfm_artist.is_none(),
        r.linked,
{
    let title = match tag_title {
        Some(t) => t,
        None => match stem {
            Some(s) => s,
            None => String::from_str("Unknown"),
        },
    };
    let artist = match tag_artist {
        Some(a) => a,
        None => String::from_str("Unknown Artist"),
    };
    let album = match tag_album {
        Some(a) => a,
        None => String::from_str("Unknown Album"),
    };
    let (duration, secs) = match duration_secs {
        Some(d) => (format_duration(d), d),
        None => (String::from_str("--:--"), 0),
    };
    TrackMeta {
        file_name,
        title,
        artist,
        album,
        duration,
        duration_secs: secs,
        artwork,
        lastfm_title: None,
        lastfm_artist: None,
        linked: true,
    }
}

} // verus!
