//! What the player reads from Last.fm: the track a user is playing now,
//! the artwork of a track, and tracks similar to it.
use vstd::prelude::*;
use crate::encoding::{url_encode, url_encode_spec};
use crate::text::str_eq;

verus! {

broadcast use vstd::string::group_string_axioms;

#[derive(Debug, Clone)]
pub struct Artist {
    pub text: String,
}

#[derive(Debug, Clone)]
pub struct Album {
    pub text: String,
}

#[derive(Debug, Clone)]
pub struct NowPlayingAttr {
    pub nowplaying: String,
}

/// A recent track of a Last.fm user.
#[derive(Debug, Clone)]
pub struct Track {
    pub name: String,
    pub artist: Artist,
    pub album: Album,
    pub attr: Option<NowPlayingAttr>,
}

/// A track that Last.fm finds similar to another.
#[derive(Debug, Clone)]
pub struct SimilarTrack {
    pub title: String,
    pub artist: String,
}

impl Track {
    /// The `@attr` of the track says that it is playing now.
    pub open spec fn is_now_playing(&self) -> bool {
        match self.attr {
            Some(a) => a.nowplaying@ == "true"@,
            None => false,
        }
    }
}

pub open spec fn utf8(s: Seq<char>) -> Seq<u8> {
    vstd::utf8::encode_utf8(s)
}

/// The `user.getrecenttracks` request for the latest track of `username`.
pub fn recent_tracks_url(api_key: &str, username: &str) -> (r: String)
    ensures
        r@ == "https://ws.audioscrobbler.com/2.0/?method=user.getrecenttracks&user="@ + username@
            + "&api_key="@ + api_key@ + "&format=json&limit=1"@,
{
    let mut r = String::from_str(
        "https://ws.audioscrobbler.com/2.0/?method=user.getrecenttracks&user=",
    );
    r.append(username);
    r.append("&api_key=");
    r.append(api_key);
    r.append("&format=json&limit=1");
    r
}

/// `get_now_playing` once the recent tracks are in: the first of them if
/// Last.fm marks it as playing now, else `None`.
pub fn get_now_playing(tracks: Vec<Track>) -> (r: Option<Track>)
    ensures
        match r {
            Some(t) => tracks@.len() > 0 && t == tracks@[0] && t.is_now_playing(),
            None => tracks@.len() == 0 || !tracks@[0].is_now_playing(),
        },
{
    let mut tracks = tracks;
    if tracks.len() == 0 {
        return None;
    }
    let first = tracks.remove(0);
    let playing = match &first.attr {
        Some(a) => str_eq(a.nowplaying.as_str(), "true"),
        None => false,
    };
    if playing {
        Some(first)
    } else {
        None
    }
}

/// The `track.getInfo` request, with artist and track percent-encoded.
pub fn track_info_url(api_key: &str, artist: &str, track: &str) -> (r: String)
    ensures
        r@ == "https://ws.audioscrobbler.com/2.0/?method=track.getInfo&api_key="@ + api_key@
            + "&artist="@ + url_encode_spec(utf8(artist@)) + "&track="@ + url_encode_spec(
            utf8(track@),
        ) + "&format=json"@,
{
    let mut r = String::from_str("https://ws.audioscrobbler.com/2.0/?method=track.getInfo&api_key=");
    r.append(api_key);
    r.append("&artist=");
    let a = url_encode(artist);
    r.append(a.as_str());
    r.append("&track=");
    let t = url_encode(track);
    r.append(t.as_str());
    r.append("&format=json");
    r
}

/// The artwork address in a `track.getInfo` answer: the `#text` of the
/// last album image, unless there is no image list, no image, no text, or
/// the text is empty. `images` holds the `#text` of each image, `None`
/// where it is not a string.
pub fn artwork_url(images: Option<Vec<Option<String>>>) -> (r: Option<String>)
    ensures
        match images {
            None => r.is_none(),
            Some(v) => if v@.len() == 0 {
                r.is_none()
            } else {
                match v@.last() {
                    None => r.is_none(),
                    Some(u) => if u@.len() == 0 {
                        r.is_none()
                    } else {
                        r == Some(u)
                    },
                }
            },
        },
{
    match images {
        None => None,
        Some(mut v) => {
            if v.len() == 0 {
                return None;
            }
            let last = v.pop().unwrap();
            match last {
                None => None,
                Some(u) => {
                    if u.as_str().is_empty() {
                        None
                    } else {
                        Some(u)
                    }
                },
            }
        },
    }
}

/// The `track.getSimilar` request (at most 20 tracks).
pub fn similar_tracks_url(api_key: &str, artist: &str, track: &str) -> (r: String)
    ensures
        r@ == "https://ws.audioscrobbler.com/2.0/?method=track.getSimilar&api_key="@ + api_key@
            + "&artist="@ + url_encode_spec(utf8(artist@)) + "&track="@ + url_encode_spec(
            utf8(track@),
        ) + "&limit=20&format=json"@,
{
    let mut r = String::from_str(
        "https://ws.audioscrobbler.com/2.0/?method=track.getSimilar&api_key=",
    );
    r.append(api_key);
    r.append("&artist=");
    let a = url_encode(artist);
    r.append(a.as_str());
    r.append("&track=");
    let t = url_encode(track);
    r.append(t.as_str());
    r.append("&limit=20&format=json");
    r
}

/// The similar tracks of a `track.getSimilar` answer, in order: each entry
/// gives its `name` and its artist's `name` (`None` where either is not a
/// string); entries missing either are left out.
pub open spec fn similar_spec(entries: Seq<(Option<String>, Option<String>)>) -> Seq<(String, String)>
    decreases entries.len(),
{
    if entries.len() == 0 {
        Seq::empty()
    } else {
        let rest = similar_spec(entries.drop_last());
        match entries.last() {
            (Some(t), Some(a)) => rest.push((t, a)),
            _ => rest,
        }
    }
}

pub open spec fn similar_views(v: Seq<SimilarTrack>) -> Seq<(String, String)> {
    v.map_values(|s: SimilarTrack| (s.title, s.artist))
}

/// `get_similar_tracks` once the answer is in.
pub fn similar_from_entries(entries: Vec<(Option<String>, Option<String>)>) -> (r: Vec<SimilarTrack>)
    ensures
        similar_views(r@) == similar_spec(entries@),
{
    let ghost all = entries@;
    let mut out: Vec<SimilarTrack> = Vec::new();
    let mut i: usize = 0;
    let mut entries = entries;
    let n = entries.len();
    while i < n
        invariant
            n == all.len(),
            i <= n,
            entries@ == all.skip(i as int),
            similar_views(out@) == similar_spec(all.take(i as int)),
        decreases n - i,
    {
        let e = entries.remove(0);
        proof {
            assert(e == all[i as int]);
            assert(entries@ =~= all.skip(i + 1));
            let t = all.take(i + 1);
            assert(t.drop_last() =~= all.take(i as int));
            assert(t.last() == e);
        }
        match e {
            (Some(t), Some(a)) => {
                out.push(SimilarTrack { title: t, artist: a });
                proof {
                    assert(similar_views(out@) =~= similar_views(out@.drop_last()).push(
                        (out@.last().title, out@.last().artist),
                    ));
                }
            },
            _ => {},
        }
        i += 1;
    }
    assert(all.take(n as int) =~= all);
    out
}

} // verus!
