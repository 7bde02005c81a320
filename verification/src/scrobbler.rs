//! Last.fm sessions and scrobbles: which parameters each call sends, and
//! how they are signed.
use vstd::prelude::*;
use crate::encoding::{hex_lower_spec, md5_digest, md5_hex};
use crate::settings::{
    concat_spec, fold_ins, lemma_sorted_unique, pair_views, sorted_keys, Pair, SettingsMap,
};
use crate::text::{concat, decimal, u64_to_string};

verus! {

broadcast use vstd::string::group_string_axioms;

/// The Last.fm web service endpoint.
pub const API_URL: &'static str = "https://ws.audioscrobbler.com/2.0/";

/// `sig` signs `params` with `secret`: the lower-case hexadecimal MD5 of
/// every key followed by its value in key order (a later duplicate key
/// wins), then the secret, as UTF-8.
pub open spec fn signed_by(sig: Seq<char>, params: Seq<Pair>, secret: Seq<char>) -> bool {
    exists|es: Seq<Pair>| #[trigger]
        sorted_keys(es) && fold_ins(Map::empty(), es) == fold_ins(Map::empty(), params) && sig
            == hex_lower_spec(md5_digest(vstd::utf8::encode_utf8(concat_spec(es) + secret)))
}

/// The Last.fm account the player talks to.
#[derive(Debug, Clone)]
pub struct Scrobbler {
    pub api_key: String,
    pub api_secret: String,
    pub session_key: Option<String>,
}

/// A pair of strings from two literals or values.
fn pair(k: &str, v: &str) -> (r: (String, String))
    ensures
        r.0@ == k@,
        r.1@ == v@,
{
    (k.to_owned(), v.to_owned())
}

/// The parameters that `auth.getToken` signs.
pub open spec fn token_params(api_key: Seq<char>) -> Seq<Pair> {
    seq![("method"@, "auth.getToken"@), ("api_key"@, api_key)]
}

/// The parameters that `auth.getSession` signs.
pub open spec fn session_params(api_key: Seq<char>, token: Seq<char>) -> Seq<Pair> {
    seq![("method"@, "auth.getSession"@), ("api_key"@, api_key), ("token"@, token)]
}

/// The parameters that `track.updateNowPlaying` signs.
pub open spec fn now_playing_params(
    api_key: Seq<char>,
    sk: Seq<char>,
    artist: Seq<char>,
    track: Seq<char>,
    album: Seq<char>,
) -> Seq<Pair> {
    seq![
        ("method"@, "track.updateNowPlaying"@),
        ("api_key"@, api_key),
        ("sk"@, sk),
        ("artist"@, artist),
        ("track"@, track),
        ("album"@, album),
    ]
}

/// The parameters that `track.scrobble` signs.
pub open spec fn scrobble_params(
    api_key: Seq<char>,
    sk: Seq<char>,
    artist: Seq<char>,
    track: Seq<char>,
    album: Seq<char>,
    timestamp: Seq<char>,
) -> Seq<Pair> {
    seq![
        ("method"@, "track.scrobble"@),
        ("api_key"@, api_key),
        ("sk"@, sk),
        ("artist"@, artist),
        ("track"@, track),
        ("album"@, album),
        ("timestamp"@, timestamp),
    ]
}

/// A request: the signed parameters, then `api_sig` and `format=json`.
pub open spec fn signed_request(r: Seq<Pair>, params: Seq<Pair>, secret: Seq<char>) -> bool {
    &&& r.len() == params.len() + 2
    &&& r.take(params.len() as int) == params
    &&& r[params.len() as int].0 == "api_sig"@
    &&& signed_by(r[params.len() as int].1, params, secret)
    &&& r[params.len() as int + 1] == ("format"@, "json"@)
}

impl Scrobbler {
    pub fn new(api_key: String, api_secret: String) -> (r: Self)
        ensures
            r.api_key == api_key,
            r.api_secret == api_secret,
            r.session_key.is_none(),
    {
        Scrobbler { api_key, api_secret, session_key: None }
    }

    pub fn new_with_session(api_key: String, api_secret: String, session_key: String) -> (r: Self)
        ensures
            r.api_key == api_key,
            r.api_secret == api_secret,
            r.session_key == Some(session_key),
    {
        Scrobbler { api_key, api_secret, session_key: Some(session_key) }
    }

    pub fn is_authenticated(&self) -> (r: bool)
        ensures
            r == self.session_key.is_some(),
    {
        self.session_key.is_some()
    }

    /// The page where the user grants access for `token`.
    pub fn auth_url(&self, token: &str) -> (r: String)
        ensures
            r@ == "https://www.last.fm/api/auth/?api_key="@ + self.api_key@ + "&token="@ + token@,
    {
        let mut r = String::from_str("https://www.last.fm/api/auth/?api_key=");
        r.append(self.api_key.as_str());
        r.append("&token=");
        r.append(token);
        r
    }

    /// The `api_sig` of a call with these parameters.
    pub fn sign(&self, params: &Vec<(String, String)>) -> (r: String)
        ensures
            signed_by(r@, pair_views(params@), self.api_secret@),
    {
        let sorted = SettingsMap::from_pairs(params);
        let base = sorted.concat_pairs();
        let text = concat(base.as_str(), self.api_secret.as_str());
        let r = md5_hex(text.as_str().as_bytes());
        assert(sorted_keys(sorted.pairs()) && fold_ins(Map::empty(), sorted.pairs()) == fold_ins(
            Map::empty(),
            pair_views(params@),
        ) && r@ == hex_lower_spec(
            md5_digest(vstd::utf8::encode_utf8(concat_spec(sorted.pairs()) + self.api_secret@)),
        ));
        r
    }

    /// Adds `api_sig` and `format=json` to the parameters of a call.
    fn finish(&self, params: Vec<(String, String)>) -> (r: Vec<(String, String)>)
        ensures
            signed_request(pair_views(r@), pair_views(params@), self.api_secret@),
    {
        let sig = self.sign(&params);
        let mut r = params;
        let ghost p = pair_views(r@);
        r.push((String::from_str("api_sig"), sig));
        r.push(pair("format", "json"));
        proof {
            let v = pair_views(r@);
            assert(v.take(p.len() as int) =~= p);
        }
        r
    }

    /// The query of `auth.getToken` (the first step of `get_token`).
    pub fn get_token(&self) -> (r: Vec<(String, String)>)
        ensures
            signed_request(pair_views(r@), token_params(self.api_key@), self.api_secret@),
    {
        let mut p = Vec::new();
        p.push(pair("method", "auth.getToken"));
        p.push(pair("api_key", self.api_key.as_str()));
        assert(pair_views(p@) =~= token_params(self.api_key@));
        self.finish(p)
    }

    /// The query of `auth.getSession` for `token`.
    pub fn session_request(&self, token: &str) -> (r: Vec<(String, String)>)
        ensures
            signed_request(pair_views(r@), session_params(self.api_key@, token@), self.api_secret@),
    {
        let mut p = Vec::new();
        p.push(pair("method", "auth.getSession"));
        p.push(pair("api_key", self.api_key.as_str()));
        p.push(pair("token", token));
        assert(pair_views(p@) =~= session_params(self.api_key@, token@));
        self.finish(p)
    }

    /// `get_session` once Last.fm has answered: a session key in the
    /// answer is kept and the result is `true`; otherwise nothing changes.
    pub fn get_session(&mut self, answered_key: Option<String>) -> (r: bool)
        ensures
            r == answered_key.is_some(),
            final(self).api_key == old(self).api_key,
            final(self).api_secret == old(self).api_secret,
            final(self).session_key == (if answered_key.is_some() {
                answered_key
            } else {
                old(self).session_key
            }),
    {
        match answered_key {
            Some(k) => {
                self.session_key = Some(k);
                true
            },
            None => false,
        }
    }

    /// The form of `track.updateNowPlaying`; `None` (nothing is sent) when
    /// there is no session.
    pub fn update_now_playing(&self, artist: &str, track: &str, album: &str) -> (r: Option<
        Vec<(String, String)>,
    >)
        ensures
            match self.session_key {
                None => r.is_none(),
                Some(sk) => r matches Some(f) && signed_request(
                    pair_views(f@),
                    now_playing_params(self.api_key@, sk@, artist@, track@, album@),
                    self.api_secret@,
                ),
            },
    {
        match &self.session_key {
            None => None,
            Some(sk) => {
                let mut p = Vec::new();
                p.push(pair("method", "track.updateNowPlaying"));
                p.push(pair("api_key", self.api_key.as_str()));
                p.push(pair("sk", sk.as_str()));
                p.push(pair("artist", artist));
                p.push(pair("track", track));
                p.push(pair("album", album));
                assert(pair_views(p@) =~= now_playing_params(
                    self.api_key@,
                    sk@,
                    artist@,
                    track@,
                    album@,
                ));
                Some(self.finish(p))
            },
        }
    }

    /// The form of `track.scrobble` for a play that started at
    /// `timestamp` (seconds since the Unix epoch); `None` without a
    /// session.
    pub fn scrobble(&self, artist: &str, track: &str, album: &str, timestamp: u64) -> (r: Option<
        Vec<(String, String)>,
    >)
        ensures
            match self.session_key {
                None => r.is_none(),
                Some(sk) => r matches Some(f) && signed_request(
                    pair_views(f@),
                    scrobble_params(
                        self.api_key@,
                        sk@,
                        artist@,
                        track@,
                        album@,
                        decimal(timestamp as nat),
                    ),
                    self.api_secret@,
                ),
            },
    {
        match &self.session_key {
            None => None,
            Some(sk) => {
                let ts = u64_to_string(timestamp);
                let mut p = Vec::new();
                p.push(pair("method", "track.scrobble"));
                p.push(pair("api_key", self.api_key.as_str()));
                p.push(pair("sk", sk.as_str()));
                p.push(pair("artist", artist));
                p.push(pair("track", track));
                p.push(pair("album", album));
                p.push(pair("timestamp", ts.as_str()));
                assert(pair_views(p@) =~= scrobble_params(
                    self.api_key@,
                    sk@,
                    artist@,
                    track@,
                    album@,
                    decimal(timestamp as nat),
                ));
                Some(self.finish(p))
            },
        }
    }
}

/// Law: the signature of a call depends only on its parameters as a map,
/// not on the order in which they are given.
pub proof fn law_signature_ignores_order(p1: Seq<Pair>, p2: Seq<Pair>, secret: Seq<char>, sig: Seq<char>)
    requires
        fold_ins(Map::empty(), p1) == fold_ins(Map::empty(), p2),
        signed_by(sig, p1, secret),
    ensures
        signed_by(sig, p2, secret),
{
    let es = choose|es: Seq<Pair>| #[trigger]
        sorted_keys(es) && fold_ins(Map::empty(), es) == fold_ins(Map::empty(), p1) && sig
            == hex_lower_spec(md5_digest(vstd::utf8::encode_utf8(concat_spec(es) + secret)));
    assert(sorted_keys(es) && fold_ins(Map::empty(), es) == fold_ins(Map::empty(), p2));
}

/// Law: the parameters and the secret determine the signature: two
/// signatures of the same call are the same text.
pub proof fn law_signature_unique(params: Seq<Pair>, secret: Seq<char>, s1: Seq<char>, s2: Seq<char>)
    requires
        signed_by(s1, params, secret),
        signed_by(s2, params, secret),
    ensures
        s1 == s2,
{
    let m = fold_ins(Map::empty(), params);
    let es1 = choose|es: Seq<Pair>| #[trigger]
        sorted_keys(es) && fold_ins(Map::empty(), es) == m && s1
            == hex_lower_spec(md5_digest(vstd::utf8::encode_utf8(concat_spec(es) + secret)));
    let es2 = choose|es: Seq<Pair>| #[trigger]
        sorted_keys(es) && fold_ins(Map::empty(), es) == m && s2
            == hex_lower_spec(md5_digest(vstd::utf8::encode_utf8(concat_spec(es) + secret)));
    lemma_sorted_unique(es1, es2);
}

} // verus!
