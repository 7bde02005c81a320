//! The links between local files and Last.fm tracks, kept by a key made of
//! the file name and the duration.
use vstd::prelude::*;
use crate::text::{decimal, is_digit, lemma_decimal_digits, push_decimal};

verus! {

broadcast use vstd::string::group_string_axioms;

/// What is remembered of a local file: the Last.fm title and artist it is
/// linked to, whether the user chose to skip it, and when it was last
/// played (seconds since the Unix epoch).
#[derive(Debug, Clone)]
pub struct CachedLink {
    pub lastfm_title: String,
    pub lastfm_artist: String,
    pub skipped: bool,
    pub last_played: Option<u64>,
}

/// A `CachedLink` as plain values.
pub struct LinkView {
    pub lastfm_title: Seq<char>,
    pub lastfm_artist: Seq<char>,
    pub skipped: bool,
    pub last_played: Option<u64>,
}

impl View for CachedLink {
    type V = LinkView;

    open spec fn view(&self) -> LinkView {
        LinkView {
            lastfm_title: self.lastfm_title@,
            lastfm_artist: self.lastfm_artist@,
            skipped: self.skipped,
            last_played: self.last_played,
        }
    }
}

impl CachedLink {
    /// A copy with the same fields.
    pub fn duplicate(&self) -> (r: CachedLink)
        ensures
            r@ == self@,
    {
        CachedLink {
            lastfm_title: self.lastfm_title.clone(),
            lastfm_artist: self.lastfm_artist.clone(),
            skipped: self.skipped,
            last_played: self.last_played,
        }
    }
}

/// The key of a file: its name, `::`, and its duration in seconds.
pub open spec fn cache_key_spec(filename: Seq<char>, duration_secs: u64) -> Seq<char> {
    filename + seq![':', ':'] + decimal(duration_secs as nat)
}

/// `format!("{}::{}", filename, duration_secs)`.
pub fn cache_key(filename: &str, duration_secs: u64) -> (r: String)
    ensures
        r@ == cache_key_spec(filename@, duration_secs),
{
    let mut r = filename.to_owned();
    r.append("::");
    push_decimal(&mut r, duration_secs);
    proof {
        reveal_strlit("::");
        assert(r@ =~= cache_key_spec(filename@, duration_secs));
    }
    r
}

/// Two files share a key only when they have the same name and the same
/// duration: the duration's digits hold no `:`, so the key splits one way.
pub proof fn lemma_cache_key_injective(f1: Seq<char>, d1: u64, f2: Seq<char>, d2: u64)
    requires
        cache_key_spec(f1, d1) == cache_key_spec(f2, d2),
    ensures
        f1 == f2,
        d1 == d2,
{
    let k = cache_key_spec(f1, d1);
    let s1 = decimal(d1 as nat);
    let s2 = decimal(d2 as nat);
    lemma_decimal_digits(d1 as nat);
    lemma_decimal_digits(d2 as nat);
    let n = k.len() as int;
    if s1.len() < s2.len() {
        let p = n - s1.len() - 1;
        assert(k[p] == ':');
        let q = p - (n - s2.len());
        assert(k[p] == s2[q]);
        assert(is_digit(s2[q]));
    } else if s2.len() < s1.len() {
        let p = n - s2.len() - 1;
        assert(k == cache_key_spec(f2, d2));
        assert(k[p] == ':');
        let q = p - (n - s1.len());
        assert(k[p] == s1[q]);
        assert(is_digit(s1[q]));
    }
    assert(s1 =~= k.skip(n - s1.len()));
    assert(s2 =~= k.skip(n - s2.len()));
    assert(f1 =~= k.take(n - s1.len() - 2));
    assert(f2 =~= k.take(n - s2.len() - 2));
}

/// The links by key, each key once (the `HashMap<String, CachedLink>` of
/// the links file).
pub struct LinkCache {
    entries: Vec<(String, CachedLink)>,
}

impl LinkCache {
    pub closed spec fn key_at(&self, i: int) -> Seq<char> {
        self.entries@[i].0@
    }

    pub closed spec fn link_at(&self, i: int) -> LinkView {
        self.entries@[i].1@
    }

    pub closed spec fn len_spec(&self) -> nat {
        self.entries@.len()
    }

    /// No key occurs twice. Every `LinkCache` keeps this.
    #[verifier::type_invariant]
    pub closed spec fn wf(&self) -> bool {
        forall|i: int, j: int|
            0 <= i < j < self.entries@.len() ==> #[trigger] self.key_at(i) != #[trigger] self.key_at(
                j,
            )
    }

    pub closed spec fn has(&self, k: Seq<char>) -> bool {
        exists|i: int| 0 <= i < self.entries@.len() && #[trigger] self.key_at(i) == k
    }

    pub open spec fn view(&self) -> Map<Seq<char>, LinkView> {
        Map::new(
            |k: Seq<char>| self.has(k),
            |k: Seq<char>|
                self.link_at(choose|i: int| 0 <= i < self.len_spec() && #[trigger] self.key_at(i) == k),
        )
    }

    proof fn lemma_at(&self, i: int)
        requires
            self.wf(),
            0 <= i < self.len_spec(),
        ensures
            self@.contains_key(self.key_at(i)),
            self@[self.key_at(i)] == self.link_at(i),
    {
        let k = self.key_at(i);
        assert(self.has(k));
        let j = choose|j: int| 0 <= j < self.len_spec() && #[trigger] self.key_at(j) == k;
        if j < i {
            assert(self.key_at(j) != self.key_at(i));
        } else if i < j {
            assert(self.key_at(i) != self.key_at(j));
        }
    }

    pub fn new() -> (r: LinkCache)
        ensures
            r@ == Map::<Seq<char>, LinkView>::empty(),
    {
        let r = LinkCache { entries: Vec::new() };
        assert(r@ =~= Map::<Seq<char>, LinkView>::empty());
        r
    }

    /// The stored pairs, for writing the links file.
    pub fn entries(&self) -> (r: &Vec<(String, CachedLink)>)
        ensures
            r@.len() == self.len_spec(),
            forall|i: int|
                0 <= i < r@.len() ==> self@.contains_key(#[trigger] r@[i].0@) && self@[r@[i].0@]
                    == r@[i].1@,
            forall|k: Seq<char>|
                #[trigger] self@.contains_key(k) ==> exists|i: int| 0 <= i < r@.len() && r@[i].0@ == k,
    {
        proof {
            use_type_invariant(self);
            assert forall|i: int| 0 <= i < self.entries@.len() implies self@.contains_key(
                #[trigger] self.entries@[i].0@,
            ) && self@[self.entries@[i].0@] == self.entries@[i].1@ by {
                self.lemma_at(i);
            }
            assert forall|k: Seq<char>| #[trigger] self@.contains_key(k) implies exists|i: int|
                0 <= i < self.entries@.len() && self.entries@[i].0@ == k by {
                let i = choose|i: int| 0 <= i < self.entries@.len() && #[trigger] self.key_at(i) == k;
                assert(self.entries@[i].0@ == k);
            }
        }
        &self.entries
    }

    /// `HashMap::get`: the link stored under `key`.
    pub fn get(&self, key: &String) -> (r: Option<&CachedLink>)
        ensures
            match r {
                Some(l) => self@.contains_key(key@) && l@ == self@[key@],
                None => !self@.contains_key(key@),
            },
    {
        proof {
            use_type_invariant(self);
        }
        let n = self.entries.len();
        let mut i: usize = 0;
        while i < n
            invariant
                self.wf(),
                n == self.entries@.len(),
                i <= n,
                forall|j: int| 0 <= j < i ==> #[trigger] self.key_at(j) != key@,
            decreases n - i,
        {
            if self.entries[i].0 == *key {
                proof {
                    self.lemma_at(i as int);
                }
                return Some(&self.entries[i].1);
            }
            i += 1;
        }
        proof {
            if self.has(key@) {
                let j = choose|j: int| 0 <= j < self.entries@.len() && #[trigger] self.key_at(j) == key@;
                assert(self.key_at(j) != key@);
            }
        }
        None
    }

    /// The position of `key`, if it is stored.
    fn position(&self, key: &String) -> (r: Option<usize>)
        ensures
            match r {
                Some(i) => i < self.len_spec() && self.key_at(i as int) == key@,
                None => forall|j: int| 0 <= j < self.len_spec() ==> #[trigger] self.key_at(j) != key@,
            },
    {
        let n = self.entries.len();
        let mut i: usize = 0;
        while i < n
            invariant
                n == self.entries@.len(),
                i <= n,
                forall|j: int| 0 <= j < i ==> #[trigger] self.key_at(j) != key@,
            decreases n - i,
        {
            if self.entries[i].0 == *key {
                return Some(i);
            }
            i += 1;
        }
        None
    }

    /// Replacing the pair at a stored key's position keeps the keys unique
    /// and sets that key in the map.
    proof fn lemma_set(old_c: LinkCache, new_c: LinkCache, i: int, k: Seq<char>, l: LinkView)
        requires
            old_c.wf(),
            0 <= i < old_c.len_spec(),
            old_c.key_at(i) == k,
            new_c.len_spec() == old_c.len_spec(),
            new_c.key_at(i) == k,
            new_c.link_at(i) == l,
            forall|j: int| 0 <= j < old_c.len_spec() && j != i ==> #[trigger] new_c.entries@[j] == old_c.entries@[j],
        ensures
            new_c.wf(),
            new_c@ == old_c@.insert(k, l),
    {
        assert forall|a: int, b: int| 0 <= a < b < new_c.entries@.len() implies #[trigger] new_c.key_at(
            a,
        ) != #[trigger] new_c.key_at(b) by {
            assert(new_c.key_at(a) == old_c.key_at(a));
            assert(new_c.key_at(b) == old_c.key_at(b));
        }
        assert(old_c.has(k));
        assert(new_c.has(k));
        assert forall|kk: Seq<char>| #[trigger] new_c@.contains_key(kk) == old_c@.insert(
            k,
            l,
        ).contains_key(kk) by {
            if new_c.has(kk) {
                let j = choose|j: int| 0 <= j < new_c.len_spec() && #[trigger] new_c.key_at(j) == kk;
                assert(old_c.key_at(j) == kk);
            }
            if old_c.has(kk) {
                let j = choose|j: int| 0 <= j < old_c.len_spec() && #[trigger] old_c.key_at(j) == kk;
                assert(new_c.key_at(j) == kk);
            }
        }
        assert forall|kk: Seq<char>| #[trigger] new_c@.contains_key(kk) implies new_c@[kk]
            == old_c@.insert(k, l)[kk] by {
            let j = choose|j: int| 0 <= j < new_c.len_spec() && #[trigger] new_c.key_at(j) == kk;
            new_c.lemma_at(j);
            if kk != k {
                assert(j != i);
                assert(old_c.key_at(j) == kk);
                old_c.lemma_at(j);
            } else {
                new_c.lemma_at(i);
            }
        }
        assert(new_c@ =~= old_c@.insert(k, l));
    }

    /// Appending a pair with a new key keeps the keys unique and adds the
    /// key to the map.
    proof fn lemma_push(old_c: LinkCache, new_c: LinkCache, k: Seq<char>, l: LinkView)
        requires
            old_c.wf(),
            forall|j: int| 0 <= j < old_c.len_spec() ==> #[trigger] old_c.key_at(j) != k,
            new_c.len_spec() == old_c.len_spec() + 1,
            new_c.key_at(old_c.len_spec() as int) == k,
            new_c.link_at(old_c.len_spec() as int) == l,
            forall|j: int| 0 <= j < old_c.len_spec() ==> #[trigger] new_c.entries@[j] == old_c.entries@[j],
        ensures
            new_c.wf(),
            new_c@ == old_c@.insert(k, l),
    {
        let n = old_c.len_spec() as int;
        assert forall|a: int, b: int| 0 <= a < b < new_c.entries@.len() implies #[trigger] new_c.key_at(
            a,
        ) != #[trigger] new_c.key_at(b) by {
            assert(new_c.key_at(a) == old_c.key_at(a));
            if b < n {
                assert(new_c.key_at(b) == old_c.key_at(b));
            }
        }
        assert forall|kk: Seq<char>| #[trigger] new_c@.contains_key(kk) == old_c@.insert(
            k,
            l,
        ).contains_key(kk) by {
            if new_c.has(kk) {
                let j = choose|j: int| 0 <= j < new_c.len_spec() && #[trigger] new_c.key_at(j) == kk;
                if j < n {
                    assert(old_c.key_at(j) == kk);
                }
            }
            if old_c.has(kk) {
                let j = choose|j: int| 0 <= j < old_c.len_spec() && #[trigger] old_c.key_at(j) == kk;
                assert(new_c.key_at(j) == kk);
            }
            if kk == k {
                assert(new_c.key_at(n) == kk);
            }
        }
        assert forall|kk: Seq<char>| #[trigger] new_c@.contains_key(kk) implies new_c@[kk]
            == old_c@.insert(k, l)[kk] by {
            let j = choose|j: int| 0 <= j < new_c.len_spec() && #[trigger] new_c.key_at(j) == kk;
            new_c.lemma_at(j);
            if kk != k {
                assert(j != n);
                assert(old_c.key_at(j) == kk);
                old_c.lemma_at(j);
            } else {
                new_c.lemma_at(n);
            }
        }
        assert(new_c@ =~= old_c@.insert(k, l));
    }

    /// `HashMap::insert`: `key` now holds `link`.
    pub fn insert(&mut self, key: String, link: CachedLink)
        ensures
            final(self)@ == old(self)@.insert(key@, link@),
    {
        proof {
            use_type_invariant(&*self);
        }
        let ghost k = key@;
        let ghost l = link@;
        let ghost old_c = *self;
        let pos = self.position(&key);
        let mut entries: Vec<(String, CachedLink)> = Vec::new();
        std::mem::swap(&mut entries, &mut self.entries);
        assert(entries@ == old_c.entries@);
        match pos {
            Some(i) => {
                entries.set(i, (key, link));
                proof {
                    let new_c = LinkCache { entries: entries };
                    LinkCache::lemma_set(old_c, new_c, i as int, k, l);
                }
            },
            None => {
                entries.push((key, link));
                proof {
                    let new_c = LinkCache { entries: entries };
                    LinkCache::lemma_push(old_c, new_c, k, l);
                }
            },
        }
        self.entries = entries;
    }
}

/// `insert` of the links file: the links with `key` set to `link`.
pub fn insert(cache: &mut LinkCache, key: String, link: CachedLink)
    ensures
        final(cache)@ == old(cache)@.insert(key@, link@),
{
    cache.insert(key, link);
}

/// Law: a link read right after it was stored is the stored link, and the
/// other keys keep theirs.
pub proof fn law_get_after_insert(
    before: Map<Seq<char>, LinkView>,
    after: Map<Seq<char>, LinkView>,
    key: Seq<char>,
    link: LinkView,
    other: Seq<char>,
)
    requires
        after == before.insert(key, link),
        other != key,
    ensures
        after.contains_key(key),
        after[key] == link,
        after.contains_key(other) == before.contains_key(other),
        before.contains_key(other) ==> after[other] == before[other],
{
}

} // verus!
