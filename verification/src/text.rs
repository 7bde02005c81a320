//! Character-level text handling shared by the settings files, the link
//! cache and the Last.fm helpers: whitespace trimming, line splitting,
//! decimal numbers and lexicographic order of strings.
use vstd::prelude::*;

verus! {

broadcast use vstd::string::group_string_axioms;

// ---------------------------------------------------------------------
// Specifications
// ---------------------------------------------------------------------

/// Unicode `White_Space`, the property that `char::is_whitespace` and
/// `str::trim` go by.
pub open spec fn is_ws(c: char) -> bool {
    let u = c as int;
    ||| 0x09 <= u <= 0x0D
    ||| u == 0x20
    ||| u == 0x85
    ||| u == 0xA0
    ||| u == 0x1680
    ||| 0x2000 <= u <= 0x200A
    ||| u == 0x2028
    ||| u == 0x2029
    ||| u == 0x202F
    ||| u == 0x205F
    ||| u == 0x3000
}

/// The characters that a trim removes: whitespace, or the double quote.
pub open spec fn strippable(c: char, quotes: bool) -> bool {
    if quotes {
        c == '"'
    } else {
        is_ws(c)
    }
}

/// `s` without its leading strippable characters.
pub open spec fn strip_start(s: Seq<char>, quotes: bool) -> Seq<char>
    decreases s.len(),
{
    if s.len() > 0 && strippable(s[0], quotes) {
        strip_start(s.drop_first(), quotes)
    } else {
        s
    }
}

/// `s` without its trailing strippable characters.
pub open spec fn strip_end(s: Seq<char>, quotes: bool) -> Seq<char>
    decreases s.len(),
{
    if s.len() > 0 && strippable(s.last(), quotes) {
        strip_end(s.drop_last(), quotes)
    } else {
        s
    }
}

/// `str::trim`: whitespace removed from both ends.
pub open spec fn trim(s: Seq<char>) -> Seq<char> {
    strip_end(strip_start(s, false), false)
}

/// `str::trim_matches('"')`: double quotes removed from both ends.
pub open spec fn trim_quotes(s: Seq<char>) -> Seq<char> {
    strip_end(strip_start(s, true), true)
}

/// `i` is the position of the first `c` in `s`.
pub open spec fn is_first(s: Seq<char>, c: char, i: int) -> bool {
    &&& 0 <= i < s.len()
    &&& s[i] == c
    &&& forall|j: int| 0 <= j < i ==> s[j] != c
}

/// The position of the first `c` in `s`, or -1 when `s` holds none.
pub open spec fn first_index(s: Seq<char>, c: char) -> int {
    if exists|i: int| is_first(s, c, i) {
        choose|i: int| is_first(s, c, i)
    } else {
        -1
    }
}

/// `s` cut at every `'\n'`; the pieces hold no `'\n'`.
pub open spec fn split_lines(s: Seq<char>) -> Seq<Seq<char>>
    decreases s.len(),
{
    let i = first_index(s, '\n');
    if i < 0 {
        seq![s]
    } else {
        proof {
            lemma_first_index(s, '\n');
        }
        seq![s.take(i)] + split_lines(s.skip(i + 1))
    }
}

/// The character of a decimal digit.
pub open spec fn digit_char(d: int) -> char {
    if d == 0 {
        '0'
    } else if d == 1 {
        '1'
    } else if d == 2 {
        '2'
    } else if d == 3 {
        '3'
    } else if d == 4 {
        '4'
    } else if d == 5 {
        '5'
    } else if d == 6 {
        '6'
    } else if d == 7 {
        '7'
    } else if d == 8 {
        '8'
    } else {
        '9'
    }
}

/// `n` written in decimal, with no leading zero (what `to_string` gives).
pub open spec fn decimal(n: nat) -> Seq<char>
    decreases n,
{
    if n < 10 {
        seq![digit_char(n as int)]
    } else {
        decimal(n / 10).push(digit_char((n % 10) as int))
    }
}

pub open spec fn is_digit(c: char) -> bool {
    '0' <= c && c <= '9'
}

pub open spec fn digit_value(c: char) -> nat {
    ((c as int) - ('0' as int)) as nat
}

/// The number that a string of decimal digits denotes.
pub open spec fn digits_value(s: Seq<char>) -> nat
    decreases s.len(),
{
    if s.len() == 0 {
        0
    } else {
        digits_value(s.drop_last()) * 10 + digit_value(s.last())
    }
}

pub open spec fn all_digits(s: Seq<char>) -> bool {
    s.len() > 0 && forall|i: int| 0 <= i < s.len() ==> is_digit(#[trigger] s[i])
}

/// What `str::parse::<u64>` gives: an optional `'+'`, then one or more
/// ASCII digits whose value fits in a `u64`.
pub open spec fn parse_u64_spec(s: Seq<char>) -> Option<u64> {
    let d = if s.len() > 0 && s[0] == '+' {
        s.drop_first()
    } else {
        s
    };
    if all_digits(d) && digits_value(d) <= u64::MAX {
        Some(digits_value(d) as u64)
    } else {
        None
    }
}

/// Lexicographic order of strings by code point: the order of `String`s
/// (and so of the keys of a `BTreeMap<String, _>`).
pub open spec fn str_lt(a: Seq<char>, b: Seq<char>) -> bool
    decreases a.len(),
{
    if a.len() == 0 {
        b.len() > 0
    } else if b.len() == 0 {
        false
    } else if a[0] != b[0] {
        (a[0] as int) < (b[0] as int)
    } else {
        str_lt(a.drop_first(), b.drop_first())
    }
}

// ---------------------------------------------------------------------
// Lemmas
// ---------------------------------------------------------------------

pub proof fn lemma_first_index(s: Seq<char>, c: char)
    ensures
        first_index(s, c) < 0 ==> !s.contains(c),
        first_index(s, c) < 0 ==> first_index(s, c) == -1,
        first_index(s, c) >= 0 ==> is_first(s, c, first_index(s, c)),
{
    if s.contains(c) {
        let k = choose|k: int| 0 <= k < s.len() && s[k] == c;
        lemma_has_first(s, c, k);
    }
}

proof fn lemma_has_first(s: Seq<char>, c: char, k: int)
    requires
        0 <= k < s.len(),
        s[k] == c,
    ensures
        exists|i: int| is_first(s, c, i),
    decreases k,
{
    if exists|j: int| 0 <= j < k && s[j] == c {
        let j = choose|j: int| 0 <= j < k && s[j] == c;
        lemma_has_first(s, c, j);
    } else {
        assert(is_first(s, c, k));
    }
}

/// The first position is unique, so a found one is `first_index`.
pub proof fn lemma_first_index_is(s: Seq<char>, c: char, i: int)
    requires
        is_first(s, c, i),
    ensures
        first_index(s, c) == i,
{
    let j = first_index(s, c);
    assert(is_first(s, c, j));
    if j < i {
        assert(s[j] != c);
    } else if i < j {
        assert(s[i] != c);
    }
}

pub proof fn lemma_no_first(s: Seq<char>, c: char)
    requires
        !s.contains(c),
    ensures
        first_index(s, c) == -1,
{
    if exists|i: int| is_first(s, c, i) {
        let i = choose|i: int| is_first(s, c, i);
        assert(s.contains(c));
    }
}

/// A line followed by `'\n'` splits off as the first piece.
pub proof fn lemma_split_lines_cons(l: Seq<char>, rest: Seq<char>)
    requires
        !l.contains('\n'),
    ensures
        split_lines(l + seq!['\n'] + rest) == seq![l] + split_lines(rest),
{
    let s = l + seq!['\n'] + rest;
    let i = l.len() as int;
    assert forall|j: int| 0 <= j < i implies s[j] != '\n' by {
        assert(s[j] == l[j]);
    }
    assert(is_first(s, '\n', i));
    lemma_first_index_is(s, '\n', i);
    assert(s.take(i) =~= l);
    assert(s.skip(i + 1) =~= rest);
}

/// A text without `'\n'` is one piece.
pub proof fn lemma_split_lines_single(l: Seq<char>)
    requires
        !l.contains('\n'),
    ensures
        split_lines(l) == seq![l],
{
    lemma_no_first(l, '\n');
}

pub proof fn lemma_strip_start_idem(s: Seq<char>, quotes: bool)
    requires
        s.len() == 0 || !strippable(s[0], quotes),
    ensures
        strip_start(s, quotes) == s,
{
}

pub proof fn lemma_strip_end_idem(s: Seq<char>, quotes: bool)
    requires
        s.len() == 0 || !strippable(s.last(), quotes),
    ensures
        strip_end(s, quotes) == s,
{
}

/// A string that starts and ends with a character that is not whitespace
/// is its own trim.
pub proof fn lemma_trim_idem(s: Seq<char>)
    requires
        s.len() == 0 || (!is_ws(s[0]) && !is_ws(s.last())),
    ensures
        trim(s) == s,
{
    lemma_strip_start_idem(s, false);
    lemma_strip_end_idem(s, false);
}

/// What is left after the leading strippable characters go: a suffix of
/// `s` that does not start with one.
pub proof fn lemma_strip_start_result(s: Seq<char>, quotes: bool)
    ensures
        strip_start(s, quotes).len() == 0 || !strippable(strip_start(s, quotes)[0], quotes),
        strip_start(s, quotes).len() <= s.len(),
        strip_start(s, quotes) =~= s.skip(s.len() - strip_start(s, quotes).len()),
    decreases s.len(),
{
    if s.len() > 0 && strippable(s[0], quotes) {
        lemma_strip_start_result(s.drop_first(), quotes);
    }
}

/// What is left after the trailing strippable characters go: a prefix of
/// `s` that does not end with one.
pub proof fn lemma_strip_end_result(s: Seq<char>, quotes: bool)
    ensures
        strip_end(s, quotes).len() == 0 || !strippable(strip_end(s, quotes).last(), quotes),
        strip_end(s, quotes).len() <= s.len(),
        strip_end(s, quotes) =~= s.take(strip_end(s, quotes).len() as int),
    decreases s.len(),
{
    if s.len() > 0 && strippable(s.last(), quotes) {
        lemma_strip_end_result(s.drop_last(), quotes);
    }
}

/// What a trim keeps starts and ends with a kept character.
pub proof fn lemma_trim_result(s: Seq<char>) -> (a: int)
    ensures
        trim(s).len() == 0 || (!is_ws(trim(s)[0]) && !is_ws(trim(s).last())),
        trim(s).len() <= s.len(),
        0 <= a <= s.len() - trim(s).len(),
        trim(s) =~= s.subrange(a, a + trim(s).len()),
{
    let t = strip_start(s, false);
    lemma_strip_start_result(s, false);
    lemma_strip_end_result(t, false);
    let r = strip_end(t, false);
    if r.len() > 0 {
        assert(r[0] == t[0]);
    }
    let a = s.len() - t.len();
    assert(r =~= s.subrange(a, a + r.len()));
    a
}

/// Trimming twice is trimming once.
pub proof fn lemma_trim_idempotent(s: Seq<char>)
    ensures
        trim(trim(s)) == trim(s),
{
    lemma_trim_result(s);
    lemma_trim_idem(trim(s));
}

proof fn lemma_digit_char(d: int)
    requires
        0 <= d < 10,
    ensures
        is_digit(digit_char(d)),
        digit_value(digit_char(d)) == d,
        digit_char(d) != '+',
        digit_char(d) != '\n',
{
}

pub proof fn lemma_decimal_digits(n: nat)
    ensures
        all_digits(decimal(n)),
        digits_value(decimal(n)) == n,
        decimal(n).len() > 0,
        decimal(n)[0] != '+',
        !decimal(n).contains('\n'),
    decreases n,
{
    lemma_digit_char((n % 10) as int);
    if n < 10 {
        assert(decimal(n).drop_last() =~= Seq::<char>::empty());
        assert(digits_value(decimal(n)) == digits_value(Seq::<char>::empty()) * 10 + digit_value(digit_char(n as int)));
    }
    if n >= 10 {
        lemma_decimal_digits(n / 10);
        let d = decimal(n);
        assert((n / 10) * 10 + n % 10 == n) by (nonlinear_arith);
        assert(d.drop_last() =~= decimal(n / 10));
        assert(digits_value(d) == digits_value(decimal(n / 10)) * 10 + digit_value(digit_char((n % 10) as int)));
        assert forall|i: int| 0 <= i < d.len() implies is_digit(#[trigger] d[i]) by {
            if i < d.len() - 1 {
                assert(d[i] == decimal(n / 10)[i]);
            }
        }
        assert(d[0] == decimal(n / 10)[0]);
        if d.contains('\n') {
            let k = choose|k: int| 0 <= k < d.len() && d[k] == '\n';
            if k < d.len() - 1 {
                assert(decimal(n / 10)[k] == '\n');
            }
        }
    }
}

/// Reading back a number written in decimal gives the number.
pub proof fn lemma_parse_decimal(n: u64)
    ensures
        parse_u64_spec(decimal(n as nat)) == Some(n),
{
    lemma_decimal_digits(n as nat);
}

pub proof fn lemma_str_lt_irrefl(a: Seq<char>)
    ensures
        !str_lt(a, a),
    decreases a.len(),
{
    if a.len() > 0 {
        lemma_str_lt_irrefl(a.drop_first());
    }
}

pub proof fn lemma_str_lt_trans(a: Seq<char>, b: Seq<char>, c: Seq<char>)
    requires
        str_lt(a, b),
        str_lt(b, c),
    ensures
        str_lt(a, c),
    decreases a.len(),
{
    if a.len() > 0 && b.len() > 0 && c.len() > 0 && a[0] == b[0] && b[0] == c[0] {
        lemma_str_lt_trans(a.drop_first(), b.drop_first(), c.drop_first());
    }
}

pub proof fn lemma_str_lt_total(a: Seq<char>, b: Seq<char>)
    ensures
        a == b || str_lt(a, b) || str_lt(b, a),
    decreases a.len(),
{
    if a.len() > 0 && b.len() > 0 && a[0] != b[0] {
        assert((a[0] as int) != (b[0] as int));
    }
    if a.len() > 0 && b.len() > 0 && a[0] == b[0] {
        lemma_str_lt_total(a.drop_first(), b.drop_first());
        if a.drop_first() == b.drop_first() {
            assert(a =~= seq![a[0]] + a.drop_first());
            assert(b =~= seq![b[0]] + b.drop_first());
        }
    } else if a.len() == 0 && b.len() == 0 {
        assert(a =~= b);
    }
}

pub proof fn lemma_str_lt_asym(a: Seq<char>, b: Seq<char>)
    requires
        str_lt(a, b),
    ensures
        !str_lt(b, a),
        a != b,
{
    if str_lt(b, a) {
        lemma_str_lt_trans(a, b, a);
        lemma_str_lt_irrefl(a);
    }
    if a == b {
        lemma_str_lt_irrefl(a);
    }
}

// ---------------------------------------------------------------------
// Executable functions
// ---------------------------------------------------------------------

/// Appends one character to a string.
#[verifier::external_body]
pub(crate) fn push_char(s: &mut String, c: char)
    ensures
        final(s)@ == old(s)@.push(c),
{
    s.push(c);
}

/// The result of `str::to_lowercase` (Unicode lower-case mapping).
pub uninterp spec fn lowercase(s: Seq<char>) -> Seq<char>;

/// `str::to_lowercase`; its result is named `lowercase`, a function of
/// the characters alone.
#[verifier::external_body]
pub(crate) fn to_lowercase(s: &str) -> (r: String)
    ensures
        r@ == lowercase(s@),
{
    s.to_lowercase()
}

/// The characters of a string slice, in order.
pub fn chars_of(s: &str) -> (v: Vec<char>)
    ensures
        v@ == s@,
{
    let mut v: Vec<char> = Vec::new();
    for c in it: s.chars()
        invariant
            v@ == it.seq().take(it.index() as int),
    {
        v.push(c);
    }
    v
}

/// A new string from the characters `lo..hi` of `v`.
pub fn string_of(v: &Vec<char>, lo: usize, hi: usize) -> (r: String)
    requires
        lo <= hi <= v.len(),
    ensures
        r@ == v@.subrange(lo as int, hi as int),
{
    let mut r = String::new();
    let mut i = lo;
    while i < hi
        invariant
            lo <= i <= hi <= v.len(),
            r@ == v@.subrange(lo as int, i as int),
        decreases hi - i,
    {
        push_char(&mut r, v[i]);
        assert(v@.subrange(lo as int, i + 1) =~= v@.subrange(lo as int, i as int).push(v@[i as int]));
        i += 1;
    }
    r
}

/// `a == b` for string slices.
pub fn str_eq(a: &str, b: &str) -> (r: bool)
    ensures
        r == (a@ == b@),
{
    a.to_owned() == b.to_owned()
}

/// `s` followed by `t`.
pub fn concat(s: &str, t: &str) -> (r: String)
    ensures
        r@ == s@ + t@,
{
    let mut r = s.to_owned();
    r.append(t);
    r
}

pub fn is_ws_char(c: char) -> (b: bool)
    ensures
        b == is_ws(c),
{
    let u = c as u32;
    (0x09 <= u && u <= 0x0D) || u == 0x20 || u == 0x85 || u == 0xA0 || u == 0x1680 || (0x2000
        <= u && u <= 0x200A) || u == 0x2028 || u == 0x2029 || u == 0x202F || u == 0x205F || u
        == 0x3000
}

fn strippable_char(c: char, quotes: bool) -> (b: bool)
    ensures
        b == strippable(c, quotes),
{
    if quotes {
        c == '"'
    } else {
        is_ws_char(c)
    }
}

/// The bounds of `v[lo..hi]` once the strippable characters at both ends
/// are gone.
pub fn strip_range(v: &Vec<char>, lo: usize, hi: usize, quotes: bool) -> (r: (usize, usize))
    requires
        lo <= hi <= v.len(),
    ensures
        lo <= r.0 <= r.1 <= hi,
        v@.subrange(r.0 as int, r.1 as int) == strip_end(
            strip_start(v@.subrange(lo as int, hi as int), quotes),
            quotes,
        ),
{
    let mut a = lo;
    while a < hi && strippable_char(v[a], quotes)
        invariant
            lo <= a <= hi <= v.len(),
            strip_start(v@.subrange(lo as int, hi as int), quotes) == strip_start(
                v@.subrange(a as int, hi as int),
                quotes,
            ),
        decreases hi - a,
    {
        assert(v@.subrange(a as int, hi as int).drop_first() =~= v@.subrange(a + 1, hi as int));
        a += 1;
    }
    let mut b = hi;
    while b > a && strippable_char(v[b - 1], quotes)
        invariant
            lo <= a <= b <= hi <= v.len(),
            strip_end(v@.subrange(a as int, hi as int), quotes) == strip_end(
                v@.subrange(a as int, b as int),
                quotes,
            ),
        decreases b - a,
    {
        assert(v@.subrange(a as int, b as int).drop_last() =~= v@.subrange(a as int, b - 1));
        b -= 1;
    }
    (a, b)
}

/// The position of the first `c` in `v[lo..hi]`, counted from `lo`.
pub fn find_char(v: &Vec<char>, lo: usize, hi: usize, c: char) -> (r: Option<usize>)
    requires
        lo <= hi <= v.len(),
    ensures
        match r {
            Some(i) => lo <= i < hi && first_index(v@.subrange(lo as int, hi as int), c) == i
                - lo,
            None => first_index(v@.subrange(lo as int, hi as int), c) == -1,
        },
{
    let ghost s = v@.subrange(lo as int, hi as int);
    let mut i = lo;
    while i < hi
        invariant
            lo <= i <= hi <= v.len(),
            s == v@.subrange(lo as int, hi as int),
            forall|j: int| 0 <= j < i - lo ==> s[j] != c,
        decreases hi - i,
    {
        if v[i] == c {
            proof {
                assert(is_first(s, c, i - lo));
                lemma_first_index_is(s, c, i - lo);
            }
            return Some(i);
        }
        i += 1;
    }
    proof {
        if s.contains(c) {
            let k = choose|k: int| 0 <= k < s.len() && s[k] == c;
            assert(s[k] != c);
        }
        lemma_no_first(s, c);
    }
    None
}

fn digit_of(d: u64) -> (c: char)
    requires
        d < 10,
    ensures
        c == digit_char(d as int),
{
    if d == 0 {
        '0'
    } else if d == 1 {
        '1'
    } else if d == 2 {
        '2'
    } else if d == 3 {
        '3'
    } else if d == 4 {
        '4'
    } else if d == 5 {
        '5'
    } else if d == 6 {
        '6'
    } else if d == 7 {
        '7'
    } else if d == 8 {
        '8'
    } else {
        '9'
    }
}

/// Appends `n` in decimal to `s`.
pub fn push_decimal(s: &mut String, n: u64)
    ensures
        final(s)@ == old(s)@ + decimal(n as nat),
    decreases n,
{
    if n >= 10 {
        push_decimal(s, n / 10);
    }
    push_char(s, digit_of(n % 10));
    proof {
        if n >= 10 {
            assert(decimal(n as nat) == decimal((n / 10) as nat).push(digit_char((n % 10) as int)));
        }
        assert(final(s)@ =~= old(s)@ + decimal(n as nat));
    }
}

/// `n.to_string()`.
pub fn u64_to_string(n: u64) -> (r: String)
    ensures
        r@ == decimal(n as nat),
{
    let mut s = String::new();
    push_decimal(&mut s, n);
    assert(s@ =~= decimal(n as nat));
    s
}

proof fn lemma_digits_value_prefix(s: Seq<char>, i: int)
    requires
        0 <= i <= s.len(),
    ensures
        digits_value(s.take(i)) <= digits_value(s),
    decreases s.len() - i,
{
    if i < s.len() {
        lemma_digits_value_prefix(s, i + 1);
        assert(s.take(i + 1).drop_last() =~= s.take(i));
    } else {
        assert(s.take(i) =~= s);
    }
}

/// `s.parse::<u64>().ok()`.
pub fn parse_u64(s: &str) -> (r: Option<u64>)
    ensures
        r == parse_u64_spec(s@),
{
    let v = chars_of(s);
    let n = v.len();
    let mut i: usize = 0;
    if n > 0 && v[0] == '+' {
        i = 1;
    }
    let start = i;
    let ghost d = v@.skip(start as int);
    assert(d =~= if v@.len() > 0 && v@[0] == '+' {
        v@.drop_first()
    } else {
        v@
    });
    if i == n {
        return None;
    }
    let mut acc: u64 = 0;
    while i < n
        invariant
            start <= i <= n == v.len(),
            start < n,
            v@ == s@,
            d == v@.skip(start as int),
            d == (if s@.len() > 0 && s@[0] == '+' {
                s@.drop_first()
            } else {
                s@
            }),
            acc == digits_value(d.take(i - start)),
            forall|j: int| 0 <= j < i - start ==> is_digit(#[trigger] d[j]),
        decreases n - i,
    {
        let c = v[i];
        if !('0' <= c && c <= '9') {
            assert(!is_digit(d[i - start]));
            return None;
        }
        let dv = (c as u32 - '0' as u32) as u64;
        assert(d.take(i + 1 - start).drop_last() =~= d.take(i - start));
        if acc > (u64::MAX - dv) / 10 {
            proof {
                let a = acc as int;
                let e = dv as int;
                assert(a * 10 + e > u64::MAX) by (nonlinear_arith)
                    requires
                        a > (u64::MAX - e) / 10,
                        0 <= e <= 9,
                ;
                assert(digits_value(d.take(i + 1 - start)) > u64::MAX);
                if all_digits(d) {
                    lemma_digits_value_prefix(d, i + 1 - start);
                }
            }
            return None;
        }
        acc = acc * 10 + dv;
        i += 1;
    }
    assert(d.take(n - start) =~= d);
    Some(acc)
}

/// `str_lt(a, b)`: `a < b` for strings.
pub fn str_less(a: &str, b: &str) -> (r: bool)
    ensures
        r == str_lt(a@, b@),
{
    let x = chars_of(a);
    let y = chars_of(b);
    let mut i: usize = 0;
    assert(x@.skip(0) =~= x@);
    assert(y@.skip(0) =~= y@);
    while i < x.len() && i < y.len() && x[i] == y[i]
        invariant
            i <= x.len(),
            i <= y.len(),
            str_lt(x@, y@) == str_lt(x@.skip(i as int), y@.skip(i as int)),
        decreases x.len() - i,
    {
        assert(x@.skip(i as int).drop_first() =~= x@.skip(i + 1));
        assert(y@.skip(i as int).drop_first() =~= y@.skip(i + 1));
        i += 1;
    }
    if i == x.len() {
        i < y.len()
    } else if i == y.len() {
        false
    } else {
        x[i] < y[i]
    }
}

} // verus!
