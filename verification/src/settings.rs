//! The two settings files: `config.toml` (flat `key = "value"` pairs, the
//! theme among them) and `.env` (`KEY=value` lines, the Last.fm
//! credentials). Each is read into a map ordered by key and written back
//! from it; what is written reads back as the same map.
use vstd::prelude::*;
use crate::text::{
    chars_of, find_char, first_index, is_first, is_ws, lemma_first_index, lemma_first_index_is,
    lemma_split_lines_cons, lemma_split_lines_single, lemma_str_lt_asym, lemma_str_lt_total,
    lemma_str_lt_trans, lemma_strip_end_idem, lemma_strip_end_result, lemma_strip_start_idem,
    lemma_strip_start_result, lemma_trim_idem, lemma_trim_idempotent, lemma_trim_result,
    split_lines, str_less, str_lt, string_of, strip_end, strip_range, strip_start, strippable, trim,
    trim_quotes,
};

verus! {

broadcast use vstd::string::group_string_axioms;

/// One key and value, as character sequences.
pub type Pair = (Seq<char>, Seq<char>);

pub type Settings = Map<Seq<char>, Seq<char>>;

// ---------------------------------------------------------------------
// The map of a sequence of pairs
// ---------------------------------------------------------------------

/// `m` with each pair of `es` inserted in turn; a later pair wins.
pub open spec fn fold_ins(m: Settings, es: Seq<Pair>) -> Settings
    decreases es.len(),
{
    if es.len() == 0 {
        m
    } else {
        fold_ins(m.insert(es[0].0, es[0].1), es.drop_first())
    }
}

/// Keys strictly increase along `es` (as in a `BTreeMap`).
pub open spec fn sorted_keys(es: Seq<Pair>) -> bool {
    forall|i: int, j: int| 0 <= i < j < es.len() ==> str_lt(#[trigger] es[i].0, #[trigger] es[j].0)
}

pub proof fn lemma_fold_ins_other(m: Settings, es: Seq<Pair>, k: Seq<char>)
    requires
        forall|i: int| 0 <= i < es.len() ==> (#[trigger] es[i]).0 != k,
    ensures
        fold_ins(m, es).contains_key(k) == m.contains_key(k),
        m.contains_key(k) ==> fold_ins(m, es)[k] == m[k],
    decreases es.len(),
{
    if es.len() > 0 {
        assert(es[0].0 != k);
        assert forall|i: int| 0 <= i < es.drop_first().len() implies (
        #[trigger] es.drop_first()[i]).0 != k by {
            assert(es.drop_first()[i] == es[i + 1]);
        }
        lemma_fold_ins_other(m.insert(es[0].0, es[0].1), es.drop_first(), k);
    }
}

pub proof fn lemma_fold_ins_key(m: Settings, es: Seq<Pair>, i: int)
    requires
        sorted_keys(es),
        0 <= i < es.len(),
    ensures
        fold_ins(m, es).contains_key(es[i].0),
        fold_ins(m, es)[es[i].0] == es[i].1,
    decreases es.len(),
{
    let rest = es.drop_first();
    assert(sorted_keys(rest)) by {
        assert forall|a: int, b: int| 0 <= a < b < rest.len() implies str_lt(
            #[trigger] rest[a].0,
            #[trigger] rest[b].0,
        ) by {
            assert(rest[a] == es[a + 1]);
            assert(rest[b] == es[b + 1]);
        }
    }
    if i == 0 {
        assert forall|j: int| 0 <= j < rest.len() implies (#[trigger] rest[j]).0 != es[0].0 by {
            assert(rest[j] == es[j + 1]);
            lemma_str_lt_asym(es[0].0, es[j + 1].0);
        }
        lemma_fold_ins_other(m.insert(es[0].0, es[0].1), rest, es[0].0);
    } else {
        assert(rest[i - 1] == es[i]);
        lemma_fold_ins_key(m.insert(es[0].0, es[0].1), rest, i - 1);
    }
}

/// The map of a key-sorted sequence: each of its keys to its value.
pub proof fn lemma_fold_ins_sorted(es: Seq<Pair>, k: Seq<char>)
    requires
        sorted_keys(es),
    ensures
        fold_ins(Map::empty(), es).contains_key(k) <==> exists|i: int|
            0 <= i < es.len() && (#[trigger] es[i]).0 == k,
{
    if exists|i: int| 0 <= i < es.len() && (#[trigger] es[i]).0 == k {
        let i = choose|i: int| 0 <= i < es.len() && (#[trigger] es[i]).0 == k;
        lemma_fold_ins_key(Map::empty(), es, i);
    } else {
        lemma_fold_ins_other(Map::empty(), es, k);
    }
}

/// A pair whose key no later pair repeats can be inserted last instead.
proof fn lemma_fold_ins_commute(m: Settings, es: Seq<Pair>, k: Seq<char>, v: Seq<char>)
    requires
        forall|i: int| 0 <= i < es.len() ==> (#[trigger] es[i]).0 != k,
    ensures
        fold_ins(m.insert(k, v), es) == fold_ins(m, es).insert(k, v),
    decreases es.len(),
{
    if es.len() > 0 {
        let e = es[0];
        assert(e.0 != k);
        assert(m.insert(k, v).insert(e.0, e.1) =~= m.insert(e.0, e.1).insert(k, v));
        assert forall|i: int| 0 <= i < es.drop_first().len() implies (
        #[trigger] es.drop_first()[i]).0 != k by {
            assert(es.drop_first()[i] == es[i + 1]);
        }
        lemma_fold_ins_commute(m.insert(e.0, e.1), es.drop_first(), k, v);
    }
}

/// Two key-sorted sequences with the same map are the same sequence: a
/// map has one way to be written in key order.
pub proof fn lemma_sorted_unique(es1: Seq<Pair>, es2: Seq<Pair>)
    requires
        sorted_keys(es1),
        sorted_keys(es2),
        fold_ins(Map::empty(), es1) == fold_ins(Map::empty(), es2),
    ensures
        es1 == es2,
    decreases es1.len() + es2.len(),
{
    let m = fold_ins(Map::<Seq<char>, Seq<char>>::empty(), es1);
    if es1.len() == 0 || es2.len() == 0 {
        if es1.len() > 0 {
            lemma_fold_ins_key(Map::empty(), es1, 0);
            assert(fold_ins(Map::<Seq<char>, Seq<char>>::empty(), es2) == Map::<Seq<char>, Seq<char>>::empty());
        }
        if es2.len() > 0 {
            lemma_fold_ins_key(Map::empty(), es2, 0);
            assert(m == Map::<Seq<char>, Seq<char>>::empty());
        }
        assert(es1 =~= es2);
    } else {
        let k1 = es1[0].0;
        let k2 = es2[0].0;
        lemma_fold_ins_key(Map::empty(), es1, 0);
        lemma_fold_ins_key(Map::empty(), es2, 0);
        lemma_fold_ins_sorted(es2, k1);
        lemma_fold_ins_sorted(es1, k2);
        if k1 != k2 {
            let j = choose|j: int| 0 <= j < es2.len() && (#[trigger] es2[j]).0 == k1;
            let i = choose|i: int| 0 <= i < es1.len() && (#[trigger] es1[i]).0 == k2;
            assert(j != 0 && i != 0);
            assert(str_lt(es2[0].0, es2[j].0));
            assert(str_lt(es1[0].0, es1[i].0));
            lemma_str_lt_asym(k1, k2);
        }
        let v = es1[0].1;
        assert(es2[0].1 == v);
        let r1 = es1.drop_first();
        let r2 = es2.drop_first();
        assert(sorted_keys(r1)) by {
            assert forall|a: int, b: int| 0 <= a < b < r1.len() implies str_lt(
                #[trigger] r1[a].0,
                #[trigger] r1[b].0,
            ) by {
                assert(r1[a] == es1[a + 1]);
                assert(r1[b] == es1[b + 1]);
            }
        }
        assert(sorted_keys(r2)) by {
            assert forall|a: int, b: int| 0 <= a < b < r2.len() implies str_lt(
                #[trigger] r2[a].0,
                #[trigger] r2[b].0,
            ) by {
                assert(r2[a] == es2[a + 1]);
                assert(r2[b] == es2[b + 1]);
            }
        }
        assert forall|i: int| 0 <= i < r1.len() implies (#[trigger] r1[i]).0 != k1 by {
            assert(r1[i] == es1[i + 1]);
            lemma_str_lt_asym(es1[0].0, es1[i + 1].0);
        }
        assert forall|i: int| 0 <= i < r2.len() implies (#[trigger] r2[i]).0 != k1 by {
            assert(r2[i] == es2[i + 1]);
            lemma_str_lt_asym(es2[0].0, es2[i + 1].0);
        }
        let e = Map::<Seq<char>, Seq<char>>::empty();
        lemma_fold_ins_commute(e, r1, k1, v);
        lemma_fold_ins_commute(e, r2, k1, v);
        lemma_fold_ins_other(e, r1, k1);
        lemma_fold_ins_other(e, r2, k1);
        let m1 = fold_ins(e, r1);
        let m2 = fold_ins(e, r2);
        assert(m1.insert(k1, v) == m2.insert(k1, v));
        assert(m1 =~= m1.insert(k1, v).remove(k1));
        assert(m2 =~= m2.insert(k1, v).remove(k1));
        lemma_sorted_unique(r1, r2);
        assert(es1 =~= seq![es1[0]] + r1);
        assert(es2 =~= seq![es2[0]] + r2);
    }
}

/// Law: a map is written as one text only: `renders` pins the text down.
pub proof fn law_render_unique(t1: Seq<char>, t2: Seq<char>, m: Settings, toml: bool)
    requires
        renders(t1, m, toml),
        renders(t2, m, toml),
    ensures
        t1 == t2,
{
    let es1 = choose|es: Seq<Pair>| #[trigger]
        sorted_keys(es) && fold_ins(Map::empty(), es) == m && t1 == render_spec(es, toml);
    let es2 = choose|es: Seq<Pair>| #[trigger]
        sorted_keys(es) && fold_ins(Map::empty(), es) == m && t2 == render_spec(es, toml);
    lemma_sorted_unique(es1, es2);
}

// ---------------------------------------------------------------------
// Reading
// ---------------------------------------------------------------------

/// The state while reading lines: the map so far, and (in `config.toml`)
/// whether a `[section]` header has been passed; keys after it belong to
/// that section and are not read.
pub type ReadState = (Settings, bool);

/// One line read into the state. `toml` selects the `config.toml` rules:
/// a `[` line opens a section, and a value loses its double quotes.
pub open spec fn read_line(st: ReadState, line: Seq<char>, toml: bool) -> ReadState {
    let t = trim(line);
    if t.len() == 0 || t[0] == '#' {
        st
    } else if toml && t[0] == '[' {
        (st.0, true)
    } else if st.1 {
        st
    } else {
        let i = first_index(t, '=');
        if i < 0 {
            st
        } else {
            let key = trim(t.take(i));
            let value = if toml {
                trim_quotes(trim(t.skip(i + 1)))
            } else {
                trim(t.skip(i + 1))
            };
            (st.0.insert(key, value), st.1)
        }
    }
}

pub open spec fn read_lines(st: ReadState, ls: Seq<Seq<char>>, toml: bool) -> ReadState
    decreases ls.len(),
{
    if ls.len() == 0 {
        st
    } else {
        read_lines(read_line(st, ls[0], toml), ls.drop_first(), toml)
    }
}

/// The settings that a text holds, by the `.env` rules (`toml` false) or
/// the `config.toml` rules (`toml` true).
pub open spec fn read_spec(s: Seq<char>, toml: bool) -> Settings {
    read_lines((Map::empty(), false), split_lines(s), toml).0
}

// ---------------------------------------------------------------------
// Writing
// ---------------------------------------------------------------------

/// `KEY=value` (`.env`) or `key = "value"` (`config.toml`).
pub open spec fn entry_line(e: Pair, toml: bool) -> Seq<char> {
    if toml {
        e.0 + seq![' ', '=', ' ', '"'] + e.1 + seq!['"']
    } else {
        e.0 + seq!['='] + e.1
    }
}

/// The lines of the pairs in order, each ended by `'\n'`.
pub open spec fn render_spec(es: Seq<Pair>, toml: bool) -> Seq<char>
    decreases es.len(),
{
    if es.len() == 0 {
        Seq::empty()
    } else {
        render_spec(es.drop_last(), toml) + entry_line(es.last(), toml) + seq!['\n']
    }
}

/// The text written for a map: its pairs in key order, one per line.
pub open spec fn renders(text: Seq<char>, m: Settings, toml: bool) -> bool {
    exists|es: Seq<Pair>| #[trigger]
        sorted_keys(es) && fold_ins(Map::empty(), es) == m && text == render_spec(es, toml)
}

// ---------------------------------------------------------------------
// Which pairs read back unchanged
// ---------------------------------------------------------------------

/// A key that a line gives back: trimmed, with no `=` or line break, not
/// starting a comment (or, in `config.toml`, a section).
pub open spec fn clean_key(k: Seq<char>, toml: bool) -> bool {
    &&& !k.contains('=')
    &&& !k.contains('\n')
    &&& trim(k) == k
    &&& (k.len() == 0 || (k[0] != '#' && !(toml && k[0] == '[')))
}

/// A value that a line gives back: no line break; in `.env` trimmed, in
/// `config.toml` neither starting nor ending with a double quote.
pub open spec fn clean_value(v: Seq<char>, toml: bool) -> bool {
    &&& !v.contains('\n')
    &&& if toml {
        v.len() == 0 || (v[0] != '"' && v.last() != '"')
    } else {
        trim(v) == v
    }
}

pub open spec fn clean_map(m: Settings, toml: bool) -> bool {
    forall|k: Seq<char>| #[trigger]
        m.contains_key(k) ==> clean_key(k, toml) && clean_value(m[k], toml)
}

// ---------------------------------------------------------------------
// Lemmas on reading and writing
// ---------------------------------------------------------------------

proof fn lemma_render_front(es: Seq<Pair>, toml: bool)
    requires
        es.len() > 0,
    ensures
        render_spec(es, toml) == entry_line(es[0], toml) + seq!['\n'] + render_spec(
            es.drop_first(),
            toml,
        ),
    decreases es.len(),
{
    if es.len() == 1 {
        assert(es.drop_last() =~= Seq::<Pair>::empty());
        assert(es.drop_first() =~= Seq::<Pair>::empty());
        assert(render_spec(es.drop_last(), toml) == Seq::<char>::empty());
        assert(render_spec(es.drop_first(), toml) == Seq::<char>::empty());
        assert(es.last() == es[0]);
        assert(render_spec(es, toml) == Seq::<char>::empty() + entry_line(es[0], toml) + seq!['\n']);
        assert(render_spec(es, toml) =~= entry_line(es[0], toml) + seq!['\n']);
    } else {
        lemma_render_front(es.drop_last(), toml);
        assert(es.drop_last().drop_first() =~= es.drop_first().drop_last());
        assert(es.drop_last()[0] == es[0]);
        assert(es.drop_first().last() == es.last());
        assert(render_spec(es, toml) =~= entry_line(es[0], toml) + seq!['\n'] + render_spec(
            es.drop_first(),
            toml,
        ));
    }
}

proof fn lemma_strip_start_prefix(p: Seq<char>, s: Seq<char>, quotes: bool)
    requires
        forall|i: int| 0 <= i < p.len() ==> strippable(#[trigger] p[i], quotes),
        s.len() == 0 || !strippable(s[0], quotes),
    ensures
        strip_start(p + s, quotes) == s,
    decreases p.len(),
{
    if p.len() == 0 {
        assert(p + s =~= s);
    } else {
        assert((p + s).drop_first() =~= p.drop_first() + s);
        assert forall|i: int| 0 <= i < p.drop_first().len() implies strippable(
            #[trigger] p.drop_first()[i],
            quotes,
        ) by {
            assert(p.drop_first()[i] == p[i + 1]);
        }
        assert(strippable(p[0], quotes));
        lemma_strip_start_prefix(p.drop_first(), s, quotes);
    }
}

proof fn lemma_strip_end_suffix(s: Seq<char>, p: Seq<char>, quotes: bool)
    requires
        forall|i: int| 0 <= i < p.len() ==> strippable(#[trigger] p[i], quotes),
        s.len() == 0 || !strippable(s.last(), quotes),
    ensures
        strip_end(s + p, quotes) == s,
    decreases p.len(),
{
    if p.len() == 0 {
        assert(s + p =~= s);
    } else {
        assert((s + p).drop_last() =~= s + p.drop_last());
        assert forall|i: int| 0 <= i < p.drop_last().len() implies strippable(
            #[trigger] p.drop_last()[i],
            quotes,
        ) by {
            assert(p.drop_last()[i] == p[i]);
        }
        assert((s + p).last() == p.last());
        assert(strippable(p[p.len() - 1], quotes));
        lemma_strip_end_suffix(s, p.drop_last(), quotes);
    }
}

/// A trimmed, non-empty string starts and ends with a non-blank.
proof fn lemma_trimmed_ends(k: Seq<char>)
    requires
        trim(k) == k,
        k.len() > 0,
    ensures
        !is_ws(k[0]),
        !is_ws(k.last()),
{
    lemma_trim_result(k);
}

/// `trim(k + " ") == k` for a trimmed `k`.
proof fn lemma_trim_pad(k: Seq<char>)
    requires
        trim(k) == k,
    ensures
        trim(k + seq![' ']) == k,
{
    let p = seq![' '];
    assert(strippable(' ', false));
    if k.len() == 0 {
        assert(k + p =~= p + Seq::<char>::empty());
        lemma_strip_start_prefix(p, Seq::<char>::empty(), false);
        assert(strip_end(Seq::<char>::empty(), false) == Seq::<char>::empty());
        assert(k =~= Seq::<char>::empty());
    } else {
        lemma_trimmed_ends(k);
        assert((k + p)[0] == k[0]);
        lemma_strip_start_idem(k + p, false);
        lemma_strip_end_suffix(k, p, false);
    }
}

/// How a written line reads back: as its own pair.
proof fn lemma_read_entry_line(st: ReadState, e: Pair, toml: bool)
    requires
        clean_key(e.0, toml),
        clean_value(e.1, toml),
        !st.1,
    ensures
        read_line(st, entry_line(e, toml), toml) == (st.0.insert(e.0, e.1), st.1),
{
    let k = e.0;
    let v = e.1;
    let line = entry_line(e, toml);
    if !toml {
        // line = k + "=" + v
        let t = trim(line);
        if k.len() > 0 {
            lemma_trimmed_ends(k);
        }
        if v.len() > 0 {
            lemma_trimmed_ends(v);
        }
        assert(line.len() == k.len() + 1 + v.len());
        if k.len() > 0 {
            assert(line[0] == k[0]);
        } else {
            assert(line[0] == '=');
        }
        if v.len() > 0 {
            assert(line.last() == v.last());
        } else {
            assert(line.last() == '=');
        }
        lemma_trim_idem(line);
        assert(t == line);
        let i = k.len() as int;
        assert forall|j: int| 0 <= j < i implies t[j] != '=' by {
            assert(t[j] == k[j]);
        }
        assert(t[i] == '=');
        assert(is_first(t, '=', i));
        lemma_first_index_is(t, '=', i);
        assert(t.take(i) =~= k);
        assert(t.skip(i + 1) =~= v);
    } else {
        // line = k + " = \"" + v + "\""
        let q = seq!['"'];
        let t = trim(line);
        assert(line.len() == k.len() + 4 + v.len() + 1);
        assert(line.last() == '"');
        let i: int;
        if k.len() > 0 {
            lemma_trimmed_ends(k);
            assert(line[0] == k[0]);
            lemma_trim_idem(line);
            assert(t == line);
            i = k.len() as int + 1;
            assert forall|j: int| 0 <= j < i implies t[j] != '=' by {
                if j < k.len() {
                    assert(t[j] == k[j]);
                } else {
                    assert(t[j] == ' ');
                }
            }
            assert(t[i] == '=');
            assert(t.take(i) =~= k + seq![' ']);
            lemma_trim_pad(k);
        } else {
            // the line starts with the blank before '='
            let rest = line.drop_first();
            assert(line =~= seq![' '] + rest);
            assert(rest[0] == '=');
            assert(strippable(' ', false));
            lemma_strip_start_prefix(seq![' '], rest, false);
            assert(rest.last() == '"');
            lemma_strip_end_idem(rest, false);
            assert(t == rest);
            i = 0;
            assert(t.take(0) =~= Seq::<char>::empty());
            assert(trim(Seq::<char>::empty()) =~= Seq::<char>::empty());
            assert(k =~= Seq::<char>::empty());
        }
        assert(t[i] == '=');
        assert(is_first(t, '=', i));
        lemma_first_index_is(t, '=', i);
        // the value side: " \"" + v + "\""
        let after = t.skip(i + 1);
        let quoted = q + v + q;
        assert(after =~= seq![' '] + quoted);
        lemma_strip_start_prefix(seq![' '], quoted, false);
        assert(quoted.last() == '"');
        lemma_strip_end_idem(quoted, false);
        assert(trim(after) == quoted);
        assert(strippable('"', true));
        if v.len() > 0 {
            assert(quoted =~= q + (v + q));
            assert((v + q)[0] == v[0]);
            lemma_strip_start_prefix(q, v + q, true);
            lemma_strip_end_suffix(v, q, true);
        } else {
            assert(quoted =~= q + q + Seq::<char>::empty());
            assert forall|j: int| 0 <= j < (q + q).len() implies strippable(
                #[trigger] (q + q)[j],
                true,
            ) by {}
            lemma_strip_start_prefix(q + q, Seq::<char>::empty(), true);
            assert(v =~= Seq::<char>::empty());
        }
        assert(trim_quotes(quoted) == v);
    }
}

proof fn lemma_entry_line_no_newline(e: Pair, toml: bool)
    requires
        !e.0.contains('\n'),
        !e.1.contains('\n'),
    ensures
        !entry_line(e, toml).contains('\n'),
{
    let l = entry_line(e, toml);
    if l.contains('\n') {
        let j = choose|j: int| 0 <= j < l.len() && l[j] == '\n';
        if j < e.0.len() {
            assert(l[j] == e.0[j]);
        } else if toml {
            if e.0.len() + 4 <= j < e.0.len() + 4 + e.1.len() {
                assert(l[j] == e.1[j - e.0.len() - 4]);
            }
        } else {
            if e.0.len() + 1 <= j {
                assert(l[j] == e.1[j - e.0.len() - 1]);
            }
        }
    }
}

proof fn lemma_read_lines_cons(st: ReadState, l: Seq<char>, rest: Seq<Seq<char>>, toml: bool)
    ensures
        read_lines(st, seq![l] + rest, toml) == read_lines(read_line(st, l, toml), rest, toml),
{
    let ls = seq![l] + rest;
    assert(ls[0] == l);
    assert(ls.drop_first() =~= rest);
}

/// Writing pairs and reading them back inserts them in order.
proof fn lemma_read_render(st: ReadState, es: Seq<Pair>, toml: bool)
    requires
        !st.1,
        forall|i: int| 0 <= i < es.len() ==> clean_key((#[trigger] es[i]).0, toml) && clean_value(
            es[i].1,
            toml,
        ),
    ensures
        read_lines(st, split_lines(render_spec(es, toml)), toml) == (fold_ins(st.0, es), st.1),
    decreases es.len(),
{
    if es.len() == 0 {
        assert(render_spec(es, toml) == Seq::<char>::empty());
        lemma_split_lines_single(Seq::<char>::empty());
        lemma_read_lines_cons(st, Seq::<char>::empty(), Seq::<Seq<char>>::empty(), toml);
        assert(seq![Seq::<char>::empty()] =~= seq![Seq::<char>::empty()] + Seq::<Seq<char>>::empty());
        assert(trim(Seq::<char>::empty()).len() == 0);
    } else {
        let e = es[0];
        assert(clean_key(e.0, toml) && clean_value(e.1, toml));
        lemma_render_front(es, toml);
        lemma_entry_line_no_newline(e, toml);
        lemma_split_lines_cons(entry_line(e, toml), render_spec(es.drop_first(), toml));
        lemma_read_lines_cons(st, entry_line(e, toml), split_lines(render_spec(es.drop_first(), toml)), toml);
        lemma_read_entry_line(st, e, toml);
        assert forall|i: int| 0 <= i < es.drop_first().len() implies clean_key(
            (#[trigger] es.drop_first()[i]).0,
            toml,
        ) && clean_value(es.drop_first()[i].1, toml) by {
            assert(es.drop_first()[i] == es[i + 1]);
        }
        lemma_read_render((st.0.insert(e.0, e.1), st.1), es.drop_first(), toml);
    }
}

/// What is written for a map reads back as that map, when every pair of
/// the map is one that a line gives back.
pub proof fn lemma_roundtrip(text: Seq<char>, m: Settings, toml: bool)
    requires
        renders(text, m, toml),
        clean_map(m, toml),
    ensures
        read_spec(text, toml) == m,
{
    let es = choose|es: Seq<Pair>| #[trigger]
        sorted_keys(es) && fold_ins(Map::empty(), es) == m && text == render_spec(es, toml);
    assert forall|i: int| 0 <= i < es.len() implies clean_key((#[trigger] es[i]).0, toml)
        && clean_value(es[i].1, toml) by {
        lemma_fold_ins_key(Map::empty(), es, i);
        assert(m.contains_key(es[i].0));
    }
    lemma_read_render((Map::empty(), false), es, toml);
}

/// Each piece of a split holds no line break.
proof fn lemma_split_lines_pieces(s: Seq<char>)
    ensures
        forall|i: int| 0 <= i < split_lines(s).len() ==> !(#[trigger] split_lines(s)[i]).contains('\n'),
    decreases s.len(),
{
    lemma_first_index(s, '\n');
    let i = first_index(s, '\n');
    if i >= 0 {
        lemma_split_lines_pieces(s.skip(i + 1));
        let head = s.take(i);
        if head.contains('\n') {
            let j = choose|j: int| 0 <= j < head.len() && head[j] == '\n';
            assert(s[j] == '\n');
        }
        assert forall|k: int| 0 <= k < split_lines(s).len() implies !(
        #[trigger] split_lines(s)[k]).contains('\n') by {
            if k > 0 {
                assert(split_lines(s)[k] == split_lines(s.skip(i + 1))[k - 1]);
            }
        }
    }
}

/// What a trim keeps of a text without a character has none either.
proof fn lemma_trim_lacks(s: Seq<char>, c: char)
    requires
        !s.contains(c),
    ensures
        !trim(s).contains(c),
{
    let a = lemma_trim_result(s);
    if trim(s).contains(c) {
        let j = choose|j: int| 0 <= j < trim(s).len() && trim(s)[j] == c;
        assert(s[a + j] == c);
    }
}

proof fn lemma_strip_lacks(s: Seq<char>, c: char, quotes: bool)
    requires
        !s.contains(c),
    ensures
        !strip_end(strip_start(s, quotes), quotes).contains(c),
{
    lemma_strip_start_result(s, quotes);
    let t = strip_start(s, quotes);
    lemma_strip_end_result(t, quotes);
    let r = strip_end(t, quotes);
    if r.contains(c) {
        let j = choose|j: int| 0 <= j < r.len() && r[j] == c;
        assert(t[j] == c);
        assert(s[s.len() - t.len() + j] == c);
    }
}

/// Every pair that reading a line inserts is clean.
proof fn lemma_read_line_clean(st: ReadState, line: Seq<char>, toml: bool)
    requires
        clean_map(st.0, toml),
        !line.contains('\n'),
    ensures
        clean_map(read_line(st, line, toml).0, toml),
{
    let t = trim(line);
    if !(t.len() == 0 || t[0] == '#') && !(toml && t[0] == '[') && !st.1 {
        let i = first_index(t, '=');
        if i >= 0 {
            lemma_first_index(t, '=');
            lemma_trim_lacks(line, '\n');
            let raw_key = t.take(i);
            let key = trim(raw_key);
            let raw_val = t.skip(i + 1);
            // the key
            if raw_key.contains('=') {
                let j = choose|j: int| 0 <= j < raw_key.len() && raw_key[j] == '=';
                assert(t[j] == '=');
            }
            if raw_key.contains('\n') {
                let j = choose|j: int| 0 <= j < raw_key.len() && raw_key[j] == '\n';
                assert(t[j] == '\n');
            }
            lemma_trim_lacks(raw_key, '=');
            lemma_trim_lacks(raw_key, '\n');
            lemma_trim_idempotent(raw_key);
            if key.len() > 0 {
                lemma_trim_result(line);
                lemma_strip_start_idem(raw_key, false);
                lemma_strip_end_result(raw_key, false);
                assert(key[0] == raw_key[0]);
                assert(raw_key[0] == t[0]);
            }
            // the value
            if raw_val.contains('\n') {
                let j = choose|j: int| 0 <= j < raw_val.len() && raw_val[j] == '\n';
                assert(t[i + 1 + j] == '\n');
            }
            lemma_trim_lacks(raw_val, '\n');
            let tv = trim(raw_val);
            if toml {
                lemma_strip_lacks(tv, '\n', true);
                lemma_strip_start_result(tv, true);
                lemma_strip_end_result(strip_start(tv, true), true);
                let v = trim_quotes(tv);
                if v.len() > 0 {
                    assert(v[0] == strip_start(tv, true)[0]);
                }
            } else {
                lemma_trim_idempotent(raw_val);
            }
            let nv = read_line(st, line, toml).0;
            assert forall|k: Seq<char>| #[trigger] nv.contains_key(k) implies clean_key(k, toml)
                && clean_value(nv[k], toml) by {
                if k != key {
                    assert(st.0.contains_key(k));
                }
            }
        }
    }
}

proof fn lemma_read_lines_clean(st: ReadState, ls: Seq<Seq<char>>, toml: bool)
    requires
        clean_map(st.0, toml),
        forall|i: int| 0 <= i < ls.len() ==> !(#[trigger] ls[i]).contains('\n'),
    ensures
        clean_map(read_lines(st, ls, toml).0, toml),
    decreases ls.len(),
{
    if ls.len() > 0 {
        lemma_read_line_clean(st, ls[0], toml);
        assert forall|i: int| 0 <= i < ls.drop_first().len() implies !(
        #[trigger] ls.drop_first()[i]).contains('\n') by {
            assert(ls.drop_first()[i] == ls[i + 1]);
        }
        lemma_read_lines_clean(read_line(st, ls[0], toml), ls.drop_first(), toml);
    }
}

/// Every pair that reading a text gives is one that a line gives back.
pub proof fn lemma_read_clean(s: Seq<char>, toml: bool)
    ensures
        clean_map(read_spec(s, toml), toml),
{
    lemma_split_lines_pieces(s);
    lemma_read_lines_clean((Map::empty(), false), split_lines(s), toml);
}

proof fn lemma_insert_at_key(es: Seq<Pair>, i: int, k: Seq<char>, v: Seq<char>, key: Seq<char>)
    requires
        sorted_keys(es),
        sorted_keys(es.insert(i, (k, v))),
        0 <= i <= es.len(),
    ensures
        fold_ins(Map::empty(), es.insert(i, (k, v))).contains_key(key) == fold_ins(
            Map::empty(),
            es,
        ).insert(k, v).contains_key(key),
        fold_ins(Map::empty(), es.insert(i, (k, v))).contains_key(key) ==> fold_ins(
            Map::empty(),
            es.insert(i, (k, v)),
        )[key] == fold_ins(Map::empty(), es).insert(k, v)[key],
{
    let np = es.insert(i, (k, v));
    assert(np[i] == (k, v));
    lemma_fold_ins_sorted(np, key);
    lemma_fold_ins_sorted(es, key);
    if key == k {
        lemma_fold_ins_key(Map::empty(), np, i);
    } else {
        if exists|j: int| 0 <= j < np.len() && (#[trigger] np[j]).0 == key {
            let j = choose|j: int| 0 <= j < np.len() && (#[trigger] np[j]).0 == key;
            lemma_fold_ins_key(Map::empty(), np, j);
            let oj = if j < i { j } else { j - 1 };
            assert(np[j] == es[oj]);
            lemma_fold_ins_key(Map::empty(), es, oj);
        }
        if exists|j: int| 0 <= j < es.len() && (#[trigger] es[j]).0 == key {
            let j = choose|j: int| 0 <= j < es.len() && (#[trigger] es[j]).0 == key;
            let nj = if j < i { j } else { j + 1 };
            assert(np[nj] == es[j]);
        }
    }
}

/// Inserting a new key at its place in a sorted sequence inserts it in the map.
proof fn lemma_insert_at(es: Seq<Pair>, i: int, k: Seq<char>, v: Seq<char>)
    requires
        sorted_keys(es),
        sorted_keys(es.insert(i, (k, v))),
        0 <= i <= es.len(),
    ensures
        fold_ins(Map::empty(), es.insert(i, (k, v))) == fold_ins(Map::empty(), es).insert(k, v),
{
    assert forall|key: Seq<char>| #[trigger]
        fold_ins(Map::empty(), es.insert(i, (k, v))).contains_key(key) == fold_ins(
            Map::empty(),
            es,
        ).insert(k, v).contains_key(key) by {
        lemma_insert_at_key(es, i, k, v, key);
    }
    assert forall|key: Seq<char>| #[trigger]
        fold_ins(Map::empty(), es.insert(i, (k, v))).contains_key(key) implies fold_ins(
            Map::empty(),
            es.insert(i, (k, v)),
        )[key] == fold_ins(Map::empty(), es).insert(k, v)[key] by {
        lemma_insert_at_key(es, i, k, v, key);
    }
    assert(fold_ins(Map::empty(), es.insert(i, (k, v))) =~= fold_ins(Map::empty(), es).insert(
        k,
        v,
    ));
}

proof fn lemma_update_at_key(es: Seq<Pair>, i: int, v: Seq<char>, key: Seq<char>)
    requires
        sorted_keys(es),
        0 <= i < es.len(),
    ensures
        sorted_keys(es.update(i, (es[i].0, v))),
        fold_ins(Map::empty(), es.update(i, (es[i].0, v))).contains_key(key) == fold_ins(
            Map::empty(),
            es,
        ).insert(es[i].0, v).contains_key(key),
        fold_ins(Map::empty(), es.update(i, (es[i].0, v))).contains_key(key) ==> fold_ins(
            Map::empty(),
            es.update(i, (es[i].0, v)),
        )[key] == fold_ins(Map::empty(), es).insert(es[i].0, v)[key],
{
    let k = es[i].0;
    let np = es.update(i, (k, v));
    assert(sorted_keys(np)) by {
        assert forall|a: int, b: int| 0 <= a < b < np.len() implies str_lt(
            #[trigger] np[a].0,
            #[trigger] np[b].0,
        ) by {
            assert(np[a].0 == es[a].0);
            assert(np[b].0 == es[b].0);
        }
    }
    lemma_fold_ins_sorted(np, key);
    lemma_fold_ins_sorted(es, key);
    if key == k {
        lemma_fold_ins_key(Map::empty(), np, i);
    } else {
        if exists|j: int| 0 <= j < np.len() && (#[trigger] np[j]).0 == key {
            let j = choose|j: int| 0 <= j < np.len() && (#[trigger] np[j]).0 == key;
            lemma_fold_ins_key(Map::empty(), np, j);
            assert(np[j] == es[j]);
            lemma_fold_ins_key(Map::empty(), es, j);
        }
        if exists|j: int| 0 <= j < es.len() && (#[trigger] es[j]).0 == key {
            let j = choose|j: int| 0 <= j < es.len() && (#[trigger] es[j]).0 == key;
            assert(np[j] == es[j]);
        }
    }
}

/// Giving an existing key a new value in place updates it in the map.
proof fn lemma_update_at(es: Seq<Pair>, i: int, v: Seq<char>)
    requires
        sorted_keys(es),
        0 <= i < es.len(),
    ensures
        sorted_keys(es.update(i, (es[i].0, v))),
        fold_ins(Map::empty(), es.update(i, (es[i].0, v))) == fold_ins(Map::empty(), es).insert(
            es[i].0,
            v,
        ),
{
    let k = es[i].0;
    let np = es.update(i, (k, v));
    lemma_update_at_key(es, i, v, k);
    assert forall|key: Seq<char>| #[trigger]
        fold_ins(Map::empty(), np).contains_key(key) == fold_ins(Map::empty(), es).insert(
            k,
            v,
        ).contains_key(key) by {
        lemma_update_at_key(es, i, v, key);
    }
    assert forall|key: Seq<char>| #[trigger]
        fold_ins(Map::empty(), np).contains_key(key) implies fold_ins(Map::empty(), np)[key]
        == fold_ins(Map::empty(), es).insert(k, v)[key] by {
        lemma_update_at_key(es, i, v, key);
    }
    assert(fold_ins(Map::empty(), np) =~= fold_ins(Map::empty(), es).insert(k, v));
}

// ---------------------------------------------------------------------
// The ordered map

// ---------------------------------------------------------------------

/// A map from keys to values kept in key order, as a `BTreeMap<String,
/// String>` keeps them.
pub struct SettingsMap {
    entries: Vec<(String, String)>,
}

impl SettingsMap {
    /// The pairs in key order.
    pub closed spec fn pairs(&self) -> Seq<Pair> {
        self.entries@.map_values(|e: (String, String)| (e.0@, e.1@))
    }

    /// The keys strictly increase. Every `SettingsMap` keeps this.
    #[verifier::type_invariant]
    pub closed spec fn wf(&self) -> bool {
        sorted_keys(self.pairs())
    }

    pub open spec fn view(&self) -> Settings {
        fold_ins(Map::empty(), self.pairs())
    }

    pub fn new() -> (r: Self)
        ensures
            r@ == Map::<Seq<char>, Seq<char>>::empty(),
            r.pairs().len() == 0,
    {
        let r = SettingsMap { entries: Vec::new() };
        assert(r.pairs() =~= Seq::<Pair>::empty());
        r
    }

    /// Where `key` belongs: its position and `true` when it is stored;
    /// else the position of the first greater key (or the end) and `false`.
    fn place(&self, key: &String) -> (r: (usize, bool))
        requires
            self.wf(),
        ensures
            r.0 <= self.pairs().len(),
            r.1 ==> r.0 < self.pairs().len() && self.pairs()[r.0 as int].0 == key@,
            !r.1 ==> forall|j: int| 0 <= j < r.0 ==> str_lt(#[trigger] self.pairs()[j].0, key@),
            !r.1 && r.0 < self.pairs().len() ==> str_lt(key@, self.pairs()[r.0 as int].0),
    {
        let ghost ps = self.pairs();
        let n = self.entries.len();
        let mut i: usize = 0;
        while i < n
            invariant
                n == self.entries.len(),
                i <= n,
                ps == self.pairs(),
                ps.len() == n,
                forall|j: int| 0 <= j < i ==> str_lt(#[trigger] ps[j].0, key@),
            decreases n - i,
        {
            assert(ps[i as int] == (self.entries@[i as int].0@, self.entries@[i as int].1@));
            if self.entries[i].0 == *key {
                return (i, true);
            }
            if str_less(key, &self.entries[i].0) {
                return (i, false);
            }
            proof {
                lemma_str_lt_total(key@, ps[i as int].0);
            }
            i += 1;
        }
        (n, false)
    }

    /// `BTreeMap::insert`: `key` now maps to `value`.
    pub fn insert(&mut self, key: String, value: String)
        ensures
            final(self)@ == old(self)@.insert(key@, value@),
    {
        proof {
            use_type_invariant(&*self);
        }
        let ghost old_pairs = self.pairs();
        let ghost k = key@;
        let ghost v = value@;
        let (i, same) = self.place(&key);
        let mut entries: Vec<(String, String)> = Vec::new();
        std::mem::swap(&mut entries, &mut self.entries);
        assert(SettingsMap { entries: entries }.pairs() == old_pairs);
        if same {
            entries.set(i, (key, value));
            proof {
                let np = SettingsMap { entries: entries }.pairs();
                assert(np =~= old_pairs.update(i as int, (k, v)));
                lemma_update_at(old_pairs, i as int, v);
            }
        } else {
            entries.insert(i, (key, value));
            proof {
                let np = SettingsMap { entries: entries }.pairs();
                assert(np =~= old_pairs.insert(i as int, (k, v)));
                assert(sorted_keys(np)) by {
                    assert forall|a: int, b: int| 0 <= a < b < np.len() implies str_lt(
                        #[trigger] np[a].0,
                        #[trigger] np[b].0,
                    ) by {
                        if b < i {
                        } else if b == i {
                        } else if a < i {
                            assert(np[b] == old_pairs[b - 1]);
                            if i < b - 1 {
                                lemma_str_lt_trans(k, old_pairs[i as int].0, old_pairs[b - 1].0);
                            }
                            lemma_str_lt_trans(old_pairs[a].0, k, old_pairs[b - 1].0);
                        } else if a == i {
                            assert(np[b] == old_pairs[b - 1]);
                            if i < b - 1 {
                                lemma_str_lt_trans(k, old_pairs[i as int].0, old_pairs[b - 1].0);
                            }
                        } else {
                            assert(np[a] == old_pairs[a - 1]);
                            assert(np[b] == old_pairs[b - 1]);
                        }
                    }
                }
                lemma_insert_at(old_pairs, i as int, k, v);
            }
        }
        self.entries = entries;
    }

    /// `BTreeMap::get(..).cloned()`.
    pub fn get(&self, key: &str) -> (r: Option<String>)
        ensures
            match r {
                Some(v) => self@.contains_key(key@) && v@ == self@[key@],
                None => !self@.contains_key(key@),
            },
    {
        proof {
            use_type_invariant(self);
        }
        let ghost ps = self.pairs();
        let wanted = key.to_owned();
        let n = self.entries.len();
        let mut i: usize = 0;
        while i < n
            invariant
                n == self.entries.len(),
                ps == self.pairs(),
                wanted@ == key@,
                sorted_keys(ps),
                i <= n,
                forall|j: int| 0 <= j < i ==> (#[trigger] ps[j]).0 != key@,
            decreases n - i,
        {
            assert(ps[i as int] == (self.entries@[i as int].0@, self.entries@[i as int].1@));
            if self.entries[i].0 == wanted {
                proof {
                    lemma_fold_ins_key(Map::empty(), ps, i as int);
                }
                return Some(self.entries[i].1.clone());
            }
            i += 1;
        }
        proof {
            lemma_fold_ins_other(Map::empty(), ps, key@);
        }
        None
    }

    /// The text of the map: its pairs in key order, one line each.
    pub fn render(&self, toml: bool) -> (r: String)
        ensures
            r@ == render_spec(self.pairs(), toml),
            renders(r@, self@, toml),
    {
        proof {
            use_type_invariant(self);
        }
        let ghost ps = self.pairs();
        let mut r = String::new();
        let n = self.entries.len();
        let mut i: usize = 0;
        while i < n
            invariant
                n == self.entries.len(),
                ps == self.pairs(),
                i <= n,
                r@ == render_spec(ps.take(i as int), toml),
            decreases n - i,
        {
            let key = &self.entries[i].0;
            let value = &self.entries[i].1;
            assert(ps[i as int] == (key@, value@));
            r.append(key.as_str());
            if toml {
                r.append(" = \"");
                r.append(value.as_str());
                r.append("\"");
            } else {
                r.append("=");
                r.append(value.as_str());
            }
            r.append("\n");
            proof {
                reveal_strlit(" = \"");
                reveal_strlit("\"");
                reveal_strlit("=");
                reveal_strlit("\n");
                let t = ps.take(i + 1);
                assert(t.drop_last() =~= ps.take(i as int));
                assert(t.last() == ps[i as int]);
                assert(r@ =~= render_spec(t, toml));
            }
            i += 1;
        }
        assert(ps.take(n as int) =~= ps);
        assert(sorted_keys(ps) && fold_ins(Map::empty(), ps) == self@ && r@ == render_spec(ps, toml));
        r
    }
}

/// Each key followed by its value, in order.
pub open spec fn concat_spec(es: Seq<Pair>) -> Seq<char>
    decreases es.len(),
{
    if es.len() == 0 {
        Seq::empty()
    } else {
        concat_spec(es.drop_last()) + es.last().0 + es.last().1
    }
}

/// The pairs of a vector of strings, as character sequences.
pub open spec fn pair_views(ps: Seq<(String, String)>) -> Seq<Pair> {
    ps.map_values(|e: (String, String)| (e.0@, e.1@))
}

impl SettingsMap {
    /// The map of `ps` inserted in order (a later pair wins).
    pub fn from_pairs(ps: &Vec<(String, String)>) -> (r: SettingsMap)
        ensures
            r@ == fold_ins(Map::empty(), pair_views(ps@)),
    {
        let ghost pv = pair_views(ps@);
        let mut m = SettingsMap::new();
        let mut i: usize = 0;
        assert(pv.skip(0) =~= pv);
        while i < ps.len()
            invariant
                i <= ps.len(),
                pv == pair_views(ps@),
                fold_ins(m@, pv.skip(i as int)) == fold_ins(Map::empty(), pv),
            decreases ps.len() - i,
        {
            let k = ps[i].0.clone();
            let v = ps[i].1.clone();
            assert(pv[i as int] == (k@, v@));
            assert(pv.skip(i as int).drop_first() =~= pv.skip(i + 1));
            m.insert(k, v);
            i += 1;
        }
        assert(pv.skip(ps.len() as int) =~= Seq::<Pair>::empty());
        m
    }

    /// Every key followed by its value, in key order.
    pub fn concat_pairs(&self) -> (r: String)
        ensures
            r@ == concat_spec(self.pairs()),
            sorted_keys(self.pairs()),
            fold_ins(Map::empty(), self.pairs()) == self@,
    {
        proof {
            use_type_invariant(self);
        }
        let ghost ps = self.pairs();
        let mut r = String::new();
        let n = self.entries.len();
        let mut i: usize = 0;
        while i < n
            invariant
                n == self.entries.len(),
                ps == self.pairs(),
                i <= n,
                r@ == concat_spec(ps.take(i as int)),
            decreases n - i,
        {
            assert(ps[i as int] == (self.entries@[i as int].0@, self.entries@[i as int].1@));
            r.append(self.entries[i].0.as_str());
            r.append(self.entries[i].1.as_str());
            proof {
                let t = ps.take(i + 1);
                assert(t.drop_last() =~= ps.take(i as int));
                assert(r@ =~= concat_spec(t));
            }
            i += 1;
        }
        assert(ps.take(n as int) =~= ps);
        r
    }
}

// ---------------------------------------------------------------------
// Reading a text
// ---------------------------------------------------------------------

/// Reads the line `v[a..b]` into the map.
fn read_line_exec(v: &Vec<char>, a: usize, b: usize, map: &mut SettingsMap, in_section: &mut bool, toml: bool)
    requires
        a <= b <= v.len(),
        !toml ==> !*old(in_section),
    ensures
        !toml ==> !*final(in_section),
        (final(map)@, *final(in_section)) == read_line(
            (old(map)@, *old(in_section)),
            v@.subrange(a as int, b as int),
            toml,
        ),
{
    let ghost line = v@.subrange(a as int, b as int);
    let (lo, hi) = strip_range(v, a, b, false);
    let ghost t = v@.subrange(lo as int, hi as int);
    assert(t == trim(line));
    if lo == hi || v[lo] == '#' {
        return;
    }
    if toml && v[lo] == '[' {
        *in_section = true;
        return;
    }
    if *in_section {
        return;
    }
    match find_char(v, lo, hi, '=') {
        None => {},
        Some(k) => {
            let (ka, kb) = strip_range(v, lo, k, false);
            let (va, vb) = strip_range(v, k + 1, hi, false);
            assert(t.take(k - lo) =~= v@.subrange(lo as int, k as int));
            assert(t.skip(k - lo + 1) =~= v@.subrange(k + 1, hi as int));
            let key = string_of(v, ka, kb);
            let value = if toml {
                let (qa, qb) = strip_range(v, va, vb, true);
                string_of(v, qa, qb)
            } else {
                string_of(v, va, vb)
            };
            map.insert(key, value);
        },
    }
}

/// Reads a whole text, line by line.
fn read_text(input: &str, toml: bool) -> (r: SettingsMap)
    ensures
        r@ == read_spec(input@, toml),
{
    let v = chars_of(input);
    let n = v.len();
    let mut map = SettingsMap::new();
    let mut in_section = false;
    let mut pos: usize = 0;
    assert(v@.skip(0) =~= v@);
    loop
        invariant
            pos <= n == v.len(),
            v@ == input@,
            !toml ==> !in_section,
            read_lines((map@, in_section), split_lines(v@.skip(pos as int)), toml) == read_lines(
                (Map::empty(), false),
                split_lines(input@),
                toml,
            ),
        decreases n - pos,
    {
        let ghost rest = v@.skip(pos as int);
        assert(rest =~= v@.subrange(pos as int, n as int));
        match find_char(&v, pos, n, '\n') {
            Some(e) => {
                let ghost st0 = (map@, in_section);
                read_line_exec(&v, pos, e, &mut map, &mut in_section, toml);
                proof {
                    let i = e - pos;
                    assert(first_index(rest, '\n') == i);
                    assert(rest.take(i) =~= v@.subrange(pos as int, e as int));
                    assert(rest.skip(i + 1) =~= v@.skip(e + 1));
                    assert(split_lines(rest) == seq![rest.take(i)] + split_lines(rest.skip(i + 1)));
                    lemma_read_lines_cons(st0, rest.take(i), split_lines(rest.skip(i + 1)), toml);
                }
                pos = e + 1;
            },
            None => {
                let ghost st0 = (map@, in_section);
                read_line_exec(&v, pos, n, &mut map, &mut in_section, toml);
                proof {
                    assert(split_lines(rest) == seq![rest]);
                    lemma_read_lines_cons(st0, rest, Seq::<Seq<char>>::empty(), toml);
                    assert(seq![rest] =~= seq![rest] + Seq::<Seq<char>>::empty());
                }
                return map;
            },
        }
    }
}

/// `parse_env`: the `KEY=value` pairs of a `.env` text. Blank lines and
/// lines starting with `#` are skipped; a later line wins over an earlier
/// one with the same key.
pub fn parse_env(input: &str) -> (r: SettingsMap)
    ensures
        r@ == read_spec(input@, false),
{
    read_text(input, false)
}

/// `parse_toml`: the top-level `key = "value"` pairs of a `config.toml`
/// text; reading stops at the first `[section]` line.
pub fn parse_toml(input: &str) -> (r: SettingsMap)
    ensures
        r@ == read_spec(input@, true),
{
    read_text(input, true)
}

// ---------------------------------------------------------------------
// The settings that the player keeps
// ---------------------------------------------------------------------

pub open spec fn theme_key() -> Seq<char> {
    seq!['t', 'h', 'e', 'm', 'e']
}

pub open spec fn api_key_key() -> Seq<char> {
    seq!['L', 'A', 'S', 'T', 'F', 'M', '_', 'A', 'P', 'I', '_', 'K', 'E', 'Y']
}

pub open spec fn api_secret_key() -> Seq<char> {
    seq!['L', 'A', 'S', 'T', 'F', 'M', '_', 'A', 'P', 'I', '_', 'S', 'E', 'C', 'R', 'E', 'T']
}

pub open spec fn username_key() -> Seq<char> {
    seq!['L', 'A', 'S', 'T', 'F', 'M', '_', 'U', 'S', 'E', 'R', 'N', 'A', 'M', 'E']
}

pub open spec fn session_key_key() -> Seq<char> {
    seq![
        'L',
        'A',
        'S',
        'T',
        'F',
        'M',
        '_',
        'S',
        'E',
        'S',
        'S',
        'I',
        'O',
        'N',
        '_',
        'K',
        'E',
        'Y',
    ]
}

/// The settings after a save of the Last.fm credentials.
pub open spec fn with_lastfm_settings(
    m: Settings,
    api_key: Seq<char>,
    api_secret: Seq<char>,
    username: Seq<char>,
) -> Settings {
    m.insert(api_key_key(), api_key).insert(api_secret_key(), api_secret).insert(
        username_key(),
        username,
    )
}

/// `read_theme`: the `theme` value of a `config.toml` text, if it has one.
pub fn read_theme(config: &str) -> (r: Option<String>)
    ensures
        match r {
            Some(t) => read_spec(config@, true).contains_key(theme_key()) && t@ == read_spec(
                config@,
                true,
            )[theme_key()],
            None => !read_spec(config@, true).contains_key(theme_key()),
        },
{
    let map = parse_toml(config);
    proof {
        reveal_strlit("theme");
        assert("theme"@ =~= theme_key());
    }
    map.get("theme")
}

/// `write_theme`: the `config.toml` text that keeps every key of `config`
/// and sets `theme` to `theme`.
pub fn write_theme(config: &str, theme: &str) -> (r: String)
    ensures
        renders(r@, read_spec(config@, true).insert(theme_key(), theme@), true),
{
    let mut map = parse_toml(config);
    let key = String::from_str("theme");
    proof {
        reveal_strlit("theme");
        assert(key@ =~= theme_key());
    }
    map.insert(key, theme.to_owned());
    map.render(true)
}

/// `write_lastfm_settings`: the `.env` text that keeps every key of
/// `existing` and sets the Last.fm API key, secret and user name.
pub fn write_lastfm_settings(existing: &str, api_key: &str, api_secret: &str, username: &str) -> (r:
    String)
    ensures
        renders(
            r@,
            with_lastfm_settings(read_spec(existing@, false), api_key@, api_secret@, username@),
            false,
        ),
{
    let mut map = parse_env(existing);
    let k1 = String::from_str("LASTFM_API_KEY");
    let k2 = String::from_str("LASTFM_API_SECRET");
    let k3 = String::from_str("LASTFM_USERNAME");
    proof {
        reveal_strlit("LASTFM_API_KEY");
        reveal_strlit("LASTFM_API_SECRET");
        reveal_strlit("LASTFM_USERNAME");
        assert(k1@ =~= api_key_key());
        assert(k2@ =~= api_secret_key());
        assert(k3@ =~= username_key());
    }
    map.insert(k1, api_key.to_owned());
    map.insert(k2, api_secret.to_owned());
    map.insert(k3, username.to_owned());
    map.render(false)
}

/// `write_lastfm_session_key`: the `.env` text that keeps every key of
/// `existing` and sets the Last.fm session key.
pub fn write_lastfm_session_key(existing: &str, session_key: &str) -> (r: String)
    ensures
        renders(
            r@,
            read_spec(existing@, false).insert(session_key_key(), session_key@),
            false,
        ),
{
    let mut map = parse_env(existing);
    let k = String::from_str("LASTFM_SESSION_KEY");
    proof {
        reveal_strlit("LASTFM_SESSION_KEY");
        assert(k@ =~= session_key_key());
    }
    map.insert(k, session_key.to_owned());
    map.render(false)
}

proof fn lemma_key_clean(k: Seq<char>, toml: bool)
    requires
        k.len() > 0,
        forall|i: int|
            0 <= i < k.len() ==> (('A' <= #[trigger] k[i] && k[i] <= 'Z') || ('a' <= k[i] && k[i]
                <= 'z') || k[i] == '_'),
    ensures
        clean_key(k, toml),
{
    if k.contains('=') {
        let j = choose|j: int| 0 <= j < k.len() && k[j] == '=';
        assert(k[j] == '=');
    }
    if k.contains('\n') {
        let j = choose|j: int| 0 <= j < k.len() && k[j] == '\n';
        assert(k[j] == '\n');
    }
    assert(!is_ws(k[0]));
    assert(!is_ws(k[k.len() - 1]));
    lemma_trim_idem(k);
}

proof fn lemma_insert_clean(m: Settings, k: Seq<char>, v: Seq<char>, toml: bool)
    requires
        clean_map(m, toml),
        clean_key(k, toml),
        clean_value(v, toml),
    ensures
        clean_map(m.insert(k, v), toml),
{
    assert forall|key: Seq<char>| #[trigger] m.insert(k, v).contains_key(key) implies clean_key(
        key,
        toml,
    ) && clean_value(m.insert(k, v)[key], toml) by {
        if key != k {
            assert(m.contains_key(key));
        }
    }
}

/// Law: after the theme is written, reading the file gives every setting
/// it had before, with `theme` set to the new theme; so `read_theme`
/// gives the theme back. This holds for a theme with no line break that
/// neither starts nor ends with a double quote (every theme label).
pub proof fn law_theme_write_read(config: Seq<char>, theme: Seq<char>, written: Seq<char>)
    requires
        renders(written, read_spec(config, true).insert(theme_key(), theme), true),
        clean_value(theme, true),
    ensures
        read_spec(written, true) == read_spec(config, true).insert(theme_key(), theme),
        read_spec(written, true).contains_key(theme_key()),
        read_spec(written, true)[theme_key()] == theme,
{
    lemma_read_clean(config, true);
    lemma_key_clean(theme_key(), true);
    lemma_insert_clean(read_spec(config, true), theme_key(), theme, true);
    lemma_roundtrip(written, read_spec(config, true).insert(theme_key(), theme), true);
}

/// Law: after the Last.fm settings are saved, reading the `.env` file
/// gives every setting it had before, with the key, secret and user name
/// set to the saved ones. This holds for values without a line break and
/// without blanks at their ends (a `.env` value is read trimmed).
pub proof fn law_lastfm_settings_write_read(
    existing: Seq<char>,
    api_key: Seq<char>,
    api_secret: Seq<char>,
    username: Seq<char>,
    written: Seq<char>,
)
    requires
        renders(
            written,
            with_lastfm_settings(read_spec(existing, false), api_key, api_secret, username),
            false,
        ),
        clean_value(api_key, false),
        clean_value(api_secret, false),
        clean_value(username, false),
    ensures
        read_spec(written, false) == with_lastfm_settings(
            read_spec(existing, false),
            api_key,
            api_secret,
            username,
        ),
{
    let m0 = read_spec(existing, false);
    lemma_read_clean(existing, false);
    lemma_key_clean(api_key_key(), false);
    lemma_key_clean(api_secret_key(), false);
    lemma_key_clean(username_key(), false);
    lemma_insert_clean(m0, api_key_key(), api_key, false);
    let m1 = m0.insert(api_key_key(), api_key);
    lemma_insert_clean(m1, api_secret_key(), api_secret, false);
    let m2 = m1.insert(api_secret_key(), api_secret);
    lemma_insert_clean(m2, username_key(), username, false);
    lemma_roundtrip(written, with_lastfm_settings(m0, api_key, api_secret, username), false);
}

/// Law: after the session key is saved, reading the `.env` file gives
/// every setting it had before, with the session key set (for a key with
/// no line break and no blanks at its ends).
pub proof fn law_session_key_write_read(existing: Seq<char>, session_key: Seq<char>, written: Seq<
    char,
>)
    requires
        renders(written, read_spec(existing, false).insert(session_key_key(), session_key), false),
        clean_value(session_key, false),
    ensures
        read_spec(written, false) == read_spec(existing, false).insert(
            session_key_key(),
            session_key,
        ),
{
    lemma_read_clean(existing, false);
    lemma_key_clean(session_key_key(), false);
    lemma_insert_clean(read_spec(existing, false), session_key_key(), session_key, false);
    lemma_roundtrip(written, read_spec(existing, false).insert(session_key_key(), session_key), false);
}

/// Law: what is read from any text is written back as a text that reads
/// as the same settings.
pub proof fn law_read_write_read(text: Seq<char>, written: Seq<char>, toml: bool)
    requires
        renders(written, read_spec(text, toml), toml),
    ensures
        read_spec(written, toml) == read_spec(text, toml),
{
    lemma_read_clean(text, toml);
    lemma_roundtrip(written, read_spec(text, toml), toml);
}


/// A line that opens a `[section]` of `config.toml`.
pub open spec fn opens_section(line: Seq<char>) -> bool {
    trim(line).len() > 0 && trim(line)[0] == '['
}

/// Splitting at a line break splits each side.
proof fn lemma_split_lines_append(a: Seq<char>, rest: Seq<char>)
    ensures
        split_lines(a + seq!['\n'] + rest) == split_lines(a) + split_lines(rest),
    decreases a.len(),
{
    let i = first_index(a, '\n');
    lemma_first_index(a, '\n');
    if i < 0 {
        lemma_split_lines_cons(a, rest);
        lemma_split_lines_single(a);
    } else {
        let head = a.take(i);
        let tail = a.skip(i + 1);
        assert(!head.contains('\n')) by {
            if head.contains('\n') {
                let k = choose|k: int| 0 <= k < head.len() && head[k] == '\n';
                assert(a[k] == '\n');
            }
        }
        assert(a =~= head + seq!['\n'] + tail);
        assert(a + seq!['\n'] + rest =~= head + seq!['\n'] + (tail + seq!['\n'] + rest));
        lemma_split_lines_cons(head, tail + seq!['\n'] + rest);
        lemma_split_lines_cons(head, tail);
        lemma_split_lines_append(tail, rest);
        assert(seq![head] + (split_lines(tail) + split_lines(rest)) =~= (seq![head] + split_lines(
            tail,
        )) + split_lines(rest));
    }
}

proof fn lemma_read_lines_append(st: ReadState, l1: Seq<Seq<char>>, l2: Seq<Seq<char>>, toml: bool)
    ensures
        read_lines(st, l1 + l2, toml) == read_lines(read_lines(st, l1, toml), l2, toml),
    decreases l1.len(),
{
    if l1.len() == 0 {
        assert(l1 + l2 =~= l2);
    } else {
        assert((l1 + l2).drop_first() =~= l1.drop_first() + l2);
        assert((l1 + l2)[0] == l1[0]);
        lemma_read_lines_append(read_line(st, l1[0], toml), l1.drop_first(), l2, toml);
    }
}

/// Lines that open no section leave the section flag as it was.
proof fn lemma_read_lines_no_section(st: ReadState, ls: Seq<Seq<char>>)
    requires
        forall|k: int| 0 <= k < ls.len() ==> !opens_section(#[trigger] ls[k]),
    ensures
        read_lines(st, ls, true).1 == st.1,
    decreases ls.len(),
{
    if ls.len() > 0 {
        assert(!opens_section(ls[0]));
        assert forall|k: int| 0 <= k < ls.drop_first().len() implies !opens_section(
            #[trigger] ls.drop_first()[k],
        ) by {
            assert(ls.drop_first()[k] == ls[k + 1]);
        }
        lemma_read_lines_no_section(read_line(st, ls[0], true), ls.drop_first());
    }
}

/// Once a section is open, no line changes what was read.
proof fn lemma_read_lines_in_section(st: ReadState, ls: Seq<Seq<char>>)
    requires
        st.1,
    ensures
        read_lines(st, ls, true) == st,
    decreases ls.len(),
{
    if ls.len() > 0 {
        assert(read_line(st, ls[0], true) == st);
        lemma_read_lines_in_section(st, ls.drop_first());
    }
}

/// Law: `config.toml` is read up to its first `[section]` line: whatever
/// follows that line, further sections included, adds nothing.
pub proof fn law_toml_stops_at_section(a: Seq<char>, header: Seq<char>, b: Seq<char>)
    requires
        forall|k: int| 0 <= k < split_lines(a).len() ==> !opens_section(#[trigger] split_lines(a)[k]),
        !header.contains('\n'),
        opens_section(header),
    ensures
        read_spec(a + seq!['\n'] + header + seq!['\n'] + b, true) == read_spec(a, true),
{
    let st0: ReadState = (Map::empty(), false);
    assert(a + seq!['\n'] + header + seq!['\n'] + b =~= a + seq!['\n'] + (header + seq!['\n'] + b));
    lemma_split_lines_append(a, header + seq!['\n'] + b);
    lemma_split_lines_cons(header, b);
    let la = split_lines(a);
    let lr = seq![header] + split_lines(b);
    lemma_read_lines_append(st0, la, lr, true);
    let st1 = read_lines(st0, la, true);
    lemma_read_lines_no_section(st0, la);
    assert(lr[0] == header);
    assert(lr.drop_first() =~= split_lines(b));
    let st2 = read_line(st1, header, true);
    assert(st2 == (st1.0, true));
    lemma_read_lines_in_section(st2, split_lines(b));
}

} // verus!
