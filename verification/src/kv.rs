//! The flat key=value mini-format of the orchestrator's invocation line.
//!
//! A flat string encodes a string-to-string mapping as comma-separated
//! `key=value` tokens, with no escaping.  Empty tokens (an empty input, a
//! trailing comma) are dropped; surrounding whitespace of keys and values is
//! stripped; a non-empty token without `=` makes the whole parse fail.

use vstd::prelude::*;

verus! {

/// Characters stripped from the ends of keys and values.
pub open spec fn is_space_char(c: char) -> bool {
    c == ' ' || c == '\t' || c == '\r' || c == '\n'
}

pub open spec fn contains_char(s: Seq<char>, c: char) -> bool {
    exists|i: int| 0 <= i < s.len() && s[i] == c
}

/// Index of the first occurrence of `c` in `s`; `s.len()` when `c` is absent.
pub open spec fn first_index_of(s: Seq<char>, c: char) -> int
    decreases s.len(),
{
    if s.len() == 0 {
        0
    } else if s[0] == c {
        0
    } else {
        1 + first_index_of(s.drop_first(), c)
    }
}

pub proof fn lemma_first_index_of(s: Seq<char>, c: char)
    ensures
        0 <= first_index_of(s, c) <= s.len(),
        first_index_of(s, c) < s.len() ==> s[first_index_of(s, c)] == c,
        forall|j: int| 0 <= j < first_index_of(s, c) ==> s[j] != c,
        (first_index_of(s, c) == s.len()) <==> !contains_char(s, c),
    decreases s.len(),
{
    if s.len() == 0 {
        assert(!contains_char(s, c));
    } else if s[0] == c {
        assert(contains_char(s, c));
    } else {
        let r = s.drop_first();
        lemma_first_index_of(r, c);
        let i = first_index_of(s, c);
        assert(i == 1 + first_index_of(r, c));
        assert forall|j: int| 0 <= j < i implies s[j] != c by {
            if j > 0 {
                assert(r[j - 1] == s[j]);
            }
        }
        if contains_char(s, c) {
            let w = choose|w: int| 0 <= w < s.len() && s[w] == c;
            assert(r[w - 1] == c);
            assert(contains_char(r, c));
        }
        if contains_char(r, c) {
            let w = choose|w: int| 0 <= w < r.len() && r[w] == c;
            assert(s[w + 1] == c);
            assert(contains_char(s, c));
        }
    }
}

/// `s` cut at every occurrence of `d`, the way `str::split` cuts: an empty
/// input gives one empty piece, and each delimiter ends a piece.
pub open spec fn split_on(s: Seq<char>, d: char) -> Seq<Seq<char>>
    decreases s.len(),
{
    if s.len() == 0 {
        seq![Seq::<char>::empty()]
    } else {
        let rest = split_on(s.drop_first(), d);
        if s[0] == d {
            seq![Seq::<char>::empty()] + rest
        } else {
            seq![seq![s[0]] + rest[0]] + rest.drop_first()
        }
    }
}

pub proof fn lemma_split_on_nonempty(s: Seq<char>, d: char)
    ensures
        split_on(s, d).len() >= 1,
    decreases s.len(),
{
    if s.len() > 0 {
        lemma_split_on_nonempty(s.drop_first(), d);
    }
}

/// `s` without its leading whitespace.
pub open spec fn trim_start(s: Seq<char>) -> Seq<char>
    decreases s.len(),
{
    if s.len() > 0 && is_space_char(s[0]) {
        trim_start(s.drop_first())
    } else {
        s
    }
}

/// `s` without its trailing whitespace.
pub open spec fn trim_end(s: Seq<char>) -> Seq<char>
    decreases s.len(),
{
    if s.len() > 0 && is_space_char(s.last()) {
        trim_end(s.drop_last())
    } else {
        s
    }
}

/// `s` without its surrounding whitespace.
pub open spec fn trim(s: Seq<char>) -> Seq<char> {
    trim_end(trim_start(s))
}

/// One non-empty token: the part before the first `=`, trimmed, maps to the
/// part after it, trimmed.  A token without `=` is malformed.
pub open spec fn parse_segment(seg: Seq<char>) -> Option<(Seq<char>, Seq<char>)> {
    if !contains_char(seg, '=') {
        None
    } else {
        let i = first_index_of(seg, '=');
        Some((trim(seg.take(i)), trim(seg.skip(i + 1))))
    }
}

/// The mapping of a token list: empty tokens are dropped, later keys
/// overwrite earlier ones, and one malformed token fails the whole list.
pub open spec fn parse_segments(segs: Seq<Seq<char>>) -> Option<Map<Seq<char>, Seq<char>>>
    decreases segs.len(),
{
    if segs.len() == 0 {
        Some(Map::<Seq<char>, Seq<char>>::empty())
    } else {
        match parse_segments(segs.drop_last()) {
            None => None,
            Some(m) => {
                let seg = segs.last();
                if seg.len() == 0 {
                    Some(m)
                } else {
                    match parse_segment(seg) {
                        None => None,
                        Some(kv) => Some(m.insert(kv.0, kv.1)),
                    }
                }
            },
        }
    }
}

/// What a whole flat string means: its comma-separated tokens, parsed.
pub open spec fn parse_flat(s: Seq<char>) -> Option<Map<Seq<char>, Seq<char>>> {
    parse_segments(split_on(s, ','))
}

/// The first non-empty token without `=`, the one the parser reports.
pub open spec fn first_malformed(segs: Seq<Seq<char>>) -> Option<Seq<char>>
    decreases segs.len(),
{
    if segs.len() == 0 {
        None
    } else if segs[0].len() > 0 && !contains_char(segs[0], '=') {
        Some(segs[0])
    } else {
        first_malformed(segs.drop_first())
    }
}

pub proof fn lemma_contains_concat(a: Seq<char>, b: Seq<char>, c: char)
    ensures
        contains_char(a + b, c) <==> (contains_char(a, c) || contains_char(b, c)),
{
    if contains_char(a + b, c) {
        let w = choose|w: int| 0 <= w < (a + b).len() && (a + b)[w] == c;
        if w < a.len() {
            assert(a[w] == c);
        } else {
            assert(b[w - a.len()] == c);
        }
    }
    if contains_char(a, c) {
        let w = choose|w: int| 0 <= w < a.len() && a[w] == c;
        assert((a + b)[w] == c);
    }
    if contains_char(b, c) {
        let w = choose|w: int| 0 <= w < b.len() && b[w] == c;
        assert((a + b)[w + a.len()] == c);
    }
}

/// Splitting distributes over concatenation at a delimiter.
pub proof fn lemma_split_on_concat(a: Seq<char>, d: char, b: Seq<char>)
    ensures
        split_on(a + seq![d] + b, d) == split_on(a, d) + split_on(b, d),
    decreases a.len(),
{
    let s = a + seq![d] + b;
    if a.len() == 0 {
        assert(s.len() > 0 && s[0] == d);
        assert(s.drop_first() =~= b);
        assert(split_on(s, d) == seq![Seq::<char>::empty()] + split_on(b, d));
        assert(split_on(a, d) == seq![Seq::<char>::empty()]);
        assert(seq![Seq::<char>::empty()] + split_on(b, d) =~= split_on(a, d) + split_on(b, d));
    } else {
        lemma_split_on_concat(a.drop_first(), d, b);
        assert(s[0] == a[0]);
        assert(s.drop_first() =~= a.drop_first() + seq![d] + b);
        let rest = split_on(s.drop_first(), d);
        let arest = split_on(a.drop_first(), d);
        lemma_split_on_nonempty(a.drop_first(), d);
        lemma_split_on_nonempty(b, d);
        assert(rest == arest + split_on(b, d));
        if a[0] == d {
            assert(split_on(s, d) == seq![Seq::<char>::empty()] + rest);
            assert(split_on(a, d) == seq![Seq::<char>::empty()] + arest);
            assert(seq![Seq::<char>::empty()] + (arest + split_on(b, d)) =~= (seq![
                Seq::<char>::empty(),
            ] + arest) + split_on(b, d));
        } else {
            assert(rest[0] == arest[0]);
            assert(rest.drop_first() =~= arest.drop_first() + split_on(b, d));
            assert(split_on(s, d) == seq![seq![a[0]] + arest[0]] + (arest.drop_first() + split_on(
                b,
                d,
            )));
            assert(split_on(a, d) == seq![seq![a[0]] + arest[0]] + arest.drop_first());
            assert(seq![seq![a[0]] + arest[0]] + (arest.drop_first() + split_on(b, d)) =~= (seq![
                seq![a[0]] + arest[0],
            ] + arest.drop_first()) + split_on(b, d));
        }
    }
}

/// A piece without the delimiter splits into itself alone.
pub proof fn lemma_split_on_no_delim(x: Seq<char>, d: char)
    requires
        !contains_char(x, d),
    ensures
        split_on(x, d) == seq![x],
    decreases x.len(),
{
    if x.len() == 0 {
        assert(seq![Seq::<char>::empty()] =~= seq![x]) by {
            assert(Seq::<char>::empty() =~= x);
        }
    } else {
        assert(x[0] != d);
        assert(!contains_char(x.drop_first(), d)) by {
            if contains_char(x.drop_first(), d) {
                let w = choose|w: int|
                    0 <= w < x.drop_first().len() && x.drop_first()[w] == d;
                assert(x[w + 1] == d);
            }
        }
        lemma_split_on_no_delim(x.drop_first(), d);
        assert(split_on(x, d) == seq![seq![x[0]] + x.drop_first()] + Seq::<Seq<char>>::empty());
        assert(seq![x[0]] + x.drop_first() =~= x);
        assert(seq![seq![x[0]] + x.drop_first()] + Seq::<Seq<char>>::empty() =~= seq![x]);
    }
}

/// The mapping an entry list denotes: entries inserted left to right, so a
/// later entry with the same key overwrites an earlier one.
pub open spec fn map_of(es: Seq<(Seq<char>, Seq<char>)>) -> Map<Seq<char>, Seq<char>>
    decreases es.len(),
{
    if es.len() == 0 {
        Map::<Seq<char>, Seq<char>>::empty()
    } else {
        map_of(es.drop_last()).insert(es.last().0, es.last().1)
    }
}

/// No two entries share a key.
pub open spec fn distinct_keys(es: Seq<(Seq<char>, Seq<char>)>) -> bool {
    forall|i: int, j: int| 0 <= i < j < es.len() ==> es[i].0 != es[j].0
}

pub proof fn lemma_map_of_contains(es: Seq<(Seq<char>, Seq<char>)>, k: Seq<char>)
    ensures
        map_of(es).contains_key(k) <==> exists|i: int| 0 <= i < es.len() && es[i].0 == k,
    decreases es.len(),
{
    if es.len() > 0 {
        lemma_map_of_contains(es.drop_last(), k);
        if es.last().0 == k {
            assert(es[es.len() - 1].0 == k);
        } else if map_of(es).contains_key(k) {
            let i = choose|i: int| 0 <= i < es.drop_last().len() && es.drop_last()[i].0 == k;
            assert(es[i].0 == k);
        } else if exists|i: int| 0 <= i < es.len() && es[i].0 == k {
            let i = choose|i: int| 0 <= i < es.len() && es[i].0 == k;
            assert(es.drop_last()[i].0 == k);
        }
    }
}

pub proof fn lemma_map_of_index(es: Seq<(Seq<char>, Seq<char>)>, i: int)
    requires
        distinct_keys(es),
        0 <= i < es.len(),
    ensures
        map_of(es).contains_key(es[i].0),
        map_of(es)[es[i].0] == es[i].1,
    decreases es.len(),
{
    if i == es.len() - 1 {
    } else {
        lemma_map_of_index(es.drop_last(), i);
        assert(es.drop_last()[i] == es[i]);
        assert(es.last().0 != es[i].0);
    }
}

pub proof fn lemma_map_of_len(es: Seq<(Seq<char>, Seq<char>)>)
    requires
        distinct_keys(es),
    ensures
        map_of(es).dom().finite(),
        map_of(es).dom().len() == es.len(),
    decreases es.len(),
{
    if es.len() > 0 {
        let prefix = es.drop_last();
        lemma_map_of_len(prefix);
        lemma_map_of_contains(prefix, es.last().0);
        assert(forall|i: int| 0 <= i < prefix.len() ==> prefix[i].0 != es.last().0) by {
            assert(forall|i: int| 0 <= i < prefix.len() ==> prefix[i] == es[i]);
        }
        assert(!map_of(prefix).contains_key(es.last().0));
        assert(map_of(es).dom() =~= map_of(prefix).dom().insert(es.last().0));
    }
}

pub proof fn lemma_map_of_update(es: Seq<(Seq<char>, Seq<char>)>, i: int, v: Seq<char>)
    requires
        distinct_keys(es),
        0 <= i < es.len(),
    ensures
        map_of(es.update(i, (es[i].0, v))) =~= map_of(es).insert(es[i].0, v),
    decreases es.len(),
{
    let k = es[i].0;
    let es2 = es.update(i, (k, v));
    if i == es.len() - 1 {
        assert(es2.drop_last() =~= es.drop_last());
        assert(es2.last() == (k, v));
        assert(map_of(es.drop_last()).insert(es.last().0, es.last().1).insert(k, v)
            =~= map_of(es.drop_last()).insert(k, v));
    } else {
        lemma_map_of_update(es.drop_last(), i, v);
        assert(es.drop_last()[i] == es[i]);
        assert(es2.drop_last() =~= es.drop_last().update(i, (k, v)));
        assert(es2.last() == es.last());
        let lk = es.last().0;
        let lv = es.last().1;
        assert(lk != k);
        assert(map_of(es.drop_last()).insert(k, v).insert(lk, lv)
            =~= map_of(es.drop_last()).insert(lk, lv).insert(k, v));
    }
}

/// A malformed token anywhere fails the whole token list.
pub proof fn lemma_parse_segments_bad(segs: Seq<Seq<char>>, i: int)
    requires
        0 <= i < segs.len(),
        segs[i].len() > 0,
        parse_segment(segs[i]) is None,
    ensures
        parse_segments(segs) is None,
    decreases segs.len(),
{
    if i < segs.len() - 1 {
        assert(segs.drop_last()[i] == segs[i]);
        lemma_parse_segments_bad(segs.drop_last(), i);
    }
}

/// When every token before `i` is empty or well-formed and token `i` is
/// malformed, token `i` is the one the parser reports.
pub proof fn lemma_first_malformed_here(segs: Seq<Seq<char>>, i: int)
    requires
        0 <= i < segs.len(),
        forall|j: int| 0 <= j < i ==> segs[j].len() == 0 || contains_char(segs[j], '='),
        segs[i].len() > 0,
        !contains_char(segs[i], '='),
    ensures
        first_malformed(segs) == Some(segs[i]),
    decreases i,
{
    if i > 0 {
        let rest = segs.drop_first();
        assert(forall|j: int| 0 <= j < i - 1 ==> #[trigger] rest[j] == segs[j + 1]);
        assert(rest[i - 1] == segs[i]);
        lemma_first_malformed_here(rest, i - 1);
    }
}

/// The views of a list of strings.
pub open spec fn strs_view(ss: Seq<String>) -> Seq<Seq<char>> {
    ss.map_values(|s: String| s@)
}

/// An empty flat string parses to the empty mapping.
pub proof fn lemma_parse_flat_empty()
    ensures
        parse_flat(Seq::<char>::empty()) == Some(Map::<Seq<char>, Seq<char>>::empty()),
{
    let segs = split_on(Seq::<char>::empty(), ',');
    assert(segs == seq![Seq::<char>::empty()]);
    assert(segs.drop_last() =~= Seq::<Seq<char>>::empty());
    assert(parse_segments(Seq::<Seq<char>>::empty()) == Some(
        Map::<Seq<char>, Seq<char>>::empty(),
    ));
    assert(segs.last().len() == 0);
}

/// A trailing delimiter is tolerated: it never changes what a flat string
/// parses to.
pub proof fn lemma_trailing_delimiter(s: Seq<char>)
    ensures
        parse_flat(s.push(',')) == parse_flat(s),
{
    lemma_split_on_concat(s, ',', Seq::<char>::empty());
    assert(s.push(',') =~= s + seq![','] + Seq::<char>::empty());
    let segs = split_on(s, ',') + split_on(Seq::<char>::empty(), ',');
    assert(split_on(s.push(','), ',') == segs);
    assert(split_on(Seq::<char>::empty(), ',') == seq![Seq::<char>::empty()]);
    assert(segs =~= split_on(s, ',') + seq![Seq::<char>::empty()]);
    lemma_split_on_nonempty(s, ',');
    assert(segs.drop_last() =~= split_on(s, ','));
    assert(segs.last().len() == 0);
}

/// Text that survives a round trip through the flat format when used as a
/// key or value: no delimiter characters and no surrounding whitespace.
pub open spec fn plain_text(s: Seq<char>) -> bool {
    &&& !contains_char(s, '=')
    &&& !contains_char(s, ',')
    &&& trim(s) == s
}

/// The flat encoding of an entry list: `k=v` tokens joined by commas.
pub open spec fn serialize_entries(es: Seq<(Seq<char>, Seq<char>)>) -> Seq<char>
    decreases es.len(),
{
    if es.len() == 0 {
        Seq::<char>::empty()
    } else if es.len() == 1 {
        es[0].0 + seq!['='] + es[0].1
    } else {
        serialize_entries(es.drop_last()) + seq![','] + (es.last().0 + seq!['='] + es.last().1)
    }
}

proof fn lemma_parse_plain_segment(k: Seq<char>, v: Seq<char>)
    requires
        plain_text(k),
        plain_text(v),
    ensures
        (k + seq!['='] + v).len() > 0,
        !contains_char(k + seq!['='] + v, ','),
        parse_segment(k + seq!['='] + v) == Some((k, v)),
{
    let seg = k + seq!['='] + v;
    lemma_contains_concat(k + seq!['='], v, ',');
    lemma_contains_concat(k, seq!['='], ',');
    assert(!contains_char(seq!['='], ',')) by {
        if contains_char(seq!['='], ',') {
            let w = choose|w: int| 0 <= w < seq!['='].len() && seq!['='][w] == ',';
            assert(seq!['='][w] == '=');
        }
    }
    assert(seg[k.len() as int] == '=');
    assert(contains_char(seg, '='));
    lemma_first_index_of(seg, '=');
    let fi = first_index_of(seg, '=');
    assert(forall|j: int| 0 <= j < k.len() ==> seg[j] == k[j]);
    if fi < k.len() {
        assert(seg[fi] == '=');
        assert(k[fi] == '=');
        assert(contains_char(k, '='));
    }
    if fi > k.len() {
        assert(seg[k.len() as int] != '=');
    }
    assert(fi == k.len());
    assert(seg.take(fi) =~= k);
    assert(seg.skip(fi + 1) =~= v);
}

/// Round trip: a mapping whose keys and values carry no delimiter characters
/// and no surrounding whitespace is recovered exactly by parsing its flat
/// `k=v,...` encoding.
pub proof fn lemma_flat_round_trip(es: Seq<(Seq<char>, Seq<char>)>)
    requires
        forall|i: int| 0 <= i < es.len() ==> plain_text((#[trigger] es[i]).0) && plain_text(
            es[i].1,
        ),
        distinct_keys(es),
    ensures
        parse_flat(serialize_entries(es)) == Some(map_of(es)),
    decreases es.len(),
{
    if es.len() == 0 {
        let s = serialize_entries(es);
        assert(s.len() == 0);
        assert(split_on(s, ',') == seq![Seq::<char>::empty()]);
        let segs = seq![Seq::<char>::empty()];
        assert(segs.drop_last() =~= Seq::<Seq<char>>::empty());
        assert(parse_segments(Seq::<Seq<char>>::empty()) == Some(
            Map::<Seq<char>, Seq<char>>::empty(),
        ));
        assert(segs.last().len() == 0);
        assert(parse_segments(segs) == Some(Map::<Seq<char>, Seq<char>>::empty()));
        assert(map_of(es) == Map::<Seq<char>, Seq<char>>::empty());
    } else if es.len() == 1 {
        let k = es[0].0;
        let v = es[0].1;
        let s = serialize_entries(es);
        assert(s == k + seq!['='] + v);
        lemma_parse_plain_segment(k, v);
        lemma_split_on_no_delim(s, ',');
        let segs = seq![s];
        assert(segs.drop_last() =~= Seq::<Seq<char>>::empty());
        assert(parse_segments(Seq::<Seq<char>>::empty()) == Some(
            Map::<Seq<char>, Seq<char>>::empty(),
        ));
        assert(parse_segments(segs.drop_last()) == Some(Map::<Seq<char>, Seq<char>>::empty()));
        assert(parse_segments(segs) == Some(
            Map::<Seq<char>, Seq<char>>::empty().insert(k, v),
        ));
        assert(es.drop_last() =~= Seq::<(Seq<char>, Seq<char>)>::empty());
        assert(map_of(Seq::<(Seq<char>, Seq<char>)>::empty()) == Map::<
            Seq<char>,
            Seq<char>,
        >::empty());
        assert(map_of(es) == Map::<Seq<char>, Seq<char>>::empty().insert(k, v));
    } else {
        let prefix = es.drop_last();
        let k = es.last().0;
        let v = es.last().1;
        assert(forall|i: int| 0 <= i < prefix.len() ==> prefix[i] == es[i]);
        lemma_flat_round_trip(prefix);
        let a = serialize_entries(prefix);
        let seg = k + seq!['='] + v;
        let s = serialize_entries(es);
        assert(s == a + seq![','] + seg);
        lemma_parse_plain_segment(k, v);
        lemma_split_on_concat(a, ',', seg);
        lemma_split_on_no_delim(seg, ',');
        let segs = split_on(a, ',') + seq![seg];
        assert(split_on(s, ',') == segs);
        lemma_split_on_nonempty(a, ',');
        assert(segs.drop_last() =~= split_on(a, ','));
        assert(segs.last() == seg);
        assert(parse_segments(split_on(a, ',')) == Some(map_of(prefix)));
        assert(parse_segments(segs) == Some(map_of(prefix).insert(k, v)));
    }
}

/// The parse error: the first non-empty token that carries no `=`.
#[derive(Debug)]
pub struct MalformedKeyValue {
    pub segment: String,
}

/// A string-to-string mapping with unique keys, the parsed form of one flat
/// context or argument string.
#[derive(Debug)]
pub struct StringMap {
    entries: Vec<(String, String)>,
}

impl View for StringMap {
    type V = Map<Seq<char>, Seq<char>>;

    closed spec fn view(&self) -> Map<Seq<char>, Seq<char>> {
        map_of(self.entries_view())
    }
}

impl StringMap {
    pub closed spec fn entries_view(&self) -> Seq<(Seq<char>, Seq<char>)> {
        self.entries@.map_values(|p: (String, String)| (p.0@, p.1@))
    }

    /// Well-formed: no two entries share a key.
    pub open spec fn wf(&self) -> bool {
        distinct_keys(self.entries_view())
    }

    pub fn new() -> (r: StringMap)
        ensures
            r.wf(),
            r@ == Map::<Seq<char>, Seq<char>>::empty(),
    {
        StringMap { entries: Vec::new() }
    }

    /// Binds `k` to `v`, overwriting any earlier binding of `k`.
    pub fn insert(&mut self, k: String, v: String)
        requires
            old(self).wf(),
        ensures
            final(self).wf(),
            final(self)@ == old(self)@.insert(k@, v@),
    {
        let n = self.entries.len();
        let mut i: usize = 0;
        while i < n
            invariant
                self == old(self),
                old(self).wf(),
                n == self.entries@.len(),
                i <= n,
                forall|j: int| 0 <= j < i ==> #[trigger] self.entries@[j].0@ != k@,
            decreases n - i,
        {
            if self.entries[i].0 == k {
                proof {
                    assert(self.entries_view()[i as int].0 == k@);
                    lemma_map_of_update(self.entries_view(), i as int, v@);
                }
                let ghost old_entries = self.entries_view();
                let slot = &mut self.entries[i];
                *slot = (k, v);
                proof {
                    assert(self.entries_view() =~= old_entries.update(
                        i as int,
                        (old_entries[i as int].0, v@),
                    ));
                    assert(distinct_keys(self.entries_view())) by {
                        assert(forall|j: int| 0 <= j < old_entries.len()
                            ==> #[trigger] self.entries_view()[j].0 == old_entries[j].0);
                    }
                }
                return;
            }
            i += 1;
        }
        proof {
            lemma_map_of_contains(self.entries_view(), k@);
        }
        let ghost old_entries = self.entries_view();
        self.entries.push((k, v));
        proof {
            assert(self.entries_view() =~= old_entries.push((k@, v@)));
            assert(self.entries_view().drop_last() =~= old_entries);
            assert(!map_of(old_entries).contains_key(k@));
            assert(distinct_keys(self.entries_view())) by {
                assert(forall|j: int| 0 <= j < old_entries.len()
                    ==> #[trigger] self.entries_view()[j] == old_entries[j]);
            }
        }
    }

    /// The value bound to `k`, if any.
    pub fn get(&self, k: &String) -> (r: Option<&String>)
        requires
            self.wf(),
        ensures
            match r {
                Some(v) => self@.contains_key(k@) && v@ == self@[k@],
                None => !self@.contains_key(k@),
            },
    {
        let n = self.entries.len();
        let mut i: usize = 0;
        while i < n
            invariant
                self.wf(),
                n == self.entries@.len(),
                i <= n,
                forall|j: int| 0 <= j < i ==> #[trigger] self.entries@[j].0@ != k@,
            decreases n - i,
        {
            if self.entries[i].0 == *k {
                proof {
                    lemma_map_of_index(self.entries_view(), i as int);
                }
                return Some(&self.entries[i].1);
            }
            i += 1;
        }
        proof {
            lemma_map_of_contains(self.entries_view(), k@);
        }
        None
    }

    /// How many keys are bound.
    pub fn len(&self) -> (n: usize)
        requires
            self.wf(),
        ensures
            n == self@.dom().len(),
    {
        proof {
            lemma_map_of_len(self.entries_view());
        }
        self.entries.len()
    }
}

fn is_space_exec(c: char) -> (r: bool)
    ensures
        r == is_space_char(c),
{
    c == ' ' || c == '\t' || c == '\r' || c == '\n'
}

/// Strips surrounding whitespace.
pub fn trim_exec(s: &str) -> (r: String)
    ensures
        r@ == trim(s@),
{
    let n = s.unicode_len();
    let mut a: usize = 0;
    proof {
        assert(s@.skip(0) =~= s@);
    }
    while a < n && is_space_exec(s.get_char(a))
        invariant
            n == s@.len(),
            a <= n,
            trim_start(s@) == trim_start(s@.skip(a as int)),
        decreases n - a,
    {
        proof {
            assert(s@.skip(a as int).drop_first() =~= s@.skip(a as int + 1));
        }
        a += 1;
    }
    proof {
        if a < n {
            assert(s@.skip(a as int)[0] == s@[a as int]);
        }
        assert(trim_start(s@) == s@.skip(a as int));
    }
    let mut b: usize = n;
    proof {
        assert(s@.skip(a as int) =~= s@.subrange(a as int, n as int));
    }
    while b > a && is_space_exec(s.get_char(b - 1))
        invariant
            n == s@.len(),
            a <= b <= n,
            trim_end(s@.skip(a as int)) == trim_end(s@.subrange(a as int, b as int)),
        decreases b,
    {
        proof {
            let cur = s@.subrange(a as int, b as int);
            assert(cur.last() == s@[b - 1]);
            assert(cur.drop_last() =~= s@.subrange(a as int, b as int - 1));
        }
        b -= 1;
    }
    proof {
        let cur = s@.subrange(a as int, b as int);
        if b > a {
            assert(cur.last() == s@[b - 1]);
        }
        assert(trim_end(cur) == cur);
    }
    s.substring_char(a, b).to_owned()
}

/// Position of the first `=`, if any.
fn find_eq(s: &str) -> (r: Option<usize>)
    ensures
        match r {
            Some(i) => i < s@.len() && s@[i as int] == '=' && forall|j: int|
                0 <= j < i ==> s@[j] != '=',
            None => !contains_char(s@, '='),
        },
{
    let n = s.unicode_len();
    let mut i: usize = 0;
    while i < n
        invariant
            n == s@.len(),
            i <= n,
            forall|j: int| 0 <= j < i ==> s@[j] != '=',
        decreases n - i,
    {
        if s.get_char(i) == '=' {
            return Some(i);
        }
        i += 1;
    }
    None
}

spec fn prepend_first(p: Seq<char>, ss: Seq<Seq<char>>) -> Seq<Seq<char>> {
    seq![p + ss[0]] + ss.drop_first()
}

/// Cuts at every comma, as the `split_on` model does.
fn split_commas(s: &str) -> (r: Vec<String>)
    ensures
        strs_view(r@) == split_on(s@, ','),
{
    let n = s.unicode_len();
    let mut out: Vec<String> = Vec::new();
    let mut st: usize = 0;
    let mut i: usize = 0;
    proof {
        lemma_split_on_nonempty(s@, ',');
        assert(s@.skip(0) =~= s@);
        assert(s@.subrange(0, 0) =~= Seq::<char>::empty());
        let whole = split_on(s@, ',');
        assert(prepend_first(Seq::<char>::empty(), whole) =~= whole) by {
            assert(Seq::<char>::empty() + whole[0] =~= whole[0]);
            assert(seq![whole[0]] + whole.drop_first() =~= whole);
        }
        assert(strs_view(out@) + whole =~= whole);
    }
    while i < n
        invariant
            n == s@.len(),
            st <= i <= n,
            split_on(s@, ',') == strs_view(out@) + prepend_first(
                s@.subrange(st as int, i as int),
                split_on(s@.skip(i as int), ','),
            ),
        decreases n - i,
    {
        let ghost tail = split_on(s@.skip(i as int + 1), ',');
        proof {
            lemma_split_on_nonempty(s@.skip(i as int + 1), ',');
            assert(s@.skip(i as int).len() > 0);
            assert(s@.skip(i as int)[0] == s@[i as int]);
            assert(s@.skip(i as int).drop_first() =~= s@.skip(i as int + 1));
        }
        let c = s.get_char(i);
        if c == ',' {
            let ghost piece = s@.subrange(st as int, i as int);
            proof {
                assert(split_on(s@.skip(i as int), ',') == seq![Seq::<char>::empty()] + tail);
                assert(prepend_first(piece, seq![Seq::<char>::empty()] + tail) =~= seq![piece]
                    + tail) by {
                    assert((seq![Seq::<char>::empty()] + tail)[0] =~= Seq::<char>::empty());
                    assert(piece + Seq::<char>::empty() =~= piece);
                    assert((seq![Seq::<char>::empty()] + tail).drop_first() =~= tail);
                }
            }
            out.push(s.substring_char(st, i).to_owned());
            st = i + 1;
            proof {
                assert(s@.subrange(st as int, i as int + 1) =~= Seq::<char>::empty());
                assert(prepend_first(Seq::<char>::empty(), tail) =~= tail) by {
                    assert(Seq::<char>::empty() + tail[0] =~= tail[0]);
                    assert(seq![tail[0]] + tail.drop_first() =~= tail);
                }
                assert(strs_view(out@) =~= strs_view(out@.drop_last()) + seq![piece]);
                assert(strs_view(out@) + prepend_first(Seq::<char>::empty(), tail)
                    =~= (strs_view(out@.drop_last()) + seq![piece]) + tail);
            }
        } else {
            proof {
                let old_piece = s@.subrange(st as int, i as int);
                let new_piece = s@.subrange(st as int, i as int + 1);
                assert(split_on(s@.skip(i as int), ',') == seq![seq![s@[i as int]] + tail[0]]
                    + tail.drop_first());
                assert(new_piece =~= old_piece + seq![s@[i as int]]);
                assert(old_piece + (seq![s@[i as int]] + tail[0]) =~= new_piece + tail[0]);
                assert(prepend_first(old_piece, split_on(s@.skip(i as int), ','))
                    =~= prepend_first(new_piece, tail)) by {
                    assert((seq![seq![s@[i as int]] + tail[0]] + tail.drop_first()).drop_first()
                        =~= tail.drop_first());
                }
            }
        }
        i += 1;
    }
    proof {
        assert(s@.skip(n as int).len() == 0);
        let last_piece = s@.subrange(st as int, n as int);
        assert(prepend_first(last_piece, split_on(s@.skip(n as int), ',')) =~= seq![last_piece])
            by {
            assert(split_on(s@.skip(n as int), ',') == seq![Seq::<char>::empty()]);
            assert(last_piece + Seq::<char>::empty() =~= last_piece);
        }
    }
    let ghost pre = out@;
    out.push(s.substring_char(st, n).to_owned());
    proof {
        assert(strs_view(out@) =~= strs_view(pre) + seq![s@.subrange(st as int, n as int)]);
    }
    out
}

/// Parses one flat `key=value` string into its mapping.
///
/// Empty tokens are tolerated; a non-empty token without `=` fails the whole
/// parse, and the error carries the first such token.
pub fn parse_flat_map(s: &str) -> (r: Result<StringMap, MalformedKeyValue>)
    ensures
        match r {
            Ok(m) => m.wf() && parse_flat(s@) == Some(m@),
            Err(e) => parse_flat(s@) is None && first_malformed(split_on(s@, ',')) == Some(
                e.segment@,
            ),
        },
{
    let segs = split_commas(s);
    let ghost gsegs = split_on(s@, ',');
    let mut m = StringMap::new();
    let k = segs.len();
    let mut j: usize = 0;
    while j < k
        invariant
            gsegs == split_on(s@, ','),
            strs_view(segs@) == gsegs,
            k == segs@.len(),
            j <= k,
            m.wf(),
            parse_segments(gsegs.take(j as int)) == Some(m@),
            forall|t: int| 0 <= t < j ==> (#[trigger] gsegs[t]).len() == 0 || contains_char(
                gsegs[t],
                '=',
            ),
        decreases k - j,
    {
        let seg: &String = &segs[j];
        proof {
            assert(strs_view(segs@)[j as int] == segs@[j as int]@);
            assert(seg@ == gsegs[j as int]);
            assert(gsegs.take(j as int + 1).drop_last() =~= gsegs.take(j as int));
            assert(gsegs.take(j as int + 1).last() == gsegs[j as int]);
        }
        let sl = seg.as_str();
        let n = sl.unicode_len();
        if n > 0 {
            match find_eq(sl) {
                None => {
                    proof {
                        lemma_parse_segments_bad(gsegs, j as int);
                        lemma_first_malformed_here(gsegs, j as int);
                    }
                    return Err(MalformedKeyValue { segment: seg.clone() });
                },
                Some(p) => {
                    let kk = trim_exec(sl.substring_char(0, p));
                    let vv = trim_exec(sl.substring_char(p + 1, n));
                    proof {
                        lemma_first_index_of(seg@, '=');
                        let fi = first_index_of(seg@, '=');
                        assert(contains_char(seg@, '='));
                        if fi < p {
                            assert(seg@[fi] != '=');
                        }
                        if fi > p {
                            assert(seg@[p as int] != '=');
                        }
                        assert(fi == p);
                        assert(seg@.subrange(0, p as int) =~= seg@.take(p as int));
                        assert(seg@.subrange(p as int + 1, n as int) =~= seg@.skip(p as int + 1));
                        assert(parse_segment(seg@) == Some((kk@, vv@)));
                    }
                    m.insert(kk, vv);
                },
            }
        }
        j += 1;
    }
    proof {
        assert(gsegs.take(k as int) =~= gsegs);
    }
    Ok(m)
}

} // verus!
