//! Queries over the JSON Lines system log: which lines a query keeps, in which order they
//! are returned, which log files a query needs, which old files a cleanup deletes, and how a
//! configured level name is read.
use chrono::Datelike;
use tracing::level_filters::LevelFilter;
use vstd::prelude::*;
use vstd::string::*;

use crate::registry::opt_view;
use crate::text::{chars_of, contains, contains_seq, is_ascii_text, str_equals, trim};

verus! {

/// A lowercased copy of a text, as `str::to_lowercase` computes it (full Unicode case mapping).
pub uninterp spec fn lowercase_of(s: Seq<char>) -> Seq<char>;

/// `str::to_lowercase`. Its result is named, not written out: it is the Unicode lowercase
/// mapping of `s`, a function of `s` alone. For ASCII text that mapping lowers each ASCII
/// uppercase letter to its lowercase partner and keeps every other character.
#[verifier::external_body]
fn str_to_lowercase(s: &str) -> (r: String)
    ensures
        r@ == lowercase_of(s@),
        is_ascii_text(s@) ==> r@ == s@.map_values(|c: char| ascii_lower(c)),
{
    s.to_lowercase()
}

/// What a log query asks for. Timestamps are Unix milliseconds.
pub struct LogQuery {
    /// Keep lines at or after this time.
    pub since: Option<i64>,
    /// Keep lines before this time (the cursor of the previous page).
    pub before: Option<i64>,
    /// Among lines at exactly `before`, keep those whose sequence number is below this one.
    pub before_seq: Option<u64>,
    /// At most this many lines are returned.
    pub limit: usize,
    /// Keep lines whose lowercased text contains this (already lowercased, trimmed, non-empty).
    pub keyword: Option<String>,
    /// Keep lines whose lowercased level is one of these (all levels when empty).
    pub levels: Vec<String>,
}

/// One parsed log line offered to a query.
pub struct LogCandidate {
    /// The line's `ts` field when it is an integer.
    pub ts: Option<i64>,
    /// The line's sequence number: the byte offset of the line over all files read.
    pub seq: u64,
    /// The line's `level` field when it is a string.
    pub level: Option<String>,
    /// The whole line, serialized, for keyword search.
    pub text: String,
}

/// The ordering data of a kept line, and its position among the candidates.
#[derive(Debug, Clone, Copy, PartialEq, Eq, Structural)]
pub struct LogKey {
    pub ts: Option<i64>,
    pub seq: u64,
    pub index: usize,
}

/// A timestamp saturated into `i64`, as `i64::try_from(ts).unwrap_or(i64::MAX)`.
pub open spec fn saturate_ts(ts: u64) -> i64 {
    if ts <= i64::MAX as u64 {
        ts as i64
    } else {
        i64::MAX
    }
}

fn saturate(ts: Option<u64>) -> (r: Option<i64>)
    ensures
        r == match ts {
            Some(t) => Some(saturate_ts(t)),
            None => None::<i64>,
        },
{
    match ts {
        Some(t) => {
            if t <= i64::MAX as u64 {
                Some(t as i64)
            } else {
                Some(i64::MAX)
            }
        },
        None => None,
    }
}

/// The lowercased form of each level name.
pub open spec fn lowered_all(levels: Seq<String>) -> Seq<Seq<char>> {
    levels.map_values(|l: String| lowercase_of(l@))
}

/// The views of a list of strings.
pub open spec fn string_views(v: Seq<String>) -> Seq<Seq<char>> {
    v.map_values(|s: String| s@)
}

impl LogQuery {
    /// Builds a query: times beyond `i64::MAX` saturate, the keyword is trimmed and lowercased
    /// and dropped when it is empty, the level names are lowercased.
    pub fn new(
        since: Option<u64>,
        before: Option<u64>,
        before_seq: Option<u64>,
        limit: usize,
        keyword: Option<&str>,
        levels: &Vec<String>,
    ) -> (r: LogQuery)
        ensures
            r.since == (match since {
                Some(t) => Some(saturate_ts(t)),
                None => None::<i64>,
            }),
            r.before == (match before {
                Some(t) => Some(saturate_ts(t)),
                None => None::<i64>,
            }),
            r.before_seq == before_seq,
            r.limit == limit,
            match keyword {
                Some(k) => if crate::text::trim_seq(k@).len() == 0 {
                    r.keyword is None
                } else {
                    r.keyword matches Some(kk) && kk@ == lowercase_of(crate::text::trim_seq(k@))
                        && (is_ascii_text(k@) ==> kk@ == crate::text::trim_seq(k@).map_values(
                        |c: char| ascii_lower(c),
                    ))
                },
                None => r.keyword is None,
            },
            string_views(r.levels@) == lowered_all(levels@),
            forall|k: int|
                0 <= k < levels.len() && is_ascii_text(#[trigger] levels@[k]@) ==> r.levels@[k]@
                    == levels@[k]@.map_values(|c: char| ascii_lower(c)),
    {
        let kw = match keyword {
            Some(k) => {
                let t = trim(k);
                proof {
                    if is_ascii_text(k@) {
                        crate::text::lemma_ascii_trimmed(k@);
                    }
                }
                if t.as_str().is_empty() {
                    None
                } else {
                    Some(str_to_lowercase(t.as_str()))
                }
            },
            None => None,
        };
        let mut lowered: Vec<String> = Vec::new();
        let mut i: usize = 0;
        while i < levels.len()
            invariant
                i <= levels.len(),
                lowered@.len() == i,
                string_views(lowered@) == lowered_all(levels@.take(i as int)),
                forall|k: int|
                    0 <= k < i && is_ascii_text(#[trigger] levels@[k]@) ==> lowered@[k]@
                        == levels@[k]@.map_values(|c: char| ascii_lower(c)),
            decreases levels.len() - i,
        {
            let l = str_to_lowercase(levels[i].as_str());
            let ghost before = lowered@;
            lowered.push(l);
            assert forall|k: int| 0 <= k < i + 1 implies string_views(lowered@)[k] == lowered_all(
                levels@.take(i + 1),
            )[k] by {
                if k < i {
                    assert(lowered@[k] == before[k]);
                    assert(string_views(before)[k] == lowered_all(levels@.take(i as int))[k]);
                }
            }
            assert(string_views(lowered@) =~= lowered_all(levels@.take(i + 1)));
            i += 1;
        }
        assert(levels@.take(levels.len() as int) =~= levels@);
        LogQuery {
            since: saturate(since),
            before: saturate(before),
            before_seq,
            limit,
            keyword: kw,
            levels: lowered,
        }
    }
}

/// The time that filtering uses for a line: its `ts`, or `i64::MAX` when it has none.
pub open spec fn filter_ts(c: Option<i64>) -> i64 {
    match c {
        Some(t) => t,
        None => i64::MAX,
    }
}

/// The time that ordering uses for a line: its `ts`, or 0 when it has none.
pub open spec fn order_ts(c: Option<i64>) -> i64 {
    match c {
        Some(t) => t,
        None => 0,
    }
}

/// The line passes the time window and cursor of the query.
pub open spec fn time_accepted(q: LogQuery, ts: Option<i64>, seq: u64) -> bool {
    let t = filter_ts(ts);
    &&& (q.since matches Some(s) ==> t >= s)
    &&& (q.before matches Some(b) ==> (t < b || (t == b && (q.before_seq matches Some(bs) && seq < bs))))
}

/// The line passes every condition of the query.
pub open spec fn accepts(q: LogQuery, c: LogCandidate) -> bool {
    &&& time_accepted(q, c.ts, c.seq)
    &&& (q.levels.len() > 0 ==> (c.level matches Some(l) && string_views(q.levels@).contains(lowercase_of(l@))))
    &&& (q.keyword matches Some(k) ==> contains_seq(lowercase_of(c.text@), k@))
}

/// The query without its keyword condition.
pub open spec fn without_keyword(q: LogQuery) -> LogQuery {
    LogQuery { keyword: None, ..q }
}

/// A keyword is looked for anywhere in the line: with a keyword set, a line is kept exactly
/// when the query without the keyword keeps it and the keyword occurs, as a contiguous run of
/// characters starting at any position, in the lowercased text of the line.
pub proof fn law_keyword_found_anywhere(q: LogQuery, c: LogCandidate)
    requires
        q.keyword is Some,
    ensures
        ({
            let k = q.keyword->0@;
            let text = lowercase_of(c.text@);
            accepts(q, c) <==> (accepts(without_keyword(q), c) && exists|p: int|
                0 <= p && p + k.len() <= text.len() && #[trigger] text.subrange(p, p + k.len()) == k)
        }),
{
}

/// `a` sorts after `b`: a smaller (time, sequence) pair, compared lexicographically.
pub open spec fn key_lt(a: LogKey, b: LogKey) -> bool {
    order_ts(a.ts) < order_ts(b.ts) || (order_ts(a.ts) == order_ts(b.ts) && a.seq < b.seq)
}

/// The keys of the accepted candidates, in candidate order.
pub open spec fn accepted_keys(q: LogQuery, cands: Seq<LogCandidate>) -> Seq<LogKey>
    decreases cands.len(),
{
    if cands.len() == 0 {
        Seq::empty()
    } else {
        let rest = accepted_keys(q, cands.drop_last());
        let c = cands.last();
        if accepts(q, c) {
            rest.push(LogKey { ts: c.ts, seq: c.seq, index: (cands.len() - 1) as usize })
        } else {
            rest
        }
    }
}

/// `x` inserted into `s` before the first element that sorts after it.
pub open spec fn insert_desc(s: Seq<LogKey>, x: LogKey) -> Seq<LogKey>
    decreases s.len(),
{
    if s.len() == 0 {
        seq![x]
    } else if key_lt(s[0], x) {
        seq![x] + s
    } else {
        seq![s[0]] + insert_desc(s.drop_first(), x)
    }
}

/// Stable sort, newest first: by time descending, then sequence descending; keys that tie
/// keep their relative order.
pub open spec fn sort_desc(s: Seq<LogKey>) -> Seq<LogKey>
    decreases s.len(),
{
    if s.len() == 0 {
        Seq::empty()
    } else {
        insert_desc(sort_desc(s.drop_last()), s.last())
    }
}

/// The first `n` elements of `s`, or all of it when it is shorter.
pub open spec fn take_up_to(s: Seq<LogKey>, n: nat) -> Seq<LogKey> {
    if n < s.len() {
        s.take(n as int)
    } else {
        s
    }
}

/// What a query returns: the accepted lines, newest first, at most `limit` of them.
pub open spec fn select_spec(q: LogQuery, cands: Seq<LogCandidate>) -> Seq<LogKey> {
    take_up_to(sort_desc(accepted_keys(q, cands)), q.limit as nat)
}

/// Whether `levels` holds `x`.
fn levels_contain(levels: &Vec<String>, x: &str) -> (r: bool)
    ensures
        r == string_views(levels@).contains(x@),
{
    let mut i: usize = 0;
    while i < levels.len()
        invariant
            i <= levels.len(),
            forall|k: int| 0 <= k < i ==> levels@[k]@ != x@,
        decreases levels.len() - i,
    {
        if str_equals(levels[i].as_str(), x) {
            assert(string_views(levels@)[i as int] == x@);
            return true;
        }
        i += 1;
    }
    assert(!string_views(levels@).contains(x@)) by {
        if string_views(levels@).contains(x@) {
            let k = choose|k: int| 0 <= k < levels@.len() && string_views(levels@)[k] == x@;
            assert(levels@[k]@ == x@);
        }
    }
    false
}

/// Whether the query keeps the line.
pub fn query_accepts(q: &LogQuery, c: &LogCandidate) -> (r: bool)
    ensures
        r == accepts(*q, *c),
{
    let t = match c.ts {
        Some(t) => t,
        None => i64::MAX,
    };
    match q.since {
        Some(s) => {
            if t < s {
                return false;
            }
        },
        None => {},
    }
    match q.before {
        Some(b) => {
            if t > b {
                return false;
            }
            if t == b {
                match q.before_seq {
                    Some(bs) => {
                        if c.seq >= bs {
                            return false;
                        }
                    },
                    None => {
                        return false;
                    },
                }
            }
        },
        None => {},
    }
    if q.levels.len() > 0 {
        match &c.level {
            Some(l) => {
                let lower = str_to_lowercase(l.as_str());
                if !levels_contain(&q.levels, lower.as_str()) {
                    return false;
                }
            },
            None => {
                return false;
            },
        }
    }
    match &q.keyword {
        Some(k) => {
            let lower = str_to_lowercase(c.text.as_str());
            let hay = chars_of(lower.as_str());
            let needle = chars_of(k.as_str());
            contains(&hay, &needle)
        },
        None => true,
    }
}

fn key_lt_exec(a: LogKey, b: LogKey) -> (r: bool)
    ensures
        r == key_lt(a, b),
{
    let at = match a.ts {
        Some(t) => t,
        None => 0,
    };
    let bt = match b.ts {
        Some(t) => t,
        None => 0,
    };
    at < bt || (at == bt && a.seq < b.seq)
}

/// Inserting at the first position whose element sorts after `x` is `insert_desc`.
proof fn lemma_insert_desc_at(s: Seq<LogKey>, x: LogKey, p: int)
    requires
        0 <= p <= s.len(),
        forall|k: int| 0 <= k < p ==> !key_lt(#[trigger] s[k], x),
        p < s.len() ==> key_lt(s[p], x),
    ensures
        insert_desc(s, x) == s.insert(p, x),
    decreases s.len(),
{
    if s.len() == 0 {
        assert(s.insert(p, x) =~= seq![x]);
    } else if p == 0 {
        assert(s.insert(0, x) =~= seq![x] + s);
    } else {
        assert(!key_lt(s[0], x));
        let t = s.drop_first();
        assert forall|k: int| 0 <= k < p - 1 implies !key_lt(#[trigger] t[k], x) by {
            assert(t[k] == s[k + 1]);
        }
        if p - 1 < t.len() {
            assert(t[p - 1] == s[p]);
        }
        lemma_insert_desc_at(t, x, p - 1);
        assert(s.insert(p, x) =~= seq![s[0]] + t.insert(p - 1, x));
    }
}

/// The lines that the query keeps, newest first (time, then sequence number, descending; ties
/// keep their order), at most `limit` of them; each key names its candidate's position.
pub fn select_log_entries(q: &LogQuery, cands: &Vec<LogCandidate>) -> (r: Vec<LogKey>)
    ensures
        r@ == select_spec(*q, cands@),
{
    let mut kept: Vec<LogKey> = Vec::new();
    let mut i: usize = 0;
    while i < cands.len()
        invariant
            i <= cands.len(),
            kept@ == accepted_keys(*q, cands@.take(i as int)),
        decreases cands.len() - i,
    {
        assert(cands@.take(i + 1).drop_last() =~= cands@.take(i as int));
        if query_accepts(q, &cands[i]) {
            kept.push(LogKey { ts: cands[i].ts, seq: cands[i].seq, index: i });
        }
        i += 1;
    }
    assert(cands@.take(cands.len() as int) =~= cands@);
    let mut sorted: Vec<LogKey> = Vec::new();
    let mut j: usize = 0;
    while j < kept.len()
        invariant
            j <= kept.len(),
            sorted@ == sort_desc(kept@.take(j as int)),
        decreases kept.len() - j,
    {
        let x = kept[j];
        let mut p: usize = 0;
        while p < sorted.len() && !key_lt_exec(sorted[p], x)
            invariant
                p <= sorted.len(),
                forall|k: int| 0 <= k < p ==> !key_lt(#[trigger] sorted@[k], x),
            decreases sorted.len() - p,
        {
            p += 1;
        }
        proof {
            lemma_insert_desc_at(sorted@, x, p as int);
            assert(kept@.take(j + 1).drop_last() =~= kept@.take(j as int));
        }
        sorted.insert(p, x);
        j += 1;
    }
    assert(kept@.take(kept.len() as int) =~= kept@);
    sorted.truncate(q.limit);
    sorted
}

/// Newest first: no element sorts before an earlier one.
pub open spec fn sorted_desc(s: Seq<LogKey>) -> bool {
    forall|i: int, j: int| 0 <= i < j < s.len() ==> !key_lt(#[trigger] s[i], #[trigger] s[j])
}

proof fn lemma_insert_desc(s: Seq<LogKey>, x: LogKey)
    requires
        sorted_desc(s),
    ensures
        sorted_desc(insert_desc(s, x)),
        insert_desc(s, x).len() == s.len() + 1,
        forall|y: LogKey| #[trigger] insert_desc(s, x).contains(y) <==> (s.contains(y) || y == x),
    decreases s.len(),
{
    let r = insert_desc(s, x);
    if s.len() == 0 {
        assert(r =~= seq![x]);
        assert forall|y: LogKey| #[trigger] r.contains(y) <==> (s.contains(y) || y == x) by {
            if r.contains(y) {
                assert(r[0] == x);
            }
            if y == x {
                assert(r[0] == y);
            }
        }
    } else if key_lt(s[0], x) {
        assert(r =~= seq![x] + s);
        assert forall|i: int, j: int| 0 <= i < j < r.len() implies !key_lt(#[trigger] r[i], #[trigger] r[j]) by {
            if i == 0 {
                assert(r[j] == s[j - 1]);
                if j - 1 > 0 {
                    assert(!key_lt(s[0], s[j - 1]));
                }
            } else {
                assert(r[i] == s[i - 1]);
                assert(r[j] == s[j - 1]);
            }
        }
        assert forall|y: LogKey| #[trigger] r.contains(y) <==> (s.contains(y) || y == x) by {
            if r.contains(y) {
                let k = choose|k: int| 0 <= k < r.len() && r[k] == y;
                if k > 0 {
                    assert(s[k - 1] == y);
                }
            }
            if s.contains(y) {
                let k = choose|k: int| 0 <= k < s.len() && s[k] == y;
                assert(r[k + 1] == y);
            }
            if y == x {
                assert(r[0] == y);
            }
        }
    } else {
        let t = s.drop_first();
        assert forall|i: int, j: int| 0 <= i < j < t.len() implies !key_lt(#[trigger] t[i], #[trigger] t[j]) by {
            assert(t[i] == s[i + 1]);
            assert(t[j] == s[j + 1]);
        }
        lemma_insert_desc(t, x);
        let it = insert_desc(t, x);
        assert(r =~= seq![s[0]] + it);
        assert forall|i: int, j: int| 0 <= i < j < r.len() implies !key_lt(#[trigger] r[i], #[trigger] r[j]) by {
            if i == 0 {
                assert(r[j] == it[j - 1]);
                assert(it.contains(it[j - 1]));
                if t.contains(it[j - 1]) {
                    let k = choose|k: int| 0 <= k < t.len() && t[k] == it[j - 1];
                    assert(s[k + 1] == t[k]);
                    assert(!key_lt(s[0], s[k + 1]));
                }
            } else {
                assert(r[i] == it[i - 1]);
                assert(r[j] == it[j - 1]);
            }
        }
        assert forall|y: LogKey| #[trigger] r.contains(y) <==> (s.contains(y) || y == x) by {
            if r.contains(y) {
                let k = choose|k: int| 0 <= k < r.len() && r[k] == y;
                if k > 0 {
                    assert(it[k - 1] == y);
                    assert(it.contains(y));
                    if t.contains(y) {
                        let q = choose|q: int| 0 <= q < t.len() && t[q] == y;
                        assert(s[q + 1] == y);
                    }
                } else {
                    assert(s[0] == y);
                }
            }
            if s.contains(y) {
                let k = choose|k: int| 0 <= k < s.len() && s[k] == y;
                if k == 0 {
                    assert(r[0] == y);
                } else {
                    assert(t[k - 1] == y);
                    assert(t.contains(y));
                    assert(it.contains(y));
                    let q = choose|q: int| 0 <= q < it.len() && it[q] == y;
                    assert(r[q + 1] == y);
                }
            }
            if y == x {
                assert(it.contains(x));
                let q = choose|q: int| 0 <= q < it.len() && it[q] == x;
                assert(r[q + 1] == y);
            }
        }
    }
}

proof fn lemma_sort_desc(s: Seq<LogKey>)
    ensures
        sorted_desc(sort_desc(s)),
        sort_desc(s).len() == s.len(),
        forall|y: LogKey| #[trigger] sort_desc(s).contains(y) <==> s.contains(y),
    decreases s.len(),
{
    if s.len() > 0 {
        let p = s.drop_last();
        lemma_sort_desc(p);
        lemma_insert_desc(sort_desc(p), s.last());
        assert forall|y: LogKey| #[trigger] sort_desc(s).contains(y) <==> s.contains(y) by {
            if p.contains(y) {
                let k = choose|k: int| 0 <= k < p.len() && p[k] == y;
                assert(s[k] == y);
            }
            if s.contains(y) {
                let k = choose|k: int| 0 <= k < s.len() && s[k] == y;
                if k < s.len() - 1 {
                    assert(p[k] == y);
                }
            }
            if y == s.last() {
                assert(s[s.len() - 1] == y);
            }
        }
    }
}

/// The lines that sort after `y`.
pub open spec fn older_than(y: LogKey) -> spec_fn(LogKey) -> bool {
    |x: LogKey| key_lt(x, y)
}

/// The elements of a sorted sequence that satisfy `p` stay sorted.
proof fn lemma_filter_sorted(t: Seq<LogKey>, p: spec_fn(LogKey) -> bool)
    requires
        sorted_desc(t),
    ensures
        sorted_desc(t.filter(p)),
    decreases t.len(),
{
    reveal(Seq::filter);
    if t.len() > 0 {
        let init = t.drop_last();
        assert forall|i: int, j: int| 0 <= i < j < init.len() implies !key_lt(#[trigger] init[i], #[trigger] init[j]) by {
            assert(init[i] == t[i]);
            assert(init[j] == t[j]);
        }
        lemma_filter_sorted(init, p);
        let f = init.filter(p);
        if p(t.last()) {
            assert forall|i: int, j: int| 0 <= i < j < f.push(t.last()).len() implies !key_lt(
                #[trigger] f.push(t.last())[i],
                #[trigger] f.push(t.last())[j],
            ) by {
                if j == f.len() {
                    assert(f.contains(f[i]));
                    init.lemma_filter_contains_rev(p, f[i]);
                    let k = choose|k: int| 0 <= k < init.len() && init[k] == f[i];
                    assert(t[k] == f[i]);
                    assert(!key_lt(t[k], t[t.len() - 1]));
                }
            }
        }
    }
}

/// Filtering commutes with inserting into a sorted sequence.
proof fn lemma_filter_insert_desc(t: Seq<LogKey>, a: LogKey, p: spec_fn(LogKey) -> bool)
    requires
        sorted_desc(t),
    ensures
        insert_desc(t, a).filter(p) == (if p(a) {
            insert_desc(t.filter(p), a)
        } else {
            t.filter(p)
        }),
    decreases t.len(),
{
    broadcast use Seq::lemma_filter_prepend;

    if t.len() == 0 {
        assert(insert_desc(t, a) == seq![a]);
        assert(seq![a] =~= seq![a] + Seq::<LogKey>::empty());
        assert(t.filter(p) =~= Seq::<LogKey>::empty()) by {
            reveal(Seq::filter);
        }
        assert(Seq::<LogKey>::empty().filter(p) =~= Seq::<LogKey>::empty()) by {
            reveal(Seq::filter);
        }
        assert((seq![a] + Seq::<LogKey>::empty()).filter(p) == (if p(a) {
            seq![a]
        } else {
            Seq::empty()
        }) + Seq::<LogKey>::empty().filter(p));
    } else if key_lt(t[0], a) {
        assert(insert_desc(t, a) == seq![a] + t);
        if p(a) {
            let ft = t.filter(p);
            if ft.len() > 0 {
                assert(ft.contains(ft[0]));
                t.lemma_filter_contains_rev(p, ft[0]);
                let k = choose|k: int| 0 <= k < t.len() && t[k] == ft[0];
                if k > 0 {
                    assert(!key_lt(t[0], t[k]));
                }
                assert(key_lt(ft[0], a));
                assert(insert_desc(ft, a) == seq![a] + ft);
            } else {
                assert(insert_desc(ft, a) == seq![a]);
                assert(seq![a] + ft =~= seq![a]);
            }
        } else {
            assert(Seq::<LogKey>::empty() + t.filter(p) =~= t.filter(p));
        }
    } else {
        let rest = t.drop_first();
        assert(t =~= seq![t[0]] + rest);
        assert forall|i: int, j: int| 0 <= i < j < rest.len() implies !key_lt(#[trigger] rest[i], #[trigger] rest[j]) by {
            assert(rest[i] == t[i + 1]);
            assert(rest[j] == t[j + 1]);
        }
        lemma_filter_insert_desc(rest, a, p);
        assert(insert_desc(t, a) == seq![t[0]] + insert_desc(rest, a));
        let fr = rest.filter(p);
        assert(t.filter(p) == (if p(t[0]) {
            seq![t[0]]
        } else {
            Seq::empty()
        }) + fr);
        if p(a) {
            if p(t[0]) {
                assert(t.filter(p) =~= seq![t[0]] + fr);
                assert((seq![t[0]] + fr)[0] == t[0]);
                assert((seq![t[0]] + fr).drop_first() =~= fr);
                assert(insert_desc(seq![t[0]] + fr, a) == seq![t[0]] + insert_desc(fr, a));
            } else {
                assert(t.filter(p) =~= fr);
                assert(Seq::<LogKey>::empty() + insert_desc(fr, a) =~= insert_desc(fr, a));
            }
        } else {
            if p(t[0]) {
                assert(t.filter(p) =~= seq![t[0]] + fr);
            } else {
                assert(t.filter(p) =~= fr);
                assert(Seq::<LogKey>::empty() + fr =~= fr);
            }
        }
    }
}

/// Sorting commutes with filtering.
proof fn lemma_sort_desc_filter(s: Seq<LogKey>, p: spec_fn(LogKey) -> bool)
    ensures
        sort_desc(s.filter(p)) == sort_desc(s).filter(p),
    decreases s.len(),
{
    broadcast use Seq::lemma_filter_push;

    if s.len() == 0 {
        assert(s.filter(p) =~= Seq::<LogKey>::empty()) by {
            reveal(Seq::filter);
        }
        assert(sort_desc(s).filter(p) =~= Seq::<LogKey>::empty()) by {
            reveal(Seq::filter);
        }
    } else {
        let init = s.drop_last();
        let a = s.last();
        assert(s == init.push(a));
        lemma_sort_desc_filter(init, p);
        lemma_sort_desc(init);
        lemma_filter_insert_desc(sort_desc(init), a, p);
        if p(a) {
            assert(s.filter(p) == init.filter(p).push(a));
            assert(init.filter(p).push(a).drop_last() =~= init.filter(p));
        } else {
            assert(s.filter(p) == init.filter(p));
        }
    }
}

proof fn lemma_accepted_keys(q: LogQuery, cands: Seq<LogCandidate>)
    requires
        cands.len() <= usize::MAX,
    ensures
        forall|y: LogKey| #[trigger] accepted_keys(q, cands).contains(y) ==> {
            &&& 0 <= y.index < cands.len()
            &&& accepts(q, cands[y.index as int])
            &&& y.ts == cands[y.index as int].ts
            &&& y.seq == cands[y.index as int].seq
        },
    decreases cands.len(),
{
    if cands.len() > 0 {
        let p = cands.drop_last();
        lemma_accepted_keys(q, p);
        let rest = accepted_keys(q, p);
        assert forall|y: LogKey| #[trigger] accepted_keys(q, cands).contains(y) implies {
            &&& 0 <= y.index < cands.len()
            &&& accepts(q, cands[y.index as int])
            &&& y.ts == cands[y.index as int].ts
            &&& y.seq == cands[y.index as int].seq
        } by {
            let r = accepted_keys(q, cands);
            let k = choose|k: int| 0 <= k < r.len() && r[k] == y;
            if k < rest.len() {
                assert(rest.contains(y));
                assert(p[y.index as int] == cands[y.index as int]);
            } else {
                assert(accepts(q, cands.last()));
                assert(y.index == cands.len() - 1);
            }
        }
    }
}

/// Every line has its own time.
pub open spec fn all_timed(cands: Seq<LogCandidate>) -> bool {
    forall|i: int| 0 <= i < cands.len() ==> (#[trigger] cands[i]).ts is Some
}

/// No two lines share a sequence number.
pub open spec fn distinct_seqs(cands: Seq<LogCandidate>) -> bool {
    forall|i: int, j: int| 0 <= i < j < cands.len() ==> (#[trigger] cands[i]).seq != (#[trigger] cands[j]).seq
}

/// A query asks for the page after the line `y` of the query `q`: the same conditions, with
/// `y`'s time and sequence number as the cursor.
pub open spec fn next_page_query(q: LogQuery, q2: LogQuery, y: LogKey) -> bool {
    &&& q2.since == q.since
    &&& q2.levels@ == q.levels@
    &&& q2.keyword == q.keyword
    &&& q2.before == y.ts
    &&& q2.before_seq == Some(y.seq)
}

/// The lines that the next-page query accepts are those that the first query accepts and that
/// sort after the cursor line.
proof fn lemma_next_page_accepted(q: LogQuery, q2: LogQuery, y: LogKey, cands: Seq<LogCandidate>)
    requires
        all_timed(cands),
        y.ts is Some,
        time_accepted(q, y.ts, y.seq),
        next_page_query(q, q2, y),
    ensures
        accepted_keys(q2, cands) == accepted_keys(q, cands).filter(older_than(y)),
    decreases cands.len(),
{
    broadcast use Seq::lemma_filter_push;

    if cands.len() == 0 {
        assert(accepted_keys(q, cands).filter(older_than(y)) =~= Seq::<LogKey>::empty()) by {
            reveal(Seq::filter);
        }
    } else {
        let init = cands.drop_last();
        assert forall|i: int| 0 <= i < init.len() implies (#[trigger] init[i]).ts is Some by {
            assert(init[i] == cands[i]);
        }
        lemma_next_page_accepted(q, q2, y, init);
        let c = cands.last();
        assert(c == cands[cands.len() - 1]);
        let k = LogKey { ts: c.ts, seq: c.seq, index: (cands.len() - 1) as usize };
        assert(string_views(q2.levels@) == string_views(q.levels@));
        assert(accepts(q2, c) == (accepts(q, c) && key_lt(k, y)));
    }
}

/// Inserting a new element into a sequence without repeats gives one without repeats.
proof fn lemma_insert_desc_no_dup(t: Seq<LogKey>, a: LogKey)
    requires
        t.no_duplicates(),
        !t.contains(a),
        sorted_desc(t),
    ensures
        insert_desc(t, a).no_duplicates(),
    decreases t.len(),
{
    if t.len() == 0 {
        assert(insert_desc(t, a) =~= seq![a]);
    } else if key_lt(t[0], a) {
        let r = insert_desc(t, a);
        assert(r =~= seq![a] + t);
        assert forall|i: int, j: int| 0 <= i < j < r.len() implies r[i] != r[j] by {
            if i == 0 {
                assert(r[j] == t[j - 1]);
            } else {
                assert(r[i] == t[i - 1]);
                assert(r[j] == t[j - 1]);
            }
        }
    } else {
        let rest = t.drop_first();
        assert forall|i: int, j: int| 0 <= i < j < rest.len() implies !key_lt(#[trigger] rest[i], #[trigger] rest[j]) by {
            assert(rest[i] == t[i + 1]);
            assert(rest[j] == t[j + 1]);
        }
        assert(!rest.contains(a)) by {
            if rest.contains(a) {
                let k = choose|k: int| 0 <= k < rest.len() && rest[k] == a;
                assert(t[k + 1] == a);
            }
        }
        assert(!rest.contains(t[0])) by {
            if rest.contains(t[0]) {
                let k = choose|k: int| 0 <= k < rest.len() && rest[k] == t[0];
                assert(t[k + 1] == t[0]);
            }
        }
        lemma_insert_desc_no_dup(rest, a);
        lemma_insert_desc(rest, a);
        let it = insert_desc(rest, a);
        let r = insert_desc(t, a);
        assert(r =~= seq![t[0]] + it);
        assert(!it.contains(t[0]));
        assert forall|i: int, j: int| 0 <= i < j < r.len() implies r[i] != r[j] by {
            if i == 0 {
                assert(r[j] == it[j - 1]);
                assert(it.contains(it[j - 1]));
            } else {
                assert(r[i] == it[i - 1]);
                assert(r[j] == it[j - 1]);
            }
        }
    }
}

/// Sorting a sequence without repeats gives one without repeats.
proof fn lemma_sort_desc_no_dup(s: Seq<LogKey>)
    requires
        s.no_duplicates(),
    ensures
        sort_desc(s).no_duplicates(),
    decreases s.len(),
{
    if s.len() > 0 {
        let init = s.drop_last();
        assert forall|i: int, j: int| 0 <= i < j < init.len() implies init[i] != init[j] by {
            assert(init[i] == s[i]);
            assert(init[j] == s[j]);
        }
        lemma_sort_desc_no_dup(init);
        lemma_sort_desc(init);
        assert(!sort_desc(init).contains(s.last())) by {
            if init.contains(s.last()) {
                let k = choose|k: int| 0 <= k < init.len() && init[k] == s.last();
                assert(s[k] == s[s.len() - 1]);
            }
        }
        lemma_insert_desc_no_dup(sort_desc(init), s.last());
    }
}

/// The accepted keys name distinct candidates.
proof fn lemma_accepted_keys_no_dup(q: LogQuery, cands: Seq<LogCandidate>)
    requires
        cands.len() <= usize::MAX,
    ensures
        accepted_keys(q, cands).no_duplicates(),
    decreases cands.len(),
{
    if cands.len() > 0 {
        let init = cands.drop_last();
        lemma_accepted_keys_no_dup(q, init);
        lemma_accepted_keys(q, init);
        let rest = accepted_keys(q, init);
        let r = accepted_keys(q, cands);
        if accepts(q, cands.last()) {
            assert forall|i: int, j: int| 0 <= i < j < r.len() implies r[i] != r[j] by {
                if j == rest.len() {
                    assert(rest.contains(rest[i]));
                    assert(rest[i].index < init.len());
                } else {
                    assert(r[i] == rest[i]);
                    assert(r[j] == rest[j]);
                }
            }
        }
    }
}

/// Of a sorted sequence without repeats whose keys differ in sequence number, the elements
/// that sort after the one at `n - 1` are exactly those from `n` on.
proof fn lemma_older_than_is_suffix(srt: Seq<LogKey>, n: int)
    requires
        sorted_desc(srt),
        srt.no_duplicates(),
        forall|i: int, j: int| 0 <= i < srt.len() && 0 <= j < srt.len() && (#[trigger] srt[i]).seq == (#[trigger] srt[j]).seq ==> i == j,
        0 < n <= srt.len(),
    ensures
        srt.filter(older_than(srt[n - 1])) == srt.skip(n),
{
    broadcast use Seq::filter_distributes_over_add;

    let y = srt[n - 1];
    let p = older_than(y);
    assert(srt =~= srt.take(n) + srt.skip(n));
    let head = srt.take(n);
    let tail = srt.skip(n);
    assert forall|i: int| 0 <= i < head.len() implies !p(#[trigger] head[i]) by {
        assert(head[i] == srt[i]);
        if i < n - 1 {
            assert(!key_lt(srt[i], srt[n - 1]));
        }
    }
    head.lemma_all_neg_filter_empty(p);
    assert forall|i: int| 0 <= i < tail.len() implies p(#[trigger] tail[i]) by {
        assert(tail[i] == srt[n + i]);
        assert(!key_lt(srt[n - 1], srt[n + i]));
        assert(srt[n + i] != srt[n - 1]);
        assert(srt[n + i].seq != srt[n - 1].seq);
    }
    lemma_filter_keeps_all(tail, p);
    assert(srt.filter(p) == head.filter(p) + tail.filter(p));
    assert(head.filter(p) + tail =~= tail);
}

/// A sequence whose elements all satisfy `p` is its own filter.
proof fn lemma_filter_keeps_all(s: Seq<LogKey>, p: spec_fn(LogKey) -> bool)
    requires
        forall|i: int| 0 <= i < s.len() ==> p(#[trigger] s[i]),
    ensures
        s.filter(p) == s,
    decreases s.len(),
{
    broadcast use Seq::lemma_filter_push;

    if s.len() == 0 {
        assert(s.filter(p) =~= s) by {
            reveal(Seq::filter);
        }
    } else {
        let init = s.drop_last();
        assert forall|i: int| 0 <= i < init.len() implies p(#[trigger] init[i]) by {
            assert(init[i] == s[i]);
        }
        lemma_filter_keeps_all(init, p);
        assert(s == init.push(s.last()));
        assert(p(s[s.len() - 1]));
    }
}

/// Paging with the cursor of the last line of a full page continues where the page stopped:
/// the next page holds the lines that come next in the query's newest-first listing, in order,
/// none skipped and none repeated. This holds when every line has a time and no two lines
/// share a sequence number, which is how the log reader numbers lines.
pub proof fn law_cursor_paging_continues(q: LogQuery, q2: LogQuery, cands: Seq<LogCandidate>)
    requires
        cands.len() <= usize::MAX,
        all_timed(cands),
        distinct_seqs(cands),
        q.limit > 0,
        select_spec(q, cands).len() == q.limit,
        next_page_query(q, q2, select_spec(q, cands).last()),
    ensures
        select_spec(q2, cands) == take_up_to(
            sort_desc(accepted_keys(q, cands)).skip(q.limit as int),
            q2.limit as nat,
        ),
{
    let a = accepted_keys(q, cands);
    lemma_accepted_keys(q, cands);
    lemma_sort_desc(a);
    let srt = sort_desc(a);
    let n = q.limit as int;
    assert(n <= srt.len());
    let y = srt[n - 1];
    assert(select_spec(q, cands).last() == y);
    assert(srt.contains(y));
    assert(a.contains(y));
    assert(accepts(q, cands[y.index as int]));
    assert(cands[y.index as int].ts is Some);
    lemma_next_page_accepted(q, q2, y, cands);
    lemma_sort_desc_filter(a, older_than(y));
    lemma_accepted_keys_no_dup(q, cands);
    lemma_sort_desc_no_dup(a);
    assert forall|i: int, j: int|
        0 <= i < srt.len() && 0 <= j < srt.len() && (#[trigger] srt[i]).seq == (#[trigger] srt[j]).seq implies i == j by {
        assert(srt.contains(srt[i]));
        assert(srt.contains(srt[j]));
        let ci = srt[i].index as int;
        let cj = srt[j].index as int;
        if ci != cj {
            if ci < cj {
                assert(cands[ci].seq != cands[cj].seq);
            } else {
                assert(cands[cj].seq != cands[ci].seq);
            }
        }
        assert(srt[i].ts == srt[j].ts);
        assert(srt[i] == srt[j]);
    }
    lemma_older_than_is_suffix(srt, n);
}

/// What a log query returns is newest first, holds at most `limit` lines, and names only
/// candidates that the query accepts, with their own time and sequence number.
pub proof fn law_log_selection(q: LogQuery, cands: Seq<LogCandidate>)
    requires
        cands.len() <= usize::MAX,
    ensures
        sorted_desc(select_spec(q, cands)),
        select_spec(q, cands).len() <= q.limit,
        forall|k: int| 0 <= k < select_spec(q, cands).len() ==> {
            let y = #[trigger] select_spec(q, cands)[k];
            &&& 0 <= y.index < cands.len()
            &&& accepts(q, cands[y.index as int])
            &&& y.ts == cands[y.index as int].ts
            &&& y.seq == cands[y.index as int].seq
        },
{
    let a = accepted_keys(q, cands);
    lemma_accepted_keys(q, cands);
    lemma_sort_desc(a);
    let s = sort_desc(a);
    let r = select_spec(q, cands);
    assert forall|k: int| 0 <= k < r.len() implies {
        let y = #[trigger] r[k];
        &&& 0 <= y.index < cands.len()
        &&& accepts(q, cands[y.index as int])
        &&& y.ts == cands[y.index as int].ts
        &&& y.seq == cands[y.index as int].seq
    } by {
        assert(r[k] == s[k]);
        assert(s.contains(s[k]));
        assert(a.contains(r[k]));
    }
    assert forall|i: int, j: int| 0 <= i < j < r.len() implies !key_lt(#[trigger] r[i], #[trigger] r[j]) by {
        assert(r[i] == s[i]);
        assert(r[j] == s[j]);
    }
}

/// A page requested with the cursor `(before, before_seq)` holds only lines strictly older
/// than the cursor: an earlier time, or the same time and a smaller sequence number.
pub proof fn law_cursor_pages_are_older(q: LogQuery, cands: Seq<LogCandidate>, k: int)
    requires
        cands.len() <= usize::MAX,
        q.before is Some,
        0 <= k < select_spec(q, cands).len(),
    ensures
        ({
            let y = select_spec(q, cands)[k];
            let t = filter_ts(y.ts);
            let b = q.before->0;
            t < b || (t == b && (q.before_seq matches Some(bs) && y.seq < bs))
        }),
{
    law_log_selection(q, cands);
    let y = select_spec(q, cands)[k];
    assert(accepts(q, cands[y.index as int]));
}

/// What each condition of a query asks of a line. With `t` the line's time (`i64::MAX` when it
/// has none): `since` keeps lines at or after it; `before` keeps lines earlier than it, and at
/// exactly that time only those whose sequence number is below `before_seq` (none when no
/// `before_seq` is given); a non-empty level list keeps lines whose lowercased level is in it;
/// a keyword keeps lines whose lowercased text contains it anywhere. A line is kept exactly
/// when it meets all of them.
pub proof fn law_query_conditions(q: LogQuery, c: LogCandidate)
    ensures
        accepts(q, c) <==> ({
            let t = match c.ts {
                Some(t) => t,
                None => i64::MAX,
            };
            let text = lowercase_of(c.text@);
            &&& (q.since matches Some(s) ==> s <= t)
            &&& (q.before matches Some(b) ==> (t < b || (t == b && (q.before_seq matches Some(bs) && c.seq < bs))))
            &&& (q.levels.len() > 0 ==> (c.level matches Some(l) && exists|j: int|
                0 <= j < q.levels.len() && #[trigger] q.levels@[j]@ == lowercase_of(l@)))
            &&& (q.keyword matches Some(k) ==> exists|p: int|
                0 <= p && p + k@.len() <= text.len() && #[trigger] text.subrange(p, p + k@.len()) == k@)
        }),
{
    if q.levels.len() > 0 {
        if let Some(l) = c.level {
            let v = string_views(q.levels@);
            if v.contains(lowercase_of(l@)) {
                let j = choose|j: int| 0 <= j < v.len() && v[j] == lowercase_of(l@);
                assert(q.levels@[j]@ == lowercase_of(l@));
            }
            if exists|j: int| 0 <= j < q.levels.len() && #[trigger] q.levels@[j]@ == lowercase_of(l@) {
                let j = choose|j: int| 0 <= j < q.levels.len() && #[trigger] q.levels@[j]@ == lowercase_of(l@);
                assert(v[j] == lowercase_of(l@));
            }
        }
    }
}

proof fn lemma_accepted_keys_complete(q: LogQuery, cands: Seq<LogCandidate>, i: int)
    requires
        cands.len() <= usize::MAX,
        0 <= i < cands.len(),
        accepts(q, cands[i]),
    ensures
        accepted_keys(q, cands).contains(LogKey { ts: cands[i].ts, seq: cands[i].seq, index: i as usize }),
    decreases cands.len(),
{
    let p = cands.drop_last();
    let rest = accepted_keys(q, p);
    let y = LogKey { ts: cands[i].ts, seq: cands[i].seq, index: i as usize };
    if i == cands.len() - 1 {
        assert(accepted_keys(q, cands) == rest.push(y));
        assert(accepted_keys(q, cands)[rest.len() as int] == y);
    } else {
        assert(p[i] == cands[i]);
        lemma_accepted_keys_complete(q, p, i);
        let k = choose|k: int| 0 <= k < rest.len() && rest[k] == y;
        let r = accepted_keys(q, cands);
        assert(r[k] == y);
    }
}

/// A query returns its lines newest first: by time (a line without one counting as time 0)
/// descending, and at equal times by sequence number descending. No line the query keeps is
/// left out unless the page is full (`limit` lines) and that line is not newer than the last
/// line returned.
pub proof fn law_log_selection_complete(q: LogQuery, cands: Seq<LogCandidate>, i: int)
    requires
        cands.len() <= usize::MAX,
    ensures
        forall|a: int, b: int| 0 <= a < b < select_spec(q, cands).len() ==> {
            let x = #[trigger] select_spec(q, cands)[a];
            let y = #[trigger] select_spec(q, cands)[b];
            let tx = match x.ts {
                Some(t) => t,
                None => 0,
            };
            let ty = match y.ts {
                Some(t) => t,
                None => 0,
            };
            tx > ty || (tx == ty && x.seq >= y.seq)
        },
        0 <= i < cands.len() && accepts(q, cands[i]) ==> {
            ||| exists|k: int| 0 <= k < select_spec(q, cands).len() && #[trigger] select_spec(q, cands)[k].index == i
            ||| select_spec(q, cands).len() == q.limit && (q.limit == 0 || {
                let l = select_spec(q, cands).last();
                let tl = match l.ts {
                    Some(t) => t,
                    None => 0,
                };
                let tc = match cands[i].ts {
                    Some(t) => t,
                    None => 0,
                };
                tl > tc || (tl == tc && l.seq >= cands[i].seq)
            })
        },
{
    law_log_selection(q, cands);
    let r = select_spec(q, cands);
    assert forall|a: int, b: int| 0 <= a < b < r.len() implies {
        let x = #[trigger] r[a];
        let y = #[trigger] r[b];
        let tx = match x.ts {
            Some(t) => t,
            None => 0,
        };
        let ty = match y.ts {
            Some(t) => t,
            None => 0,
        };
        tx > ty || (tx == ty && x.seq >= y.seq)
    } by {
        assert(!key_lt(r[a], r[b]));
    }
    if 0 <= i < cands.len() && accepts(q, cands[i]) {
        let acc = accepted_keys(q, cands);
        let y = LogKey { ts: cands[i].ts, seq: cands[i].seq, index: i as usize };
        lemma_accepted_keys_complete(q, cands, i);
        lemma_sort_desc(acc);
        let s = sort_desc(acc);
        assert(s.contains(y));
        let p = choose|p: int| 0 <= p < s.len() && s[p] == y;
        if p < q.limit {
            assert(r[p] == y);
            assert(r[p].index == i);
        } else {
            assert(r.len() == q.limit);
            if q.limit > 0 {
                let n = q.limit as int;
                assert(r.last() == s[n - 1]);
                assert(!key_lt(s[n - 1], s[p]));
            }
        }
    }
}

/// Log verbosity, from silent to most verbose.
#[derive(Debug, Clone, Copy, PartialEq, Eq, Structural)]
pub enum LogLevel {
    Off,
    Error,
    Warn,
    Info,
    Debug,
    Trace,
}

/// `c` with ASCII uppercase letters lowered.
pub open spec fn ascii_lower(c: char) -> char {
    if 'A' <= c && c <= 'Z' {
        ((c as u32) + 32) as char
    } else {
        c
    }
}

/// `a` and `b` are equal when ASCII case is ignored (`str::eq_ignore_ascii_case`).
pub open spec fn eq_ignore_ascii_case(a: Seq<char>, b: Seq<char>) -> bool {
    a.len() == b.len() && forall|k: int| 0 <= k < a.len() ==> ascii_lower(#[trigger] a[k]) == ascii_lower(b[k])
}

/// `ds` is a non-empty run of ASCII digits.
pub open spec fn all_digits(ds: Seq<char>) -> bool {
    ds.len() > 0 && forall|k: int| 0 <= k < ds.len() ==> '0' <= #[trigger] ds[k] && ds[k] <= '9'
}

/// The decimal value of a run of ASCII digits.
pub open spec fn digits_value(ds: Seq<char>) -> nat
    decreases ds.len(),
{
    if ds.len() == 0 {
        0
    } else {
        digits_value(ds.drop_last()) * 10 + ((ds.last() as u32) - 48) as nat
    }
}

/// The digits of an unsigned decimal number as `usize::from_str` reads it: an optional `+`
/// followed by at least one ASCII digit; `None` for any other text.
pub open spec fn unsigned_digits(s: Seq<char>) -> Option<Seq<char>> {
    if s.len() > 0 && s[0] == '+' && all_digits(s.drop_first()) {
        Some(s.drop_first())
    } else if all_digits(s) {
        Some(s)
    } else {
        None
    }
}

/// The level for the numbers 0 to 5.
pub open spec fn level_of_number(v: nat) -> Option<LogLevel> {
    if v == 0 {
        Some(LogLevel::Off)
    } else if v == 1 {
        Some(LogLevel::Error)
    } else if v == 2 {
        Some(LogLevel::Warn)
    } else if v == 3 {
        Some(LogLevel::Info)
    } else if v == 4 {
        Some(LogLevel::Debug)
    } else if v == 5 {
        Some(LogLevel::Trace)
    } else {
        None
    }
}

/// `tracing`'s `LevelFilter::from_str`: a number 0 (off) to 5 (trace), the empty text (error),
/// or a level name in any ASCII case: `error`, `warn`, `info`, `debug`, `trace`, `off`.
pub open spec fn level_filter_of(s: Seq<char>) -> Option<LogLevel> {
    match unsigned_digits(s) {
        Some(ds) => level_of_number(digits_value(ds)),
        None => if s.len() == 0 {
            Some(LogLevel::Error)
        } else if eq_ignore_ascii_case(s, "error"@) {
            Some(LogLevel::Error)
        } else if eq_ignore_ascii_case(s, "warn"@) {
            Some(LogLevel::Warn)
        } else if eq_ignore_ascii_case(s, "info"@) {
            Some(LogLevel::Info)
        } else if eq_ignore_ascii_case(s, "debug"@) {
            Some(LogLevel::Debug)
        } else if eq_ignore_ascii_case(s, "trace"@) {
            Some(LogLevel::Trace)
        } else if eq_ignore_ascii_case(s, "off"@) {
            Some(LogLevel::Off)
        } else {
            None
        },
    }
}

/// `s.parse::<tracing::level_filters::LevelFilter>()`, the filter mapped to the level of the
/// same name. The contract restates `LevelFilter::from_str` of `tracing-core`: a number 0
/// (off) to 5 (trace), the empty text (error), or a level name in any ASCII case.
#[verifier::external_body]
fn parse_level_filter(s: &str) -> (r: Option<LogLevel>)
    ensures
        r == level_filter_of(s@),
{
    match s.parse::<LevelFilter>() {
        Ok(f) if f == LevelFilter::OFF => Some(LogLevel::Off),
        Ok(f) if f == LevelFilter::ERROR => Some(LogLevel::Error),
        Ok(f) if f == LevelFilter::WARN => Some(LogLevel::Warn),
        Ok(f) if f == LevelFilter::INFO => Some(LogLevel::Info),
        Ok(f) if f == LevelFilter::DEBUG => Some(LogLevel::Debug),
        Ok(_) => Some(LogLevel::Trace),
        Err(_) => None,
    }
}

/// The configured level named by `level`, and whether the name was understood; a name that is
/// not understood configures `Info`.
pub fn parse_level(level: &str) -> (r: (LogLevel, bool))
    ensures
        r.1 == level_filter_of(level@) is Some,
        r.0 == match level_filter_of(level@) {
            Some(l) => l,
            None => LogLevel::Info,
        },
{
    match parse_level_filter(level) {
        Some(l) => (l, true),
        None => (LogLevel::Info, false),
    }
}

/// A calendar date `(year, month, day)` read from a log file name by chrono's
/// `NaiveDate::parse_from_str(s, "%Y-%m-%d")`.
pub uninterp spec fn parsed_log_date(s: Seq<char>) -> Option<(i32, u32, u32)>;

/// The earliest year that chrono's `NaiveDate` holds.
pub open spec fn chrono_min_year() -> int {
    -262143
}

/// The latest year that chrono's `NaiveDate` holds.
pub open spec fn chrono_max_year() -> int {
    262142
}

/// Leap years of the proleptic Gregorian calendar.
pub open spec fn is_leap_year(y: int) -> bool {
    y % 4 == 0 && (y % 100 != 0 || y % 400 == 0)
}

/// The number of days of month `m` of year `y`.
pub open spec fn days_in_month(y: int, m: int) -> int {
    if m == 2 {
        if is_leap_year(y) {
            29
        } else {
            28
        }
    } else if m == 4 || m == 6 || m == 9 || m == 11 {
        30
    } else {
        31
    }
}

/// A date that exists and that chrono's `NaiveDate` can hold.
pub open spec fn valid_date(y: int, m: int, d: int) -> bool {
    &&& chrono_min_year() <= y <= chrono_max_year()
    &&& 1 <= m <= 12
    &&& 1 <= d <= days_in_month(y, m)
}

/// The number of days from 1970-01-01 to the date `(y, m, d)` of the proleptic Gregorian
/// calendar (negative before it).
pub open spec fn days_from_civil(y: int, m: int, d: int) -> int {
    let yy = if m <= 2 { y - 1 } else { y };
    let era = yy / 400;
    let yoe = yy - era * 400;
    let mp = if m > 2 { m - 3 } else { m + 9 };
    let doy = (153 * mp + 2) / 5 + d - 1;
    let doe = yoe * 365 + yoe / 4 - yoe / 100 + doy;
    era * 146097 + doe - 719468
}

/// The date `(y, m, d)` that lies `z` days after 1970-01-01 (before it when negative).
pub open spec fn civil_from_days(z: int) -> (int, int, int) {
    let zz = z + 719468;
    let era = zz / 146097;
    let doe = zz - era * 146097;
    let yoe = (doe - doe / 1460 + doe / 36524 - doe / 146096) / 365;
    let doy = doe - (365 * yoe + yoe / 4 - yoe / 100);
    let mp = (5 * doy + 2) / 153;
    let d = doy - (153 * mp + 2) / 5 + 1;
    let m = if mp < 10 { mp + 3 } else { mp - 9 };
    let y = yoe + era * 400 + (if m <= 2 { 1int } else { 0int });
    (y, m, d)
}

/// The UTC calendar date of a Unix time in milliseconds, as chrono's
/// `DateTime::from_timestamp_millis(ts).map(|dt| dt.date_naive())` gives it: the date of the
/// day that holds `ts`, when chrono can hold it.
pub open spec fn utc_date_of_millis(ts: i64) -> Option<(i32, u32, u32)> {
    let z = ts / 86400000;
    if days_from_civil(chrono_min_year(), 1, 1) <= z && z <= days_from_civil(chrono_max_year(), 12, 31) {
        let c = civil_from_days(z);
        Some((c.0 as i32, c.1 as u32, c.2 as u32))
    } else {
        None
    }
}

/// The Unix time in milliseconds of UTC midnight opening a calendar date, as chrono gives it
/// (`None` for a date that does not exist or that chrono cannot hold).
pub open spec fn utc_midnight_millis(year: i32, month: u32, day: u32) -> Option<i64> {
    if valid_date(year as int, month as int, day as int) {
        Some((days_from_civil(year as int, month as int, day as int) * 86400000) as i64)
    } else {
        None
    }
}

/// chrono's `NaiveDate::parse_from_str(s, "%Y-%m-%d")`, the date given as year, month, day.
#[verifier::external_body]
fn parse_ymd(s: &str) -> (r: Option<(i32, u32, u32)>)
    ensures
        r == parsed_log_date(s@),
{
    chrono::NaiveDate::parse_from_str(s, "%Y-%m-%d").ok().map(|d| (d.year(), d.month(), d.day()))
}

/// chrono's `DateTime::from_timestamp_millis(ts)` and `date_naive`. The contract restates
/// chrono's calendar: the proleptic Gregorian date of the day that holds `ts`, within the
/// years chrono holds.
#[verifier::external_body]
fn date_of_millis(ts: i64) -> (r: Option<(i32, u32, u32)>)
    ensures
        r == utc_date_of_millis(ts),
{
    chrono::DateTime::from_timestamp_millis(ts).map(|dt| dt.date_naive()).map(
        |d| (d.year(), d.month(), d.day()),
    )
}

/// chrono's `NaiveDate::from_ymd_opt`, then `and_hms_opt(0, 0, 0)`, `and_utc` and
/// `timestamp_millis`. The contract restates chrono's calendar: a date that exists within the
/// years chrono holds, at 86400000 milliseconds per day from 1970-01-01.
#[verifier::external_body]
fn midnight_millis(year: i32, month: u32, day: u32) -> (r: Option<i64>)
    ensures
        r == utc_midnight_millis(year, month, day),
{
    chrono::NaiveDate::from_ymd_opt(year, month, day).map(
        |d| d.and_hms_opt(0, 0, 0).unwrap_or_default().and_utc().timestamp_millis(),
    )
}

/// `s` ends with `p`.
pub open spec fn has_suffix(s: Seq<char>, p: Seq<char>) -> bool {
    p.len() <= s.len() && s.subrange(s.len() - p.len(), s.len() as int) == p
}

/// The date part of a log file name `unibot.<date>.log`, when the name has that shape.
pub open spec fn log_name_date_part(name: Seq<char>) -> Option<Seq<char>> {
    if crate::text::has_prefix(name, "unibot."@) && has_suffix(name.skip(7), ".log"@) {
        Some(name.subrange(7, name.len() - 4))
    } else {
        None
    }
}

/// The date in a log file name `unibot.YYYY-MM-DD.log`.
pub open spec fn log_file_date_spec(name: Seq<char>) -> Option<(i32, u32, u32)> {
    match log_name_date_part(name) {
        Some(d) => parsed_log_date(d),
        None => None,
    }
}

fn ends_with(s: &Vec<char>, p: &Vec<char>) -> (r: bool)
    ensures
        r == has_suffix(s@, p@),
{
    if p.len() > s.len() {
        return false;
    }
    let off = s.len() - p.len();
    let mut i: usize = 0;
    while i < p.len()
        invariant
            off == s.len() - p.len(),
            p.len() <= s.len(),
            i <= p.len(),
            forall|j: int| 0 <= j < i ==> s@[off + j] == p@[j],
        decreases p.len() - i,
    {
        if s[off + i] != p[i] {
            assert(s@.subrange(off as int, s@.len() as int)[i as int] != p@[i as int]);
            return false;
        }
        i += 1;
    }
    assert(s@.subrange(off as int, s@.len() as int) =~= p@);
    true
}

/// The date in a log file name `unibot.YYYY-MM-DD.log`, if the name has that shape and the
/// date parses.
pub fn log_file_date(name: &str) -> (r: Option<(i32, u32, u32)>)
    ensures
        r == log_file_date_spec(name@),
{
    let cs = chars_of(name);
    let prefix = chars_of("unibot.");
    let suffix = chars_of(".log");
    proof {
        reveal_strlit("unibot.");
        reveal_strlit(".log");
    }
    if !crate::text::starts_with(&cs, &prefix) {
        return None;
    }
    let rest = crate::text::string_of(&cs, 7, cs.len());
    let rest_cs = chars_of(rest.as_str());
    if !ends_with(&rest_cs, &suffix) {
        return None;
    }
    assert(cs@.skip(7) =~= rest_cs@);
    let middle = crate::text::string_of(&cs, 7, cs.len() - 4);
    parse_ymd(middle.as_str())
}

/// Calendar order of dates given as `(year, month, day)`.
pub open spec fn date_before(a: (i32, u32, u32), b: (i32, u32, u32)) -> bool {
    a.0 < b.0 || (a.0 == b.0 && (a.1 < b.1 || (a.1 == b.1 && a.2 < b.2)))
}

fn date_before_exec(a: (i32, u32, u32), b: (i32, u32, u32)) -> (r: bool)
    ensures
        r == date_before(a, b),
{
    a.0 < b.0 || (a.0 == b.0 && (a.1 < b.1 || (a.1 == b.1 && a.2 < b.2)))
}

/// A file of the log directory is read by a query whose days run from `min_date` to
/// `max_date`: it is a `.log` file, and a date in its name is not outside those days.
pub open spec fn log_file_wanted_spec(
    name: Seq<char>,
    min_date: Option<(i32, u32, u32)>,
    max_date: Option<(i32, u32, u32)>,
) -> bool {
    let d = log_file_date_spec(name);
    &&& has_suffix(name, ".log"@)
    &&& !(min_date matches Some(lo) && (d matches Some(x) && date_before(x, lo)))
    &&& !(max_date matches Some(hi) && (d matches Some(x) && date_before(hi, x)))
}

/// Whether a file of the log directory is read for a query whose days run from `min_date`
/// to `max_date`.
pub fn log_file_wanted(
    name: &str,
    min_date: Option<(i32, u32, u32)>,
    max_date: Option<(i32, u32, u32)>,
) -> (r: bool)
    ensures
        r == log_file_wanted_spec(name@, min_date, max_date),
{
    let cs = chars_of(name);
    let suffix = chars_of(".log");
    if !ends_with(&cs, &suffix) {
        return false;
    }
    let d = log_file_date(name);
    match (min_date, d) {
        (Some(lo), Some(x)) => {
            if date_before_exec(x, lo) {
                return false;
            }
        },
        _ => {},
    }
    match (max_date, d) {
        (Some(hi), Some(x)) => {
            if date_before_exec(hi, x) {
                return false;
            }
        },
        _ => {},
    }
    true
}

/// The first and last day whose files a query reads: the UTC dates of `since` and `before`.
pub fn query_date_bounds(q: &LogQuery) -> (r: (Option<(i32, u32, u32)>, Option<(i32, u32, u32)>))
    ensures
        r.0 == (match q.since {
            Some(t) => utc_date_of_millis(t),
            None => None::<(i32, u32, u32)>,
        }),
        r.1 == (match q.before {
            Some(t) => utc_date_of_millis(t),
            None => None::<(i32, u32, u32)>,
        }),
{
    let lo = match q.since {
        Some(t) => date_of_millis(t),
        None => None,
    };
    let hi = match q.before {
        Some(t) => date_of_millis(t),
        None => None,
    };
    (lo, hi)
}

/// The `ts` given to a line that has none (`has_ts` false): UTC midnight of the date in its
/// file's name, or 0 when chrono cannot make that date; nothing for a line that has one.
pub open spec fn default_ts(has_ts: bool, file_date: Option<(i32, u32, u32)>) -> Option<i64> {
    if has_ts {
        None::<i64>
    } else {
        match file_date {
            Some(d) => match utc_midnight_millis(d.0, d.1, d.2) {
                Some(m) => Some(m),
                None => Some(0i64),
            },
            None => None::<i64>,
        }
    }
}

/// The `ts` given to a line that has none: UTC midnight of the date in its file's name.
pub fn default_entry_ts(has_ts: bool, file_date: Option<(i32, u32, u32)>) -> (r: Option<i64>)
    ensures
        r == default_ts(has_ts, file_date),
{
    if has_ts {
        return None;
    }
    match file_date {
        Some(d) => match midnight_millis(d.0, d.1, d.2) {
            Some(m) => Some(m),
            None => Some(0),
        },
        None => None,
    }
}

/// Milliseconds in a day.
pub const DAY_MILLIS: i128 = 86400000;

/// The time before which log files are deleted: `retention_days` before `now`, not below 0;
/// `None` when `retention_days` is not positive (nothing is deleted).
pub open spec fn cutoff_spec(now: i64, retention_days: i64) -> Option<i64> {
    if retention_days <= 0 {
        None
    } else {
        let c = now - retention_days * 86400000;
        Some(if c < 0 {
            0
        } else {
            c as i64
        })
    }
}

/// The time before which log files are deleted, or `None` when nothing is to be deleted.
pub fn cleanup_cutoff(now: i64, retention_days: i64) -> (r: Option<i64>)
    ensures
        r == cutoff_spec(now, retention_days),
{
    if retention_days <= 0 {
        return None;
    }
    let retention_ms: i128 = (retention_days as i128) * DAY_MILLIS;
    let c: i128 = (now as i128) - retention_ms;
    if c < 0 {
        Some(0)
    } else {
        Some(c as i64)
    }
}

/// A file is deleted by a cleanup with cutoff `cutoff`: a `.log` file whose name holds a date
/// whose UTC midnight is before the cutoff.
pub open spec fn should_delete_spec(name: Seq<char>, cutoff: i64) -> bool {
    &&& has_suffix(name, ".log"@)
    &&& log_file_date_spec(name) matches Some(d)
    &&& (match utc_midnight_millis(d.0, d.1, d.2) {
        Some(m) => m,
        None => 0i64,
    }) < cutoff
}

/// Whether the cleanup deletes the log file `name`.
pub fn should_delete_log(name: &str, cutoff: i64) -> (r: bool)
    ensures
        r == should_delete_spec(name@, cutoff),
{
    let cs = chars_of(name);
    let suffix = chars_of(".log");
    if !ends_with(&cs, &suffix) {
        return false;
    }
    match log_file_date(name) {
        Some(d) => {
            let m = match midnight_millis(d.0, d.1, d.2) {
                Some(m) => m,
                None => 0,
            };
            m < cutoff
        },
        None => false,
    }
}

/// A log cleanup is due when the application starts if none was ever recorded (`0`) or the last
/// one ran before 4:00 today (`today_4am`, in Unix milliseconds).
pub fn cleanup_due_at_startup(last_cleanup_at: i64, today_4am: i64) -> (r: bool)
    ensures
        r == (last_cleanup_at == 0 || last_cleanup_at < today_4am),
{
    last_cleanup_at == 0 || last_cleanup_at < today_4am
}

/// The wait, in milliseconds, from `now` until the next scheduled cleanup at `next_run_at`;
/// nothing when that time has passed.
pub fn cleanup_delay_ms(now: i64, next_run_at: i64) -> (r: u64)
    ensures
        r == (if next_run_at > now {
            next_run_at - now
        } else {
            0
        }),
{
    if next_run_at > now {
        let d: i128 = (next_run_at as i128) - (now as i128);
        d as u64
    } else {
        0
    }
}

/// The total length of the first `n` lines.
pub open spec fn lengths_before(lengths: Seq<u64>, n: int) -> int
    decreases n,
{
    if n <= 0 {
        0
    } else {
        lengths_before(lengths, n - 1) + lengths[n - 1]
    }
}

/// The sequence numbers of the lines of one log file: the file's first number `base` plus the
/// byte offset at which each line starts, that is the total length of the lines before it.
pub fn file_line_seqs(base: u64, lengths: &Vec<u64>) -> (r: Vec<u64>)
    requires
        base + lengths_before(lengths@, lengths.len() as int) <= u64::MAX,
    ensures
        r.len() == lengths.len(),
        forall|i: int| 0 <= i < r.len() ==> r[i] == base + lengths_before(lengths@, i),
{
    let mut out: Vec<u64> = Vec::new();
    let mut offset: u64 = 0;
    let mut i: usize = 0;
    while i < lengths.len()
        invariant
            i <= lengths.len(),
            out.len() == i,
            offset == lengths_before(lengths@, i as int),
            base + lengths_before(lengths@, lengths.len() as int) <= u64::MAX,
            forall|k: int| 0 <= k < i ==> out[k] == base + lengths_before(lengths@, k),
        decreases lengths.len() - i,
    {
        proof {
            lemma_lengths_before_monotone(lengths@, i as int, lengths.len() as int);
            lemma_lengths_before_monotone(lengths@, i + 1, lengths.len() as int);
        }
        out.push(base + offset);
        offset = offset + lengths[i];
        i += 1;
    }
    out
}

/// The first sequence number of the next log file: this file's first number plus its size.
pub fn next_file_base(base: u64, file_size: u64) -> (r: u64)
    requires
        base + file_size <= u64::MAX,
    ensures
        r == base + file_size,
{
    base + file_size
}

/// The total length of the first lines grows with their number, by at least one per line
/// when no line is empty.
proof fn lemma_lengths_before_monotone(lengths: Seq<u64>, i: int, j: int)
    requires
        0 <= i <= j <= lengths.len(),
    ensures
        lengths_before(lengths, i) <= lengths_before(lengths, j),
        (forall|k: int| 0 <= k < lengths.len() ==> #[trigger] lengths[k] >= 1) ==> lengths_before(
            lengths,
            i,
        ) + (j - i) <= lengths_before(lengths, j),
    decreases j - i,
{
    if i < j {
        lemma_lengths_before_monotone(lengths, i, j - 1);
    }
}

/// Line sequence numbers increase through a file, and stay below the first number of the next
/// file, when every line read holds at least one byte and the lines fit in the file's size.
pub proof fn law_line_seqs_increase(base: int, lengths: Seq<u64>, file_size: int)
    requires
        forall|k: int| 0 <= k < lengths.len() ==> #[trigger] lengths[k] >= 1,
        lengths_before(lengths, lengths.len() as int) <= file_size,
    ensures
        forall|i: int, j: int|
            0 <= i < j < lengths.len() ==> base + lengths_before(lengths, i) < base + lengths_before(
                lengths,
                j,
            ),
        forall|i: int| 0 <= i < lengths.len() ==> base + lengths_before(lengths, i) < base + file_size,
{
    assert forall|i: int, j: int| 0 <= i < j < lengths.len() implies base + lengths_before(lengths, i) < base
        + lengths_before(lengths, j) by {
        lemma_lengths_before_monotone(lengths, i, j);
    }
    assert forall|i: int| 0 <= i < lengths.len() implies base + lengths_before(lengths, i) < base
        + file_size by {
        lemma_lengths_before_monotone(lengths, i, lengths.len() as int);
    }
}

/// What a log line holds when it is JSON, as `serde_json::from_str::<Value>` reads it: whether
/// the value is an object, whether it is `null`, whether it has a `ts` field, that field when
/// it is an integer within `i64`, and its `level` field when it is a string. `None` when the
/// line is not JSON.
pub uninterp spec fn parsed_json_line(line: Seq<char>) -> Option<(bool, bool, bool, Option<i64>, Option<Seq<char>>)>;

/// Fields can be set on a parsed value: it is an object, or `null` (which becomes one).
pub open spec fn parsed_settable(p: (bool, bool, bool, Option<i64>, Option<Seq<char>>)) -> bool {
    p.0 || p.1
}

/// The JSON text (`Value::to_string`) of a line's value after its `ts` field is set to `ts`
/// (when one is given) and its `seq` field to `seq`.
pub uninterp spec fn json_line_text(line: Seq<char>, ts: Option<i64>, seq: u64) -> Seq<char>;

/// `serde_json::from_str::<serde_json::Value>(line)`, read as `parsed_json_line` describes:
/// `is_object()`, `is_null()`, `get("ts").is_some()`, `get("ts")` with `as_i64`, and
/// `get("level")` with `as_str`. The result is named, not written out.
#[verifier::external_body]
fn parse_json_line(line: &str) -> (r: Option<(bool, bool, bool, Option<i64>, Option<String>)>)
    ensures
        match r {
            Some(t) => parsed_json_line(line@) == Some((t.0, t.1, t.2, t.3, opt_view(t.4))),
            None => parsed_json_line(line@) is None,
        },
{
    match serde_json::from_str::<serde_json::Value>(line) {
        Ok(v) => {
            let ts = v.get("ts");
            let level = v.get("level").and_then(serde_json::Value::as_str);
            Some((v.is_object(), v.is_null(), ts.is_some(), ts.and_then(serde_json::Value::as_i64), level.map(String::from)))
        },
        Err(_) => None,
    }
}

/// `serde_json`: the line's value with `value["ts"] = ts` (when given) and
/// `value["seq"] = seq`, written back with `to_string`. Setting a field panics on a value that
/// is neither an object nor `null`, which `requires` rules out. The result is named.
#[verifier::external_body]
fn serialize_json_line(line: &str, ts: Option<i64>, seq: u64) -> (r: String)
    requires
        parsed_json_line(line@) matches Some(p) && parsed_settable(p),
    ensures
        r@ == json_line_text(line@, ts, seq),
{
    let mut value: serde_json::Value = serde_json::from_str(line).unwrap_or_default();
    if let Some(t) = ts {
        value["ts"] = t.into();
    }
    value["seq"] = seq.into();
    value.to_string()
}

/// A line is read without setting fields on a value that has none: it is blank (and never
/// parsed), it is not JSON, or its value is an object or `null`.
pub open spec fn line_fields_settable(line: Seq<char>) -> bool {
    crate::text::trim_seq(line).len() == 0 || (parsed_json_line(line) matches Some(p) ==> parsed_settable(p))
}

/// What a line offers to a query, as `(ts, seq, level, text)`: nothing for a blank line or a
/// line that is not JSON; otherwise its value given the default `ts` when it has none and its
/// sequence number `seq`, with that time (or its own integer `ts`), its string `level`, and
/// its JSON text.
pub open spec fn candidate_model(line: Seq<char>, file_date: Option<(i32, u32, u32)>, seq: u64) -> Option<
    (Option<i64>, u64, Option<Seq<char>>, Seq<char>),
> {
    if crate::text::trim_seq(line).len() == 0 {
        None
    } else {
        match parsed_json_line(line) {
            None => None,
            Some(p) => {
                let inserted = default_ts(p.2, file_date);
                let ts = match inserted {
                    Some(t) => Some(t),
                    None => p.3,
                };
                Some((ts, seq, p.4, json_line_text(line, inserted, seq)))
            },
        }
    }
}

/// The parts of a candidate that a query reads.
pub open spec fn candidate_view(c: LogCandidate) -> (Option<i64>, u64, Option<Seq<char>>, Seq<char>) {
    (c.ts, c.seq, opt_view(c.level), c.text@)
}

fn candidate_from_parsed(
    line: &str,
    parsed: (bool, bool, bool, Option<i64>, Option<String>),
    file_date: Option<(i32, u32, u32)>,
    seq: u64,
) -> (r: LogCandidate)
    requires
        parsed_json_line(line@) == Some((parsed.0, parsed.1, parsed.2, parsed.3, opt_view(parsed.4))),
        parsed.0 || parsed.1,
        crate::text::trim_seq(line@).len() > 0,
    ensures
        candidate_model(line@, file_date, seq) == Some(candidate_view(r)),
{
    let inserted = default_entry_ts(parsed.2, file_date);
    let ts = match inserted {
        Some(t) => Some(t),
        None => parsed.3,
    };
    let text = serialize_json_line(line, inserted, seq);
    LogCandidate { ts, seq, level: parsed.4, text }
}

/// What one line of a log file offers to a query (see `candidate_model`).
pub fn log_candidate(line: &str, file_date: Option<(i32, u32, u32)>, seq: u64) -> (r: Option<LogCandidate>)
    requires
        line_fields_settable(line@),
    ensures
        match r {
            Some(c) => candidate_model(line@, file_date, seq) == Some(candidate_view(c)),
            None => candidate_model(line@, file_date, seq) is None,
        },
{
    if trim(line).unicode_len() == 0 {
        return None;
    }
    match parse_json_line(line) {
        Some(parsed) => Some(candidate_from_parsed(line, parsed, file_date, seq)),
        None => None,
    }
}

/// Every line of a file can have its fields set.
pub open spec fn file_lines_settable(lines: Seq<Seq<char>>) -> bool {
    forall|k: int| 0 <= k < lines.len() ==> line_fields_settable(#[trigger] lines[k])
}

/// What the lines of one log file offer to a query, in file order: each line numbered by the
/// file's first number `base` plus the lengths of the lines before it.
pub open spec fn file_candidates(
    lines: Seq<Seq<char>>,
    lengths: Seq<u64>,
    base: int,
    file_date: Option<(i32, u32, u32)>,
) -> Seq<(Option<i64>, u64, Option<Seq<char>>, Seq<char>)>
    decreases lines.len(),
{
    if lines.len() == 0 {
        Seq::empty()
    } else {
        let rest = file_candidates(lines.drop_last(), lengths, base, file_date);
        let i = lines.len() - 1;
        match candidate_model(lines.last(), file_date, (base + lengths_before(lengths, i)) as u64) {
            Some(m) => rest.push(m),
            None => rest,
        }
    }
}

/// The candidates of one log file, given its lines as read (each with its line ending) and the
/// number of bytes of each. `None` when a line is JSON whose value is neither an object nor
/// `null`: setting its fields fails, and reading the file stops there.
pub fn file_log_candidates(
    base: u64,
    lines: &Vec<String>,
    lengths: &Vec<u64>,
    file_date: Option<(i32, u32, u32)>,
) -> (r: Option<Vec<LogCandidate>>)
    requires
        lines.len() == lengths.len(),
        base + lengths_before(lengths@, lengths.len() as int) <= u64::MAX,
    ensures
        r is Some <==> file_lines_settable(string_views(lines@)),
        r matches Some(v) ==> v@.map_values(|c: LogCandidate| candidate_view(c)) == file_candidates(
            string_views(lines@),
            lengths@,
            base as int,
            file_date,
        ),
{
    let seqs = file_line_seqs(base, lengths);
    let ghost views = string_views(lines@);
    let mut out: Vec<LogCandidate> = Vec::new();
    let mut i: usize = 0;
    while i < lines.len()
        invariant
            i <= lines.len(),
            lines.len() == lengths.len(),
            seqs.len() == lengths.len(),
            views == string_views(lines@),
            forall|k: int| 0 <= k < seqs.len() ==> seqs[k] == base + lengths_before(lengths@, k),
            forall|k: int| 0 <= k < i ==> line_fields_settable(#[trigger] views[k]),
            out@.map_values(|c: LogCandidate| candidate_view(c)) == file_candidates(
                views.take(i as int),
                lengths@,
                base as int,
                file_date,
            ),
        decreases lines.len() - i,
    {
        let line = lines[i].as_str();
        let seq = seqs[i];
        proof {
            assert(views[i as int] == line@);
            assert(views.take(i + 1).drop_last() =~= views.take(i as int));
            assert(views.take(i + 1).last() == line@);
            assert(seq as int == base + lengths_before(lengths@, i as int));
        }
        let ghost before = out@;
        if trim(line).unicode_len() > 0 {
            match parse_json_line(line) {
                Some(parsed) => {
                    if !(parsed.0 || parsed.1) {
                        proof {
                            assert(!line_fields_settable(views[i as int]));
                        }
                        return None;
                    }
                    assert(line_fields_settable(views[i as int]));
                    if let Some(c) = log_candidate(line, file_date, seq) {
                        let ghost cv = candidate_view(c);
                        out.push(c);
                        proof {
                            assert(out@.map_values(|c: LogCandidate| candidate_view(c)) =~= before.map_values(
                                |c: LogCandidate| candidate_view(c),
                            ).push(cv));
                        }
                    }
                },
                None => {
                    assert(line_fields_settable(views[i as int]));
                },
            }
        } else {
            assert(line_fields_settable(views[i as int]));
        }
        i += 1;
    }
    proof {
        assert(views.take(lines.len() as int) =~= views);
    }
    Some(out)
}

} // verus!
