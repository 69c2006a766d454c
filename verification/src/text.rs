//! Character-level helpers shared by the parsers: equality, prefixes, whitespace and trimming.
use vstd::prelude::*;

verus! {

/// String slice equality: true exactly when both hold the same characters.
pub(crate) fn str_equals(a: &str, b: &str) -> (r: bool)
    ensures
        r == (a@ == b@),
{
    let x = chars_of(a);
    let y = chars_of(b);
    if x.len() != y.len() {
        return false;
    }
    let mut i: usize = 0;
    while i < x.len()
        invariant
            x@ == a@,
            y@ == b@,
            x.len() == y.len(),
            i <= x.len(),
            forall|k: int| 0 <= k < i ==> x@[k] == y@[k],
        decreases x.len() - i,
    {
        if x[i] != y[i] {
            return false;
        }
        i += 1;
    }
    assert(a@ =~= b@);
    true
}

/// `String::push`: appends one character.
#[verifier::external_body]
pub(crate) fn push_char(s: &mut String, c: char)
    ensures
        final(s)@ == old(s)@.push(c),
{
    s.push(c);
}

/// Every character of `s` is ASCII.
pub open spec fn is_ascii_text(s: Seq<char>) -> bool {
    forall|k: int| 0 <= k < s.len() ==> (#[trigger] s[k] as u32) < 128
}

/// `c` with an ASCII lowercase letter raised to its uppercase partner.
pub open spec fn ascii_upper(c: char) -> char {
    if 'a' <= c && c <= 'z' {
        ((c as u32) - 32) as char
    } else {
        c
    }
}

/// A stretch of ASCII text is ASCII text.
pub proof fn lemma_ascii_subrange(s: Seq<char>, lo: int, hi: int)
    requires
        is_ascii_text(s),
        0 <= lo <= hi <= s.len(),
    ensures
        is_ascii_text(s.subrange(lo, hi)),
{
    let t = s.subrange(lo, hi);
    assert forall|k: int| 0 <= k < t.len() implies (#[trigger] t[k] as u32) < 128 by {
        assert(t[k] == s[lo + k]);
    }
}

/// Trimmed ASCII text is ASCII text.
pub proof fn lemma_ascii_trimmed(s: Seq<char>)
    requires
        is_ascii_text(s),
    ensures
        is_ascii_text(trim_seq(s)),
{
    lemma_ws_fwd_bounds(s, 0, s.len() as int);
    let a = ws_fwd(s, 0, s.len() as int);
    lemma_ws_back_bounds(s, a, s.len() as int);
    lemma_ascii_subrange(s, a, ws_back(s, a, s.len() as int));
}

/// The characters of `s`, in order.
pub fn chars_of(s: &str) -> (r: Vec<char>)
    ensures
        r@ == s@,
{
    let mut out: Vec<char> = Vec::new();
    for c in it: s.chars()
        invariant
            out@ == it.seq().take(it.index() as int),
    {
        out.push(c);
    }
    out
}

/// The characters `cs[lo..hi]` as a `String`.
pub fn string_of(cs: &Vec<char>, lo: usize, hi: usize) -> (r: String)
    requires
        lo <= hi <= cs.len(),
    ensures
        r@ == cs@.subrange(lo as int, hi as int),
{
    let mut out = String::new();
    let mut i = lo;
    while i < hi
        invariant
            lo <= i <= hi <= cs.len(),
            out@ == cs@.subrange(lo as int, i as int),
        decreases hi - i,
    {
        push_char(&mut out, cs[i]);
        assert(cs@.subrange(lo as int, i + 1) == cs@.subrange(lo as int, i as int).push(cs@[i as int]));
        i += 1;
    }
    out
}

/// `s` begins with `p`.
pub open spec fn has_prefix(s: Seq<char>, p: Seq<char>) -> bool {
    p.len() <= s.len() && s.subrange(0, p.len() as int) == p
}

/// Whether `s` begins with `p`.
pub fn starts_with(s: &Vec<char>, p: &Vec<char>) -> (r: bool)
    ensures
        r == has_prefix(s@, p@),
{
    if p.len() > s.len() {
        return false;
    }
    let mut i: usize = 0;
    while i < p.len()
        invariant
            p.len() <= s.len(),
            i <= p.len(),
            forall|j: int| 0 <= j < i ==> s@[j] == p@[j],
        decreases p.len() - i,
    {
        if s[i] != p[i] {
            assert(s@.subrange(0, p.len() as int)[i as int] != p@[i as int]);
            return false;
        }
        i += 1;
    }
    assert(s@.subrange(0, p.len() as int) =~= p@);
    true
}

/// `needle` occurs somewhere in `hay` as a contiguous run.
pub open spec fn contains_seq(hay: Seq<char>, needle: Seq<char>) -> bool {
    exists|k: int|
        0 <= k && k + needle.len() <= hay.len() && #[trigger] hay.subrange(k, k + needle.len())
            == needle
}

/// Whether `needle` occurs in `hay` (`str::contains` with a string pattern).
pub fn contains(hay: &Vec<char>, needle: &Vec<char>) -> (r: bool)
    ensures
        r == contains_seq(hay@, needle@),
{
    if needle.len() > hay.len() {
        assert forall|k: int|
            0 <= k && k + needle@.len() <= hay@.len() implies #[trigger] hay@.subrange(
            k,
            k + needle@.len(),
        ) != needle@ by {}
        return false;
    }
    let last = hay.len() - needle.len();
    let mut k: usize = 0;
    while k <= last
        invariant
            last == hay.len() - needle.len(),
            needle.len() <= hay.len(),
            forall|q: int|
                0 <= q < k ==> #[trigger] hay@.subrange(q, q + needle@.len()) != needle@,
        decreases last + 1 - k,
    {
        let mut j: usize = 0;
        let mut same = true;
        while j < needle.len()
            invariant
                k <= last,
                last == hay.len() - needle.len(),
                j <= needle.len(),
                same == (forall|t: int| 0 <= t < j ==> hay@[k + t] == needle@[t]),
            decreases needle.len() - j,
        {
            if hay[k + j] != needle[j] {
                same = false;
            }
            j += 1;
        }
        if same {
            assert(hay@.subrange(k as int, k + needle@.len()) =~= needle@);
            return true;
        }
        let ghost kk = k as int;
        assert(hay@.subrange(kk, kk + needle@.len()) != needle@) by {
            let t = choose|t: int| 0 <= t < needle@.len() && hay@[kk + t] != needle@[t];
            assert(hay@.subrange(kk, kk + needle@.len())[t] == hay@[kk + t]);
        }
        k += 1;
    }
    assert forall|q: int|
        0 <= q && q + needle@.len() <= hay@.len() implies #[trigger] hay@.subrange(
        q,
        q + needle@.len(),
    ) != needle@ by {
        assert(q < k);
    }
    false
}

/// `char::is_whitespace`: the characters with the Unicode `White_Space` property.
pub open spec fn is_unicode_whitespace(c: char) -> bool {
    ||| ('\u{9}' <= c && c <= '\u{d}')
    ||| c == ' '
    ||| c == '\u{85}'
    ||| c == '\u{a0}'
    ||| c == '\u{1680}'
    ||| ('\u{2000}' <= c && c <= '\u{200a}')
    ||| c == '\u{2028}'
    ||| c == '\u{2029}'
    ||| c == '\u{202f}'
    ||| c == '\u{205f}'
    ||| c == '\u{3000}'
}

/// Whether `c` is Unicode whitespace.
pub fn is_whitespace(c: char) -> (r: bool)
    ensures
        r == is_unicode_whitespace(c),
{
    ('\u{9}' <= c && c <= '\u{d}') || c == ' ' || c == '\u{85}' || c == '\u{a0}' || c == '\u{1680}'
        || ('\u{2000}' <= c && c <= '\u{200a}') || c == '\u{2028}' || c == '\u{2029}' || c
        == '\u{202f}' || c == '\u{205f}' || c == '\u{3000}'
}

/// `u8::is_ascii_whitespace` on a character: space, tab, line feed, form feed, carriage return.
pub open spec fn is_ascii_ws(c: char) -> bool {
    c == ' ' || c == '\t' || c == '\n' || c == '\u{c}' || c == '\r'
}

/// First index in `lo..hi` that is not whitespace, or `hi`.
pub open spec fn ws_fwd(cs: Seq<char>, lo: int, hi: int) -> int
    decreases hi - lo,
{
    if lo < hi && is_unicode_whitespace(cs[lo]) {
        ws_fwd(cs, lo + 1, hi)
    } else {
        lo
    }
}

/// One past the last index in `lo..hi` that is not whitespace, or `lo`.
pub open spec fn ws_back(cs: Seq<char>, lo: int, hi: int) -> int
    decreases hi - lo,
{
    if lo < hi && is_unicode_whitespace(cs[hi - 1]) {
        ws_back(cs, lo, hi - 1)
    } else {
        hi
    }
}

/// `cs[lo..hi]` without leading and trailing whitespace (`str::trim`).
pub open spec fn trimmed(cs: Seq<char>, lo: int, hi: int) -> Seq<char> {
    let a = ws_fwd(cs, lo, hi);
    cs.subrange(a, ws_back(cs, a, hi))
}

/// `s` without leading and trailing whitespace.
pub open spec fn trim_seq(s: Seq<char>) -> Seq<char> {
    trimmed(s, 0, s.len() as int)
}

pub proof fn lemma_ws_fwd_bounds(cs: Seq<char>, lo: int, hi: int)
    requires
        lo <= hi,
    ensures
        lo <= ws_fwd(cs, lo, hi) <= hi,
        forall|k: int| lo <= k < ws_fwd(cs, lo, hi) ==> is_unicode_whitespace(#[trigger] cs[k]),
        ws_fwd(cs, lo, hi) < hi ==> !is_unicode_whitespace(cs[ws_fwd(cs, lo, hi)]),
    decreases hi - lo,
{
    if lo < hi && is_unicode_whitespace(cs[lo]) {
        lemma_ws_fwd_bounds(cs, lo + 1, hi);
    }
}

pub proof fn lemma_ws_back_bounds(cs: Seq<char>, lo: int, hi: int)
    requires
        lo <= hi,
    ensures
        lo <= ws_back(cs, lo, hi) <= hi,
        forall|k: int| ws_back(cs, lo, hi) <= k < hi ==> is_unicode_whitespace(#[trigger] cs[k]),
        ws_back(cs, lo, hi) > lo ==> !is_unicode_whitespace(cs[ws_back(cs, lo, hi) - 1]),
    decreases hi - lo,
{
    if lo < hi && is_unicode_whitespace(cs[hi - 1]) {
        lemma_ws_back_bounds(cs, lo, hi - 1);
    }
}

/// First index in `lo..hi` that is not whitespace, or `hi`.
pub fn skip_ws_fwd(cs: &Vec<char>, lo: usize, hi: usize) -> (r: usize)
    requires
        lo <= hi <= cs.len(),
    ensures
        r == ws_fwd(cs@, lo as int, hi as int),
{
    let mut i = lo;
    while i < hi && is_whitespace(cs[i])
        invariant
            lo <= i <= hi <= cs.len(),
            ws_fwd(cs@, i as int, hi as int) == ws_fwd(cs@, lo as int, hi as int),
        decreases hi - i,
    {
        i += 1;
    }
    i
}

/// One past the last non-whitespace index in `lo..hi`, or `lo`.
pub fn skip_ws_back(cs: &Vec<char>, lo: usize, hi: usize) -> (r: usize)
    requires
        lo <= hi <= cs.len(),
    ensures
        r == ws_back(cs@, lo as int, hi as int),
{
    let mut j = hi;
    while lo < j && is_whitespace(cs[j - 1])
        invariant
            lo <= j <= hi <= cs.len(),
            ws_back(cs@, lo as int, j as int) == ws_back(cs@, lo as int, hi as int),
        decreases j - lo,
    {
        j -= 1;
    }
    j
}

/// `cs[lo..hi]`, trimmed, as a `String`.
pub fn trimmed_string(cs: &Vec<char>, lo: usize, hi: usize) -> (r: String)
    requires
        lo <= hi <= cs.len(),
    ensures
        r@ == trimmed(cs@, lo as int, hi as int),
{
    let a = skip_ws_fwd(cs, lo, hi);
    proof {
        lemma_ws_fwd_bounds(cs@, lo as int, hi as int);
    }
    let b = skip_ws_back(cs, a, hi);
    proof {
        lemma_ws_back_bounds(cs@, a as int, hi as int);
    }
    string_of(cs, a, b)
}

/// `str::trim`: `s` without leading and trailing Unicode whitespace.
pub fn trim(s: &str) -> (r: String)
    ensures
        r@ == trim_seq(s@),
{
    let cs = chars_of(s);
    trimmed_string(&cs, 0, cs.len())
}

/// Trimming `cs[lo..hi]` cuts away whitespace at both ends and nothing else: the result is the
/// stretch `cs[a..b]` inside `lo..hi` such that everything before `a` and after `b` is
/// whitespace, and the result, when not empty, starts and ends with a character that is not.
pub proof fn law_trimmed_cuts_only_outer_whitespace(cs: Seq<char>, lo: int, hi: int)
    requires
        0 <= lo <= hi <= cs.len(),
    ensures
        exists|a: int, b: int|
            {
                &&& lo <= a <= b <= hi
                &&& #[trigger] cs.subrange(a, b) == trimmed(cs, lo, hi)
                &&& forall|k: int| lo <= k < a ==> is_unicode_whitespace(#[trigger] cs[k])
                &&& forall|k: int| b <= k < hi ==> is_unicode_whitespace(#[trigger] cs[k])
                &&& a < b ==> !is_unicode_whitespace(cs[a]) && !is_unicode_whitespace(cs[b - 1])
            },
{
    lemma_ws_fwd_bounds(cs, lo, hi);
    let a = ws_fwd(cs, lo, hi);
    lemma_ws_back_bounds(cs, a, hi);
    let b = ws_back(cs, a, hi);
    assert(cs.subrange(a, b) == trimmed(cs, lo, hi));
    assert(forall|k: int| b <= k < hi ==> is_unicode_whitespace(#[trigger] cs[k]));
}

/// Trimming twice changes nothing: a trimmed text has no whitespace at either end.
pub proof fn lemma_trimmed_is_trimmed(cs: Seq<char>, lo: int, hi: int)
    requires
        0 <= lo <= hi <= cs.len(),
    ensures
        trim_seq(trimmed(cs, lo, hi)) == trimmed(cs, lo, hi),
{
    let a = ws_fwd(cs, lo, hi);
    lemma_ws_fwd_bounds(cs, lo, hi);
    let b = ws_back(cs, a, hi);
    lemma_ws_back_bounds(cs, a, hi);
    let t = cs.subrange(a, b);
    if t.len() == 0 {
        assert(ws_fwd(t, 0, 0) == 0);
        assert(ws_back(t, 0, 0) == 0);
        assert(trim_seq(t) =~= t);
    } else {
        assert(t[0] == cs[a]);
        assert(!is_unicode_whitespace(t[0]));
        assert(ws_fwd(t, 0, t.len() as int) == 0);
        assert(t[t.len() - 1] == cs[b - 1]);
        assert(ws_back(t, 0, t.len() as int) == t.len());
        assert(trim_seq(t) =~= t);
    }
}

} // verus!
