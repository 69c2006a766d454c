//! Migration scripts: the list of schema migrations, which of them are still pending, and
//! the splitting of a script into the statements that are executed one by one.
//!
//! Splitting follows SQLite's lexical rules far enough to keep semicolons inside string
//! literals, quoted identifiers, comments and trigger bodies (`CREATE TRIGGER ... BEGIN ...
//! END;`) from ending a statement.
use vstd::prelude::*;

use crate::text::{
    ascii_upper, chars_of, is_ascii_text, is_unicode_whitespace, lemma_ascii_subrange, has_prefix, is_ascii_ws, lemma_ws_back_bounds, lemma_ws_fwd_bounds, skip_ws_back, skip_ws_fwd,
    starts_with, string_of, trim_seq, trimmed, trimmed_string, ws_back, ws_fwd, lemma_trimmed_is_trimmed,
};

verus! {

/// A uppercased copy of a text, as `str::to_uppercase` computes it (full Unicode case mapping).
pub uninterp spec fn uppercase_of(s: Seq<char>) -> Seq<char>;

/// `str::to_uppercase`. Its result is named, not written out: it is the Unicode uppercase
/// mapping of `s`, a function of `s` alone. For ASCII text that mapping raises each ASCII
/// lowercase letter to its uppercase partner and keeps every other character.
#[verifier::external_body]
fn str_to_uppercase(s: &str) -> (r: String)
    ensures
        r@ == uppercase_of(s@),
        is_ascii_text(s@) ==> r@ == s@.map_values(|c: char| ascii_upper(c)),
{
    s.to_uppercase()
}

/// Where the lexer stands while scanning a script.
#[derive(Debug, Clone, Copy, PartialEq, Eq, Structural)]
pub enum ScanState {
    Normal,
    SingleQuoted,
    DoubleQuoted,
    LineComment,
    BlockComment,
}

/// First index `>= j` holding `c`, or the length when there is none.
pub open spec fn next_char_at(cs: Seq<char>, j: int, c: char) -> int
    decreases cs.len() - j,
{
    if j >= cs.len() || j < 0 {
        cs.len() as int
    } else if cs[j] == c {
        j
    } else {
        next_char_at(cs, j + 1, c)
    }
}

/// First index `p >= j` with `cs[p] == a` and `cs[p + 1] == b`, or the length when there is none.
pub open spec fn next_pair_at(cs: Seq<char>, j: int, a: char, b: char) -> int
    decreases cs.len() - j,
{
    if j + 1 >= cs.len() || j < 0 {
        cs.len() as int
    } else if cs[j] == a && cs[j + 1] == b {
        j
    } else {
        next_pair_at(cs, j + 1, a, b)
    }
}

pub proof fn lemma_next_char_at_bounds(cs: Seq<char>, j: int, c: char)
    requires
        0 <= j,
    ensures
        j <= next_char_at(cs, j, c) || next_char_at(cs, j, c) == cs.len(),
        next_char_at(cs, j, c) <= cs.len(),
        next_char_at(cs, j, c) < cs.len() ==> j <= next_char_at(cs, j, c) && cs[next_char_at(cs, j, c)] == c,
    decreases cs.len() - j,
{
    if j < cs.len() && cs[j] != c {
        lemma_next_char_at_bounds(cs, j + 1, c);
    }
}

pub proof fn lemma_next_pair_at_bounds(cs: Seq<char>, j: int, a: char, b: char)
    requires
        0 <= j,
    ensures
        next_pair_at(cs, j, a, b) <= cs.len(),
        next_pair_at(cs, j, a, b) < cs.len() ==> j <= next_pair_at(cs, j, a, b) && next_pair_at(cs, j, a, b) + 1 < cs.len(),
    decreases cs.len() - j,
{
    if j + 1 < cs.len() && !(cs[j] == a && cs[j + 1] == b) {
        lemma_next_pair_at_bounds(cs, j + 1, a, b);
    }
}

/// Index of the first character at or after `i` that is neither whitespace nor part of a
/// `--` line comment or `/* */` block comment; the length when the rest is all such text or
/// when a comment is left open.
pub open spec fn cws_end(cs: Seq<char>, i: int) -> int
    decreases cs.len() - i,
{
    if i < 0 || i > cs.len() {
        cs.len() as int
    } else {
        let j = ws_fwd(cs, i, cs.len() as int);
        proof {
            lemma_ws_fwd_bounds(cs, i, cs.len() as int);
        }
        if j + 1 < cs.len() && cs[j] == '-' && cs[j + 1] == '-' {
            let p = next_char_at(cs, j, '\n');
            proof {
                lemma_next_char_at_bounds(cs, j, '\n');
            }
            if p < cs.len() {
                cws_end(cs, p + 1)
            } else {
                cs.len() as int
            }
        } else if j + 1 < cs.len() && cs[j] == '/' && cs[j + 1] == '*' {
            let p = next_pair_at(cs, j, '*', '/');
            proof {
                lemma_next_pair_at_bounds(cs, j, '*', '/');
            }
            if p < cs.len() {
                cws_end(cs, p + 2)
            } else {
                cs.len() as int
            }
        } else {
            j
        }
    }
}

pub proof fn lemma_cws_end_bounds(cs: Seq<char>, i: int)
    requires
        0 <= i <= cs.len(),
    ensures
        i <= cws_end(cs, i) <= cs.len(),
    decreases cs.len() - i,
{
    let j = ws_fwd(cs, i, cs.len() as int);
    lemma_ws_fwd_bounds(cs, i, cs.len() as int);
    if j + 1 < cs.len() && cs[j] == '-' && cs[j + 1] == '-' {
        let p = next_char_at(cs, j, '\n');
        lemma_next_char_at_bounds(cs, j, '\n');
        if p < cs.len() {
            lemma_cws_end_bounds(cs, p + 1);
        }
    } else if j + 1 < cs.len() && cs[j] == '/' && cs[j + 1] == '*' {
        let p = next_pair_at(cs, j, '*', '/');
        lemma_next_pair_at_bounds(cs, j, '*', '/');
        if p < cs.len() {
            lemma_cws_end_bounds(cs, p + 2);
        }
    }
}

proof fn lemma_next_char_at_first(cs: Seq<char>, j: int, c: char, p: int)
    requires
        0 <= j <= p <= cs.len(),
        forall|k: int| j <= k < p ==> cs[k] != c,
        p < cs.len() ==> cs[p] == c,
    ensures
        next_char_at(cs, j, c) == p,
    decreases p - j,
{
    if j < p {
        lemma_next_char_at_first(cs, j + 1, c, p);
    }
}

proof fn lemma_next_pair_at_first(cs: Seq<char>, j: int, a: char, b: char, p: int)
    requires
        0 <= j <= p,
        p + 1 <= cs.len(),
        forall|k: int| j <= k < p ==> !(#[trigger] cs[k] == a && cs[k + 1] == b),
        p + 1 < cs.len() ==> cs[p] == a && cs[p + 1] == b,
    ensures
        next_pair_at(cs, j, a, b) == (if p + 1 < cs.len() { p } else { cs.len() as int }),
    decreases p - j,
{
    if j < p {
        lemma_next_pair_at_first(cs, j + 1, a, b, p);
    }
}

/// Skipping leading whitespace and comments, one piece at a time: the end of the skipped text
/// does not move when a whitespace character is skipped; a `--` comment is skipped through
/// the first line feed after it, and runs to the end of the text when there is none; a `/*`
/// comment is skipped through the first `*/` that starts after its `/` (so `/*/` is a whole
/// comment), and runs to the end when there is none; any other character is where the skipped text ends.
pub proof fn law_skipping_comments_and_whitespace(cs: Seq<char>, i: int, p: int)
    requires
        0 <= i < cs.len(),
    ensures
        cws_end(cs, cs.len() as int) == cs.len(),
        is_unicode_whitespace(cs[i]) ==> cws_end(cs, i) == cws_end(cs, i + 1),
        i + 1 < cs.len() && cs[i] == '-' && cs[i + 1] == '-' && i + 2 <= p < cs.len() && cs[p] == '\n'
            && (forall|k: int| i + 2 <= k < p ==> cs[k] != '\n') ==> cws_end(cs, i) == cws_end(cs, p + 1),
        i + 1 < cs.len() && cs[i] == '-' && cs[i + 1] == '-' && (forall|k: int| i + 2 <= k < cs.len() ==> cs[k]
            != '\n') ==> cws_end(cs, i) == cs.len(),
        i + 1 < cs.len() && cs[i] == '/' && cs[i + 1] == '*' && i + 1 <= p && p + 1 < cs.len() && cs[p] == '*'
            && cs[p + 1] == '/' && (forall|k: int| i + 1 <= k < p ==> !(#[trigger] cs[k] == '*' && cs[k + 1] == '/'))
            ==> cws_end(cs, i) == cws_end(cs, p + 2),
        i + 1 < cs.len() && cs[i] == '/' && cs[i + 1] == '*' && (forall|k: int| i + 1 <= k < cs.len() - 1 ==> !(
        #[trigger] cs[k] == '*' && cs[k + 1] == '/')) ==> cws_end(cs, i) == cs.len(),
        !is_unicode_whitespace(cs[i]) && !(i + 1 < cs.len() && cs[i] == '-' && cs[i + 1] == '-') && !(i + 1
            < cs.len() && cs[i] == '/' && cs[i + 1] == '*') ==> cws_end(cs, i) == i,
{
    let n = cs.len() as int;
    assert(ws_fwd(cs, n, n) == n);
    if is_unicode_whitespace(cs[i]) {
        assert(ws_fwd(cs, i, n) == ws_fwd(cs, i + 1, n));
        lemma_ws_fwd_bounds(cs, i + 1, n);
        let j = ws_fwd(cs, i + 1, n);
        if i + 1 < n {
            assert(cws_end(cs, i + 1) == {
                if j + 1 < n && cs[j] == '-' && cs[j + 1] == '-' {
                    let q = next_char_at(cs, j, '\n');
                    if q < n { cws_end(cs, q + 1) } else { n }
                } else if j + 1 < n && cs[j] == '/' && cs[j + 1] == '*' {
                    let q = next_pair_at(cs, j, '*', '/');
                    if q < n { cws_end(cs, q + 2) } else { n }
                } else {
                    j
                }
            });
        }
    } else {
        assert(ws_fwd(cs, i, n) == i);
        if i + 1 < n && cs[i] == '-' && cs[i + 1] == '-' {
            if i + 2 <= p < n && cs[p] == '\n' && (forall|k: int| i + 2 <= k < p ==> cs[k] != '\n') {
                lemma_next_char_at_first(cs, i, '\n', p);
            }
            if forall|k: int| i + 2 <= k < n ==> cs[k] != '\n' {
                lemma_next_char_at_first(cs, i, '\n', n);
            }
        }
        if i + 1 < n && cs[i] == '/' && cs[i + 1] == '*' {
            if i + 1 <= p && p + 1 < n && cs[p] == '*' && cs[p + 1] == '/' && (forall|k: int| i + 1 <= k < p ==> !(
            #[trigger] cs[k] == '*' && cs[k + 1] == '/')) {
                lemma_next_pair_at_first(cs, i, '*', '/', p);
            }
            if forall|k: int| i + 1 <= k < n - 1 ==> !(#[trigger] cs[k] == '*' && cs[k + 1] == '/') {
                lemma_next_pair_at_first(cs, i, '*', '/', n - 1);
            }
        }
    }
}

/// The uppercased text begins with `CREATE TRIGGER` or `CREATE OR REPLACE TRIGGER`.
pub open spec fn trigger_keyword(upper: Seq<char>) -> bool {
    has_prefix(upper, "CREATE TRIGGER"@) || has_prefix(upper, "CREATE OR REPLACE TRIGGER"@)
}

/// A statement creates a trigger when its uppercased text, past leading whitespace and
/// comments, begins with `CREATE TRIGGER` (14 characters) or with `CREATE OR REPLACE TRIGGER`
/// (25 characters).
pub proof fn law_trigger_keywords(upper: Seq<char>)
    ensures
        trigger_keyword(upper) <==> ((upper.len() >= 14 && upper.subrange(0, 14) == "CREATE TRIGGER"@) || (
        upper.len() >= 25 && upper.subrange(0, 25) == "CREATE OR REPLACE TRIGGER"@)),
{
    reveal_strlit("CREATE TRIGGER");
    reveal_strlit("CREATE OR REPLACE TRIGGER");
}

/// The statement that starts at `i` (after leading whitespace and comments) creates a trigger.
pub open spec fn trigger_start_at(cs: Seq<char>, i: int) -> bool {
    trigger_keyword(uppercase_of(cs.subrange(cws_end(cs, i), cs.len() as int)))
}

/// `c` equals the uppercase ASCII letter `upper` when ASCII case is ignored.
pub open spec fn ascii_ci(c: char, upper: char) -> bool {
    c == upper || c == ((upper as u8) + 32) as char
}

/// `cs[lo..hi]`, with trailing whitespace removed, ends in the word `END` (ASCII letters in
/// any case) that stands alone or follows ASCII whitespace or a semicolon.
pub open spec fn trigger_end_at(cs: Seq<char>, lo: int, hi: int) -> bool {
    let e = ws_back(cs, lo, hi);
    &&& e - lo >= 3
    &&& ascii_ci(cs[e - 3], 'E')
    &&& ascii_ci(cs[e - 2], 'N')
    &&& ascii_ci(cs[e - 1], 'D')
    &&& (e - lo == 3 || is_ascii_ws(cs[e - 4]) || cs[e - 4] == ';')
}

/// `acc` with `t` appended when `t` is not empty.
pub open spec fn push_nonempty(acc: Seq<Seq<char>>, t: Seq<char>) -> Seq<Seq<char>> {
    if t.len() > 0 {
        acc.push(t)
    } else {
        acc
    }
}

/// One step of the lexer at index `i < cs.len()`: the next index, lexer state, trigger flag,
/// statement start and list of complete statements.
pub open spec fn step(
    cs: Seq<char>,
    i: int,
    state: ScanState,
    in_trig: bool,
    start: int,
    acc: Seq<Seq<char>>,
) -> (int, ScanState, bool, int, Seq<Seq<char>>) {
    let ch = cs[i];
    let has_next = i + 1 < cs.len();
    match state {
        ScanState::Normal => {
            if ch == '\'' {
                (i + 1, ScanState::SingleQuoted, in_trig, start, acc)
            } else if ch == '"' {
                (i + 1, ScanState::DoubleQuoted, in_trig, start, acc)
            } else if ch == '-' && has_next && cs[i + 1] == '-' {
                (i + 1, ScanState::LineComment, in_trig, start, acc)
            } else if ch == '/' && has_next && cs[i + 1] == '*' {
                (i + 1, ScanState::BlockComment, in_trig, start, acc)
            } else if ch == ';' {
                if in_trig {
                    if trigger_end_at(cs, start, i) {
                        (
                            i + 1,
                            ScanState::Normal,
                            trigger_start_at(cs, i + 1),
                            i + 1,
                            push_nonempty(acc, trimmed(cs, start, i + 1)),
                        )
                    } else {
                        (i + 1, ScanState::Normal, true, start, acc)
                    }
                } else {
                    (
                        i + 1,
                        ScanState::Normal,
                        trigger_start_at(cs, i + 1),
                        i + 1,
                        push_nonempty(acc, trimmed(cs, start, i)),
                    )
                }
            } else {
                (i + 1, ScanState::Normal, in_trig, start, acc)
            }
        },
        ScanState::SingleQuoted => {
            if ch == '\'' {
                if has_next && cs[i + 1] == '\'' {
                    (i + 2, ScanState::SingleQuoted, in_trig, start, acc)
                } else {
                    (i + 1, ScanState::Normal, in_trig, start, acc)
                }
            } else {
                (i + 1, ScanState::SingleQuoted, in_trig, start, acc)
            }
        },
        ScanState::DoubleQuoted => {
            if ch == '"' {
                (i + 1, ScanState::Normal, in_trig, start, acc)
            } else {
                (i + 1, ScanState::DoubleQuoted, in_trig, start, acc)
            }
        },
        ScanState::LineComment => {
            if ch == '\n' {
                (i + 1, ScanState::Normal, in_trig, start, acc)
            } else {
                (i + 1, ScanState::LineComment, in_trig, start, acc)
            }
        },
        ScanState::BlockComment => {
            if ch == '*' && has_next && cs[i + 1] == '/' {
                (i + 2, ScanState::Normal, in_trig, start, acc)
            } else {
                (i + 1, ScanState::BlockComment, in_trig, start, acc)
            }
        },
    }
}

/// The statements found by scanning `cs` from index `i` in lexer state `state`, where the
/// current statement began at `start`, `in_trig` says whether it is a trigger definition,
/// and `acc` holds the statements already complete. At the end of the text the unfinished
/// statement is added, trimmed, when it is not empty.
pub open spec fn split_from(
    cs: Seq<char>,
    i: int,
    state: ScanState,
    in_trig: bool,
    start: int,
    acc: Seq<Seq<char>>,
) -> Seq<Seq<char>>
    decreases cs.len() - i,
{
    if i >= cs.len() || i < 0 {
        push_nonempty(acc, trimmed(cs, start, cs.len() as int))
    } else {
        let nx = step(cs, i, state, in_trig, start, acc);
        if nx.0 > i {
            split_from(cs, nx.0, nx.1, nx.2, nx.3, nx.4)
        } else {
            acc
        }
    }
}

/// The statements of a script, each trimmed, empty ones left out.
pub open spec fn split_spec(sql: Seq<char>) -> Seq<Seq<char>> {
    split_from(sql, 0, ScanState::Normal, trigger_start_at(sql, 0), 0, Seq::empty())
}

/// Each statement is non-empty and carries no whitespace at either end.
pub open spec fn all_trimmed_nonempty(ss: Seq<Seq<char>>) -> bool {
    forall|k: int| 0 <= k < ss.len() ==> (#[trigger] ss[k]).len() > 0 && trim_seq(ss[k]) == ss[k]
}

proof fn lemma_push_trimmed_good(acc: Seq<Seq<char>>, cs: Seq<char>, lo: int, hi: int)
    requires
        all_trimmed_nonempty(acc),
        0 <= lo <= hi <= cs.len(),
    ensures
        all_trimmed_nonempty(push_nonempty(acc, trimmed(cs, lo, hi))),
{
    lemma_trimmed_is_trimmed(cs, lo, hi);
    let r = push_nonempty(acc, trimmed(cs, lo, hi));
    assert forall|k: int| 0 <= k < r.len() implies (#[trigger] r[k]).len() > 0 && trim_seq(r[k]) == r[k] by {
        if k < acc.len() {
            assert(r[k] == acc[k]);
        }
    }
}

proof fn lemma_split_from_good(
    cs: Seq<char>,
    i: int,
    state: ScanState,
    in_trig: bool,
    start: int,
    acc: Seq<Seq<char>>,
)
    requires
        all_trimmed_nonempty(acc),
        0 <= start <= i <= cs.len(),
    ensures
        all_trimmed_nonempty(split_from(cs, i, state, in_trig, start, acc)),
    decreases cs.len() - i,
{
    if i >= cs.len() {
        lemma_push_trimmed_good(acc, cs, start, cs.len() as int);
    } else {
        lemma_push_trimmed_good(acc, cs, start, i);
        lemma_push_trimmed_good(acc, cs, start, i + 1);
        let nx = step(cs, i, state, in_trig, start, acc);
        lemma_split_from_good(cs, nx.0, nx.1, nx.2, nx.3, nx.4);
    }
}

/// Every statement that a script splits into is non-empty and trimmed.
pub proof fn law_statements_trimmed_nonempty(sql: Seq<char>)
    ensures
        all_trimmed_nonempty(split_spec(sql)),
{
    lemma_split_from_good(sql, 0, ScanState::Normal, trigger_start_at(sql, 0), 0, Seq::empty());
}

/// `ss` are pieces of `cs` in the order they stand there: the k-th is the text of `cs`
/// between the positions `b[k].0` and `b[k].1`, and each piece ends before any later one begins.
pub open spec fn pieces_in_order(cs: Seq<char>, ss: Seq<Seq<char>>, b: Seq<(int, int)>) -> bool {
    &&& b.len() == ss.len()
    &&& forall|k: int|
        0 <= k < b.len() ==> 0 <= (#[trigger] b[k]).0 <= b[k].1 <= cs.len() && ss[k] == cs.subrange(
            b[k].0,
            b[k].1,
        )
    &&& forall|j: int, k: int| 0 <= j < k < b.len() ==> (#[trigger] b[j]).1 <= (#[trigger] b[k]).0
}

/// Every piece located by `b` ends at or before position `p`.
pub open spec fn pieces_end_by(b: Seq<(int, int)>, p: int) -> bool {
    forall|k: int| 0 <= k < b.len() ==> (#[trigger] b[k]).1 <= p
}

proof fn lemma_push_piece(
    cs: Seq<char>,
    acc: Seq<Seq<char>>,
    b: Seq<(int, int)>,
    lo: int,
    hi: int,
) -> (b2: Seq<(int, int)>)
    requires
        pieces_in_order(cs, acc, b),
        pieces_end_by(b, lo),
        0 <= lo <= hi <= cs.len(),
    ensures
        pieces_in_order(cs, push_nonempty(acc, trimmed(cs, lo, hi)), b2),
        pieces_end_by(b2, hi),
{
    lemma_ws_fwd_bounds(cs, lo, hi);
    let a = ws_fwd(cs, lo, hi);
    lemma_ws_back_bounds(cs, a, hi);
    let e = ws_back(cs, a, hi);
    if trimmed(cs, lo, hi).len() > 0 {
        let b2 = b.push((a, e));
        let r = acc.push(trimmed(cs, lo, hi));
        assert forall|k: int| 0 <= k < b2.len() implies 0 <= (#[trigger] b2[k]).0 <= b2[k].1 <= cs.len()
            && r[k] == cs.subrange(b2[k].0, b2[k].1) by {
            if k < b.len() {
                assert(b2[k] == b[k]);
                assert(r[k] == acc[k]);
            }
        }
        assert forall|j: int, k: int| 0 <= j < k < b2.len() implies (#[trigger] b2[j]).1 <= (
        #[trigger] b2[k]).0 by {
            assert(b2[j] == b[j]);
            if k < b.len() {
                assert(b2[k] == b[k]);
            }
        }
        assert forall|k: int| 0 <= k < b2.len() implies (#[trigger] b2[k]).1 <= hi by {
            if k < b.len() {
                assert(b2[k] == b[k]);
            }
        }
        b2
    } else {
        b
    }
}

proof fn lemma_split_from_in_order(
    cs: Seq<char>,
    i: int,
    state: ScanState,
    in_trig: bool,
    start: int,
    acc: Seq<Seq<char>>,
    b: Seq<(int, int)>,
) -> (r: Seq<(int, int)>)
    requires
        pieces_in_order(cs, acc, b),
        pieces_end_by(b, start),
        0 <= start <= i <= cs.len(),
    ensures
        pieces_in_order(cs, split_from(cs, i, state, in_trig, start, acc), r),
    decreases cs.len() - i,
{
    if i >= cs.len() {
        lemma_push_piece(cs, acc, b, start, cs.len() as int)
    } else {
        let nx = step(cs, i, state, in_trig, start, acc);
        if nx.3 == start && nx.4 == acc {
            lemma_split_from_in_order(cs, nx.0, nx.1, nx.2, nx.3, nx.4, b)
        } else if nx.4 == push_nonempty(acc, trimmed(cs, start, i)) {
            let b2 = lemma_push_piece(cs, acc, b, start, i);
            assert(pieces_end_by(b2, i + 1));
            lemma_split_from_in_order(cs, nx.0, nx.1, nx.2, nx.3, nx.4, b2)
        } else {
            let b2 = lemma_push_piece(cs, acc, b, start, i + 1);
            lemma_split_from_in_order(cs, nx.0, nx.1, nx.2, nx.3, nx.4, b2)
        }
    }
}

/// The statements of a script are pieces of the script in the order they stand there: each
/// is the text between two positions of the script, and each ends before the next begins.
pub proof fn law_statements_in_order(sql: Seq<char>)
    ensures
        exists|b: Seq<(int, int)>| #[trigger] pieces_in_order(sql, split_spec(sql), b),
{
    let b = lemma_split_from_in_order(
        sql,
        0,
        ScanState::Normal,
        trigger_start_at(sql, 0),
        0,
        Seq::empty(),
        Seq::empty(),
    );
    assert(pieces_in_order(sql, split_spec(sql), b));
}

/// The ASCII whitespace characters: space, tab, line feed, form feed, carriage return.
pub open spec fn ascii_space_char(c: char) -> bool {
    c == ' ' || c == '\t' || c == '\n' || c == '\u{c}' || c == '\r'
}

/// `cs[lo..hi]` is text that ends in the word `END` (any ASCII case) at `m`, followed only by
/// whitespace, where the word stands at the start of the text or right after ASCII whitespace
/// of any kind or a semicolon.
pub open spec fn ends_in_end_word(cs: Seq<char>, lo: int, m: int, hi: int) -> bool {
    &&& 0 <= lo && lo + 3 <= m && m <= hi && hi <= cs.len()
    &&& (cs[m - 3] == 'E' || cs[m - 3] == 'e')
    &&& (cs[m - 2] == 'N' || cs[m - 2] == 'n')
    &&& (cs[m - 1] == 'D' || cs[m - 1] == 'd')
    &&& (m - lo == 3 || ascii_space_char(cs[m - 4]) || cs[m - 4] == ';')
    &&& forall|k: int| m <= k < hi ==> is_unicode_whitespace(#[trigger] cs[k])
}

proof fn lemma_ws_back_stops_at(cs: Seq<char>, lo: int, m: int, hi: int)
    requires
        lo < m <= hi <= cs.len(),
        0 <= lo,
        !is_unicode_whitespace(cs[m - 1]),
        forall|k: int| m <= k < hi ==> is_unicode_whitespace(#[trigger] cs[k]),
    ensures
        ws_back(cs, lo, hi) == m,
    decreases hi - m,
{
    if hi > m {
        assert(is_unicode_whitespace(cs[hi - 1]));
        lemma_ws_back_stops_at(cs, lo, m, hi - 1);
    }
}

/// A trigger body ends at the word `END` whether it follows a space, a tab, a line feed, a
/// form feed, a carriage return or a semicolon, and whatever whitespace trails it.
pub proof fn law_end_after_any_ascii_whitespace_ends_trigger(cs: Seq<char>, lo: int, m: int, hi: int)
    requires
        ends_in_end_word(cs, lo, m, hi),
    ensures
        trigger_end_at(cs, lo, hi),
{
    lemma_ws_back_stops_at(cs, lo, m, hi);
}

/// Only such text ends a trigger body: text that ends a trigger body ends, past its trailing
/// whitespace, in the word `END` that stands alone or after ASCII whitespace or a semicolon.
pub proof fn law_trigger_end_only_after_end_word(cs: Seq<char>, lo: int, hi: int)
    requires
        0 <= lo <= hi <= cs.len(),
    ensures
        trigger_end_at(cs, lo, hi) <==> exists|m: int| #[trigger] ends_in_end_word(cs, lo, m, hi),
{
    lemma_ws_back_bounds(cs, lo, hi);
    let e = ws_back(cs, lo, hi);
    if trigger_end_at(cs, lo, hi) {
        assert(ends_in_end_word(cs, lo, e, hi));
    }
    if exists|m: int| #[trigger] ends_in_end_word(cs, lo, m, hi) {
        let m = choose|m: int| #[trigger] ends_in_end_word(cs, lo, m, hi);
        lemma_ws_back_stops_at(cs, lo, m, hi);
    }
}

/// Inside a trigger definition, the semicolon right after its closing `END` ends the
/// statement: the statement is the trimmed text up to and including that semicolon, and the
/// next statement starts right after it, scanned on its own.
pub proof fn law_semicolon_after_end_closes_trigger(
    cs: Seq<char>,
    start: int,
    m: int,
    i: int,
    acc: Seq<Seq<char>>,
)
    requires
        ends_in_end_word(cs, start, m, i),
        i < cs.len(),
        cs[i] == ';',
    ensures
        split_from(cs, i, ScanState::Normal, true, start, acc) == split_from(
            cs,
            i + 1,
            ScanState::Normal,
            trigger_start_at(cs, i + 1),
            i + 1,
            push_nonempty(acc, trimmed(cs, start, i + 1)),
        ),
{
    law_end_after_any_ascii_whitespace_ends_trigger(cs, start, m, i);
}

/// How the scan of a script moves past one character at `i`, written as the statements found
/// from there: outside quotes and comments a `'` opens a string, a `"` opens a quoted name,
/// `--` opens a line comment and `/*` a block comment, and a `;` ends the statement (trimmed,
/// and only when not empty) unless a trigger definition is open and its body does not yet end
/// in `END`; inside a string only a `'`
/// that is not doubled closes it (`''` stays inside), inside a quoted name only `"` closes it,
/// a line comment ends at a line feed and a block comment at `*/`; every other character is
/// part of the current statement. So no semicolon in a string, quoted name or comment ever
/// ends a statement.
pub proof fn law_scan_steps(cs: Seq<char>, i: int, trig: bool, start: int, acc: Seq<Seq<char>>)
    requires
        0 <= start <= i < cs.len(),
    ensures
        cs[i] == '\'' ==> split_from(cs, i, ScanState::Normal, trig, start, acc) == split_from(
            cs, i + 1, ScanState::SingleQuoted, trig, start, acc),
        cs[i] == '"' ==> split_from(cs, i, ScanState::Normal, trig, start, acc) == split_from(
            cs, i + 1, ScanState::DoubleQuoted, trig, start, acc),
        i + 1 < cs.len() && cs[i] == '-' && cs[i + 1] == '-' ==> split_from(cs, i, ScanState::Normal, trig, start, acc)
            == split_from(cs, i + 1, ScanState::LineComment, trig, start, acc),
        i + 1 < cs.len() && cs[i] == '/' && cs[i + 1] == '*' ==> split_from(cs, i, ScanState::Normal, trig, start, acc)
            == split_from(cs, i + 1, ScanState::BlockComment, trig, start, acc),
        cs[i] == ';' && !trig ==> split_from(cs, i, ScanState::Normal, trig, start, acc) == split_from(
            cs, i + 1, ScanState::Normal, trigger_start_at(cs, i + 1), i + 1, push_nonempty(acc, trimmed(cs, start, i))),
        cs[i] == ';' && trig && !trigger_end_at(cs, start, i) ==> split_from(cs, i, ScanState::Normal, trig, start, acc)
            == split_from(cs, i + 1, ScanState::Normal, true, start, acc),
        cs[i] != '\'' && cs[i] != '"' && cs[i] != ';' && !(i + 1 < cs.len() && cs[i] == '-' && cs[i + 1] == '-')
            && !(i + 1 < cs.len() && cs[i] == '/' && cs[i + 1] == '*') ==> split_from(cs, i, ScanState::Normal, trig, start, acc)
            == split_from(cs, i + 1, ScanState::Normal, trig, start, acc),
        cs[i] != '\'' ==> split_from(cs, i, ScanState::SingleQuoted, trig, start, acc) == split_from(
            cs, i + 1, ScanState::SingleQuoted, trig, start, acc),
        i + 1 < cs.len() && cs[i] == '\'' && cs[i + 1] == '\'' ==> split_from(cs, i, ScanState::SingleQuoted, trig, start, acc)
            == split_from(cs, i + 2, ScanState::SingleQuoted, trig, start, acc),
        cs[i] == '\'' && !(i + 1 < cs.len() && cs[i + 1] == '\'') ==> split_from(cs, i, ScanState::SingleQuoted, trig, start, acc)
            == split_from(cs, i + 1, ScanState::Normal, trig, start, acc),
        cs[i] != '"' ==> split_from(cs, i, ScanState::DoubleQuoted, trig, start, acc) == split_from(
            cs, i + 1, ScanState::DoubleQuoted, trig, start, acc),
        cs[i] == '"' ==> split_from(cs, i, ScanState::DoubleQuoted, trig, start, acc) == split_from(
            cs, i + 1, ScanState::Normal, trig, start, acc),
        cs[i] != '\n' ==> split_from(cs, i, ScanState::LineComment, trig, start, acc) == split_from(
            cs, i + 1, ScanState::LineComment, trig, start, acc),
        cs[i] == '\n' ==> split_from(cs, i, ScanState::LineComment, trig, start, acc) == split_from(
            cs, i + 1, ScanState::Normal, trig, start, acc),
        i + 1 < cs.len() && cs[i] == '*' && cs[i + 1] == '/' ==> split_from(cs, i, ScanState::BlockComment, trig, start, acc)
            == split_from(cs, i + 2, ScanState::Normal, trig, start, acc),
        !(i + 1 < cs.len() && cs[i] == '*' && cs[i + 1] == '/') ==> split_from(cs, i, ScanState::BlockComment, trig, start, acc)
            == split_from(cs, i + 1, ScanState::BlockComment, trig, start, acc),
{
}

/// At the end of the script the statement still open is added, trimmed, unless it is empty;
/// an unclosed string or comment simply runs to the end.
pub proof fn law_scan_end(cs: Seq<char>, state: ScanState, trig: bool, start: int, acc: Seq<Seq<char>>)
    requires
        0 <= start <= cs.len(),
    ensures
        split_from(cs, cs.len() as int, state, trig, start, acc) == push_nonempty(acc, trimmed(cs, start, cs.len() as int)),
        trimmed(cs, start, cs.len() as int).len() > 0 ==> split_from(cs, cs.len() as int, state, trig, start, acc)
            == acc.push(trimmed(cs, start, cs.len() as int)),
        trimmed(cs, start, cs.len() as int).len() == 0 ==> split_from(cs, cs.len() as int, state, trig, start, acc) == acc,
{
}

proof fn lemma_no_semicolon(
    cs: Seq<char>,
    i: int,
    state: ScanState,
    in_trig: bool,
    start: int,
    acc: Seq<Seq<char>>,
)
    requires
        0 <= start <= i <= cs.len(),
        forall|k: int| 0 <= k < cs.len() ==> cs[k] != ';',
    ensures
        split_from(cs, i, state, in_trig, start, acc) == push_nonempty(acc, trimmed(cs, start, cs.len() as int)),
    decreases cs.len() - i,
{
    if i < cs.len() {
        let nx = step(cs, i, state, in_trig, start, acc);
        lemma_no_semicolon(cs, nx.0, nx.1, nx.2, nx.3, nx.4);
    }
}

/// A script without any semicolon is a single statement: the whole text, trimmed, or no
/// statement at all when that is empty.
pub proof fn law_no_semicolon_single_statement(sql: Seq<char>)
    requires
        forall|k: int| 0 <= k < sql.len() ==> sql[k] != ';',
    ensures
        split_spec(sql) == push_nonempty(Seq::empty(), trim_seq(sql)),
{
    lemma_no_semicolon(sql, 0, ScanState::Normal, trigger_start_at(sql, 0), 0, Seq::empty());
}

/// The pieces of `cs` cut at every semicolon from index `i` on, where the current piece began
/// at `start` and `acc` holds the pieces already cut; each piece trimmed, empty ones left out.
pub open spec fn semicolon_pieces(cs: Seq<char>, i: int, start: int, acc: Seq<Seq<char>>) -> Seq<Seq<char>>
    decreases cs.len() - i,
{
    if i >= cs.len() || i < 0 {
        push_nonempty(acc, trimmed(cs, start, cs.len() as int))
    } else if cs[i] == ';' {
        semicolon_pieces(cs, i + 1, i + 1, push_nonempty(acc, trimmed(cs, start, i)))
    } else {
        semicolon_pieces(cs, i + 1, start, acc)
    }
}

/// A script cut at every semicolon, each piece trimmed and empty pieces left out, as
/// `sql.split(';').map(str::trim).filter(|s| !s.is_empty())` does.
pub open spec fn split_on_semicolons(sql: Seq<char>) -> Seq<Seq<char>> {
    semicolon_pieces(sql, 0, 0, Seq::empty())
}

/// A script of plain statements: no quote of either kind, no `--` or `/*` comment opener,
/// and no statement (the text at the start or after a semicolon) that creates a trigger.
pub open spec fn plain_script(sql: Seq<char>) -> bool {
    &&& forall|k: int| 0 <= k < sql.len() ==> #[trigger] sql[k] != '\'' && sql[k] != '"'
    &&& forall|k: int| 0 <= k < sql.len() - 1 ==> !(#[trigger] sql[k] == '-' && sql[k + 1] == '-')
    &&& forall|k: int| 0 <= k < sql.len() - 1 ==> !(#[trigger] sql[k] == '/' && sql[k + 1] == '*')
    &&& !trigger_start_at(sql, 0)
    &&& forall|k: int| 0 <= k < sql.len() && #[trigger] sql[k] == ';' ==> !trigger_start_at(sql, k + 1)
}

proof fn lemma_plain_split_from(cs: Seq<char>, i: int, start: int, acc: Seq<Seq<char>>)
    requires
        plain_script(cs),
        0 <= start <= i <= cs.len(),
    ensures
        split_from(cs, i, ScanState::Normal, false, start, acc) == semicolon_pieces(cs, i, start, acc),
    decreases cs.len() - i,
{
    if i < cs.len() {
        let ch = cs[i];
        assert(ch != '\'' && ch != '"');
        if i + 1 < cs.len() {
            assert(!(cs[i] == '-' && cs[i + 1] == '-'));
            assert(!(cs[i] == '/' && cs[i + 1] == '*'));
        }
        if ch == ';' {
            assert(!trigger_start_at(cs, i + 1));
            lemma_plain_split_from(cs, i + 1, i + 1, push_nonempty(acc, trimmed(cs, start, i)));
        } else {
            lemma_plain_split_from(cs, i + 1, start, acc);
        }
    }
}

/// A script of plain statements splits exactly at its semicolons: the statements are the
/// pieces between semicolons, trimmed, with empty pieces left out.
pub proof fn law_plain_statements_split_at_semicolons(sql: Seq<char>)
    requires
        plain_script(sql),
    ensures
        split_spec(sql) == split_on_semicolons(sql),
{
    lemma_plain_split_from(sql, 0, 0, Seq::empty());
}

fn next_char_index(cs: &Vec<char>, j: usize, c: char) -> (r: usize)
    requires
        j <= cs.len(),
    ensures
        r == next_char_at(cs@, j as int, c),
{
    let mut p = j;
    while p < cs.len() && cs[p] != c
        invariant
            j <= p <= cs.len(),
            next_char_at(cs@, p as int, c) == next_char_at(cs@, j as int, c),
        decreases cs.len() - p,
    {
        p += 1;
    }
    p
}

fn next_pair_index(cs: &Vec<char>, j: usize, a: char, b: char) -> (r: usize)
    requires
        j <= cs.len(),
    ensures
        r == next_pair_at(cs@, j as int, a, b),
{
    let mut p = j;
    while p < cs.len() && p + 1 < cs.len() && !(cs[p] == a && cs[p + 1] == b)
        invariant
            j <= p <= cs.len(),
            next_pair_at(cs@, p as int, a, b) == next_pair_at(cs@, j as int, a, b),
        decreases cs.len() - p,
    {
        p += 1;
    }
    if p < cs.len() && p + 1 < cs.len() {
        p
    } else {
        cs.len()
    }
}

fn cws_end_index(cs: &Vec<char>, i0: usize) -> (r: usize)
    requires
        i0 <= cs.len(),
    ensures
        r == cws_end(cs@, i0 as int),
{
    let n = cs.len();
    let mut i = i0;
    loop
        invariant
            n == cs.len(),
            i <= n,
            cws_end(cs@, i as int) == cws_end(cs@, i0 as int),
        decreases n - i,
    {
        let j = skip_ws_fwd(cs, i, n);
        proof {
            lemma_ws_fwd_bounds(cs@, i as int, n as int);
        }
        if j < n && j + 1 < n && cs[j] == '-' && cs[j + 1] == '-' {
            let p = next_char_index(cs, j, '\n');
            proof {
                lemma_next_char_at_bounds(cs@, j as int, '\n');
            }
            if p < n {
                i = p + 1;
            } else {
                return n;
            }
        } else if j < n && j + 1 < n && cs[j] == '/' && cs[j + 1] == '*' {
            let p = next_pair_index(cs, j, '*', '/');
            proof {
                lemma_next_pair_at_bounds(cs@, j as int, '*', '/');
            }
            if p < n {
                i = p + 2;
            } else {
                return n;
            }
        } else {
            return j;
        }
    }
}

/// Whether an uppercased text begins with `CREATE TRIGGER` or `CREATE OR REPLACE TRIGGER`.
pub fn has_trigger_keyword(upper: &str) -> (r: bool)
    ensures
        r == trigger_keyword(upper@),
{
    let cs = chars_of(upper);
    let plain = chars_of("CREATE TRIGGER");
    let replace = chars_of("CREATE OR REPLACE TRIGGER");
    starts_with(&cs, &plain) || starts_with(&cs, &replace)
}

fn trigger_start_index(cs: &Vec<char>, i: usize) -> (r: bool)
    requires
        i <= cs.len(),
    ensures
        r == trigger_start_at(cs@, i as int),
        is_ascii_text(cs@.subrange(cws_end(cs@, i as int), cs@.len() as int)) ==> r == trigger_keyword(
            cs@.subrange(cws_end(cs@, i as int), cs@.len() as int).map_values(|c: char| ascii_upper(c)),
        ),
{
    let k = cws_end_index(cs, i);
    proof {
        lemma_cws_end_bounds(cs@, i as int);
    }
    let rest = string_of(cs, k, cs.len());
    let upper = str_to_uppercase(rest.as_str());
    has_trigger_keyword(upper.as_str())
}

fn ascii_ci_exec(c: char, upper: char) -> (r: bool)
    requires
        'A' <= upper <= 'Z',
    ensures
        r == ascii_ci(c, upper),
{
    let lower = ((upper as u8) + 32) as char;
    c == upper || c == lower
}

fn trigger_end_range(cs: &Vec<char>, lo: usize, hi: usize) -> (r: bool)
    requires
        lo <= hi <= cs.len(),
    ensures
        r == trigger_end_at(cs@, lo as int, hi as int),
{
    let e = skip_ws_back(cs, lo, hi);
    proof {
        lemma_ws_back_bounds(cs@, lo as int, hi as int);
    }
    if e - lo < 3 {
        return false;
    }
    if !(ascii_ci_exec(cs[e - 3], 'E') && ascii_ci_exec(cs[e - 2], 'N') && ascii_ci_exec(cs[e - 1], 'D')) {
        return false;
    }
    if e - lo == 3 {
        return true;
    }
    let before = cs[e - 4];
    before == ' ' || before == '\t' || before == '\n' || before == '\u{c}' || before == '\r'
        || before == ';'
}

/// `s` without its leading whitespace and `--` or `/* */` comments; empty when a comment is
/// left open.
pub fn skip_comments_and_whitespace(s: &str) -> (r: &str)
    ensures
        r@ == s@.subrange(cws_end(s@, 0), s@.len() as int),
{
    let cs = chars_of(s);
    let k = cws_end_index(&cs, 0);
    proof {
        lemma_cws_end_bounds(cs@, 0);
    }
    s.substring_char(k, cs.len())
}

/// Whether the text, past leading whitespace and comments, starts a trigger definition.
pub fn is_trigger_start(s: &str) -> (r: bool)
    ensures
        r == trigger_start_at(s@, 0),
        is_ascii_text(s@) ==> r == trigger_keyword(
            s@.subrange(cws_end(s@, 0), s@.len() as int).map_values(|c: char| ascii_upper(c)),
        ),
{
    let cs = chars_of(s);
    proof {
        lemma_cws_end_bounds(s@, 0);
        if is_ascii_text(s@) {
            lemma_ascii_subrange(s@, cws_end(s@, 0), s@.len() as int);
        }
    }
    trigger_start_index(&cs, 0)
}

/// Whether the text, past trailing whitespace, ends the body of a trigger with `END`.
pub fn is_trigger_end(s: &str) -> (r: bool)
    ensures
        r == trigger_end_at(s@, 0, s@.len() as int),
{
    let cs = chars_of(s);
    trigger_end_range(&cs, 0, cs.len())
}

/// The views of a list of strings.
pub open spec fn views(v: Seq<String>) -> Seq<Seq<char>> {
    v.map_values(|s: String| s@)
}

/// Splits a migration script into its statements, trimmed and without the separating
/// semicolons; a trigger definition keeps the semicolons of its body and its final `END;`.
pub fn split_sql_statements(sql: &str) -> (r: Vec<String>)
    ensures
        views(r@) == split_spec(sql@),
{
    let cs = chars_of(sql);
    let n = cs.len();
    let mut statements: Vec<String> = Vec::new();
    let mut state = ScanState::Normal;
    let mut in_trigger_body = trigger_start_index(&cs, 0);
    let mut statement_start: usize = 0;
    let mut i: usize = 0;
    assert(views(statements@) =~= Seq::<Seq<char>>::empty());
    while i < n
        invariant
            n == cs.len(),
            cs@ == sql@,
            statement_start <= i <= n,
            split_from(cs@, i as int, state, in_trigger_body, statement_start as int, views(statements@))
                == split_spec(sql@),
        decreases n - i,
    {
        let ch = cs[i];
        let has_next = i + 1 < n;
        let ghost before = views(statements@);
        match state {
            ScanState::Normal => {
                if ch == '\'' {
                    state = ScanState::SingleQuoted;
                    i += 1;
                } else if ch == '"' {
                    state = ScanState::DoubleQuoted;
                    i += 1;
                } else if ch == '-' && has_next && cs[i + 1] == '-' {
                    state = ScanState::LineComment;
                    i += 1;
                } else if ch == '/' && has_next && cs[i + 1] == '*' {
                    state = ScanState::BlockComment;
                    i += 1;
                } else if ch == ';' {
                    if in_trigger_body {
                        if trigger_end_range(&cs, statement_start, i) {
                            let stmt = trimmed_string(&cs, statement_start, i + 1);
                            if !stmt.as_str().is_empty() {
                                statements.push(stmt);
                                assert(views(statements@) =~= before.push(stmt@));
                            }
                            statement_start = i + 1;
                            in_trigger_body = trigger_start_index(&cs, i + 1);
                        }
                    } else {
                        let stmt = trimmed_string(&cs, statement_start, i);
                        if !stmt.as_str().is_empty() {
                            statements.push(stmt);
                            assert(views(statements@) =~= before.push(stmt@));
                        }
                        statement_start = i + 1;
                        in_trigger_body = trigger_start_index(&cs, i + 1);
                    }
                    i += 1;
                } else {
                    i += 1;
                }
            },
            ScanState::SingleQuoted => {
                if ch == '\'' {
                    if has_next && cs[i + 1] == '\'' {
                        i += 2;
                    } else {
                        state = ScanState::Normal;
                        i += 1;
                    }
                } else {
                    i += 1;
                }
            },
            ScanState::DoubleQuoted => {
                if ch == '"' {
                    state = ScanState::Normal;
                }
                i += 1;
            },
            ScanState::LineComment => {
                if ch == '\n' {
                    state = ScanState::Normal;
                }
                i += 1;
            },
            ScanState::BlockComment => {
                if ch == '*' && has_next && cs[i + 1] == '/' {
                    state = ScanState::Normal;
                    i += 2;
                } else {
                    i += 1;
                }
            },
        }
    }
    let ghost before = views(statements@);
    let rest = trimmed_string(&cs, statement_start, n);
    if !rest.as_str().is_empty() {
        statements.push(rest);
        assert(views(statements@) =~= before.push(rest@));
    }
    statements
}

/// A schema migration: its version, ordered as text, and the script that applies it.
pub struct Migration {
    pub version: &'static str,
    pub sql: &'static str,
}

/// `a` comes after `b` in the order of `str`: lexicographic by character, a proper prefix
/// coming first.
pub open spec fn text_after(a: Seq<char>, b: Seq<char>) -> bool
    decreases a.len(),
{
    if a.len() == 0 {
        false
    } else if b.len() == 0 {
        true
    } else if a[0] != b[0] {
        a[0] > b[0]
    } else {
        text_after(a.drop_first(), b.drop_first())
    }
}

/// Whether `a` comes after `b` in the order of `str`.
pub fn str_after(a: &str, b: &str) -> (r: bool)
    ensures
        r == text_after(a@, b@),
{
    let x = chars_of(a);
    let y = chars_of(b);
    let mut i: usize = 0;
    assert(x@.skip(0) =~= x@);
    assert(y@.skip(0) =~= y@);
    while i < x.len() && i < y.len() && x[i] == y[i]
        invariant
            i <= x.len(),
            i <= y.len(),
            text_after(x@.skip(i as int), y@.skip(i as int)) == text_after(a@, b@),
        decreases x.len() - i,
    {
        assert(x@.skip(i as int).drop_first() =~= x@.skip(i + 1));
        assert(y@.skip(i as int).drop_first() =~= y@.skip(i + 1));
        i += 1;
    }
    if i == x.len() {
        assert(x@.skip(i as int).len() == 0);
        false
    } else if i == y.len() {
        assert(y@.skip(i as int).len() == 0);
        true
    } else {
        assert(x@.skip(i as int)[0] == x@[i as int]);
        assert(y@.skip(i as int)[0] == y@[i as int]);
        x[i] > y[i]
    }
}

/// The migrations of `all` whose version comes after `current`, in the order of the list.
pub open spec fn pending_spec(all: Seq<Migration>, current: Seq<char>) -> Seq<Migration>
    decreases all.len(),
{
    if all.len() == 0 {
        Seq::empty()
    } else {
        let rest = pending_spec(all.drop_last(), current);
        if text_after(all.last().version@, current) {
            rest.push(all.last())
        } else {
            rest
        }
    }
}

/// The migrations still to apply to a database at schema version `current_version`.
pub fn pending_migrations(all: Vec<Migration>, current_version: &str) -> (r: Vec<Migration>)
    ensures
        r@ == pending_spec(all@, current_version@),
{
    let mut out: Vec<Migration> = Vec::new();
    let mut i: usize = 0;
    while i < all.len()
        invariant
            i <= all.len(),
            out@ == pending_spec(all@.take(i as int), current_version@),
        decreases all.len() - i,
    {
        let m = &all[i];
        assert(all@.take(i + 1).drop_last() =~= all@.take(i as int));
        if str_after(m.version, current_version) {
            out.push(Migration { version: m.version, sql: m.sql });
        }
        i += 1;
    }
    assert(all@.take(all.len() as int) =~= all@);
    out
}

/// No text comes after itself.
proof fn lemma_text_after_irreflexive(a: Seq<char>)
    ensures
        !text_after(a, a),
    decreases a.len(),
{
    if a.len() > 0 {
        lemma_text_after_irreflexive(a.drop_first());
    }
}

/// Of two texts, at most one comes after the other.
proof fn lemma_text_after_asymmetric(a: Seq<char>, b: Seq<char>)
    requires
        text_after(a, b),
    ensures
        !text_after(b, a),
    decreases a.len(),
{
    if a.len() > 0 && b.len() > 0 && a[0] == b[0] {
        lemma_text_after_asymmetric(a.drop_first(), b.drop_first());
    }
}

proof fn lemma_nothing_after_is_not_pending(all: Seq<Migration>, current: Seq<char>)
    requires
        forall|k: int| 0 <= k < all.len() ==> !text_after(#[trigger] all[k].version@, current),
    ensures
        pending_spec(all, current).len() == 0,
    decreases all.len(),
{
    if all.len() > 0 {
        let init = all.drop_last();
        assert forall|k: int| 0 <= k < init.len() implies !text_after(#[trigger] init[k].version@, current) by {
            assert(init[k] == all[k]);
        }
        lemma_nothing_after_is_not_pending(init, current);
        assert(!text_after(all[all.len() - 1].version@, current));
    }
}

/// Migrating is idempotent: when the versions increase along the list, a database that is at
/// the newest version (where applying the pending migrations leaves it) has nothing pending.
pub proof fn law_newest_version_has_nothing_pending(all: Seq<Migration>)
    requires
        all.len() > 0,
        forall|i: int, j: int|
            0 <= i < j < all.len() ==> text_after(#[trigger] all[j].version@, #[trigger] all[i].version@),
    ensures
        pending_spec(all, all.last().version@).len() == 0,
{
    let newest = all.last().version@;
    assert forall|k: int| 0 <= k < all.len() implies !text_after(#[trigger] all[k].version@, newest) by {
        if k == all.len() - 1 {
            lemma_text_after_irreflexive(newest);
        } else {
            assert(text_after(all[all.len() - 1].version@, all[k].version@));
            lemma_text_after_asymmetric(newest, all[k].version@);
        }
    }
    lemma_nothing_after_is_not_pending(all, newest);
}

/// Text order is transitive.
proof fn lemma_text_after_transitive(a: Seq<char>, b: Seq<char>, c: Seq<char>)
    requires
        text_after(a, b),
        text_after(b, c),
    ensures
        text_after(a, c),
    decreases a.len(),
{
    if a.len() > 0 && b.len() > 0 && c.len() > 0 && a[0] == b[0] && b[0] == c[0] {
        lemma_text_after_transitive(a.drop_first(), b.drop_first(), c.drop_first());
    }
}

proof fn lemma_text_after_common_prefix(p: Seq<char>, a: Seq<char>, b: Seq<char>)
    ensures
        text_after(p + a, p + b) == text_after(a, b),
    decreases p.len(),
{
    if p.len() > 0 {
        assert((p + a).drop_first() =~= p.drop_first() + a);
        assert((p + b).drop_first() =~= p.drop_first() + b);
        lemma_text_after_common_prefix(p.drop_first(), a, b);
    }
}

/// Versions compare as text, character by character: after a common beginning, the text
/// with the greater character at the first difference comes after; a text comes after each
/// of its proper beginnings; no text comes after itself; and of two different texts exactly
/// one comes after the other.
pub proof fn law_text_after_is_text_order(p: Seq<char>, x: char, y: char, r1: Seq<char>, r2: Seq<char>, a: Seq<char>, b: Seq<char>)
    ensures
        x > y ==> text_after(p + seq![x] + r1, p + seq![y] + r2),
        r1.len() > 0 ==> text_after(p + r1, p),
        !text_after(a, a),
        a != b ==> (text_after(a, b) != text_after(b, a)),
{
    assert(p + seq![x] + r1 =~= p + (seq![x] + r1));
    assert(p + seq![y] + r2 =~= p + (seq![y] + r2));
    lemma_text_after_common_prefix(p, seq![x] + r1, seq![y] + r2);
    assert((seq![x] + r1)[0] == x);
    assert((seq![y] + r2)[0] == y);
    assert(p =~= p + Seq::<char>::empty());
    lemma_text_after_common_prefix(p, r1, Seq::<char>::empty());
    lemma_text_after_irreflexive(a);
    if a != b {
        lemma_text_after_total(a, b);
        if text_after(a, b) {
            lemma_text_after_asymmetric(a, b);
        }
    }
}

proof fn lemma_text_after_total(a: Seq<char>, b: Seq<char>)
    requires
        a != b,
    ensures
        text_after(a, b) || text_after(b, a),
    decreases a.len(),
{
    if a.len() > 0 && b.len() > 0 && a[0] == b[0] {
        if a.drop_first() == b.drop_first() {
            assert(a =~= seq![a[0]] + a.drop_first());
            assert(b =~= seq![b[0]] + b.drop_first());
        }
        lemma_text_after_total(a.drop_first(), b.drop_first());
    } else if a.len() == 0 && b.len() == 0 {
        assert(a =~= b);
    }
}

/// The migrations still pending on a database at version `current` are exactly those of the
/// list whose version comes after `current`, in the order of the list.
pub proof fn law_pending_are_the_later_versions(all: Seq<Migration>, current: Seq<char>)
    ensures
        pending_spec(all, current) == all.filter(|m: Migration| text_after(m.version@, current)),
    decreases all.len(),
{
    reveal_with_fuel(Seq::<Migration>::filter, 1);
    if all.len() > 0 {
        law_pending_are_the_later_versions(all.drop_last(), current);
    }
}

/// A migration is pending only when some migration comes after the current version.
proof fn lemma_pending_has_later(all: Seq<Migration>, current: Seq<char>)
    requires
        pending_spec(all, current).len() > 0,
    ensures
        exists|k: int| 0 <= k < all.len() && text_after(#[trigger] all[k].version@, current),
    decreases all.len(),
{
    if all.len() > 0 {
        if text_after(all.last().version@, current) {
            assert(text_after(all[all.len() - 1].version@, current));
        } else {
            let init = all.drop_last();
            lemma_pending_has_later(init, current);
            let k = choose|k: int| 0 <= k < init.len() && text_after(#[trigger] init[k].version@, current);
            assert(all[k] == init[k]);
        }
    }
}

/// Running the migrations a second time applies nothing: when the versions increase along
/// the list, once the pending migrations of a database at version `current` are applied (the
/// database then being at the version of the last one applied, or still at `current` when
/// none was pending), no migration is pending.
pub proof fn law_second_run_applies_nothing(all: Seq<Migration>, current: Seq<char>)
    requires
        forall|i: int, j: int|
            0 <= i < j < all.len() ==> text_after(#[trigger] all[j].version@, #[trigger] all[i].version@),
    ensures
        ({
            let applied = pending_spec(all, current);
            let after = if applied.len() > 0 {
                applied.last().version@
            } else {
                current
            };
            pending_spec(all, after).len() == 0
        }),
{
    let applied = pending_spec(all, current);
    if applied.len() > 0 {
        lemma_pending_has_later(all, current);
        let k = choose|k: int| 0 <= k < all.len() && text_after(#[trigger] all[k].version@, current);
        if k < all.len() - 1 {
            assert(text_after(all[all.len() - 1].version@, all[k].version@));
            lemma_text_after_transitive(all[all.len() - 1].version@, all[k].version@, current);
        }
        assert(text_after(all.last().version@, current));
        assert(applied.last() == all.last());
        law_newest_version_has_nothing_pending(all);
    }
}

} // verus!
