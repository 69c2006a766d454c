//! Naming of the group content windows (files and albums): which user and group
//! identifiers are acceptable, and the labels, addresses and titles built from them.
use vstd::prelude::*;
use vstd::string::*;
use vstd::utf8::encode_utf8;

use crate::error::{AppError, AppResult};
use crate::text::chars_of;

verus! {

/// The characters allowed in an identifier used in a window label or address:
/// ASCII letters and digits, `_` and `-`.
pub open spec fn id_char_allowed(c: char) -> bool {
    ('A' <= c && c <= 'Z') || ('a' <= c && c <= 'z') || ('0' <= c && c <= '9') || c == '_' || c == '-'
}

/// The longest identifier accepted, in bytes.
pub const MAX_ID_BYTES: usize = 128;

/// The message of the validation error that `validate_id_component` reports for `id`,
/// or `None` when the identifier is accepted. `byte_len` is the length of its UTF-8 encoding.
pub open spec fn id_problem(id: Seq<char>, byte_len: nat) -> Option<Seq<char>> {
    if id.len() == 0 {
        Some("id must not be empty"@)
    } else if byte_len > 128 {
        Some("id must not exceed 128 characters"@)
    } else if forall|k: int| 0 <= k < id.len() ==> id_char_allowed(#[trigger] id[k]) {
        None
    } else {
        Some("id contains invalid characters (allowed: A-Z, a-z, 0-9, _, -)"@)
    }
}

/// An identifier that is not empty and fits in 128 bytes is accepted exactly when every
/// character is an ASCII letter, an ASCII decimal digit (`0` through `9`), `_` or `-`.
pub proof fn law_id_accepted_iff_plain_chars(id: Seq<char>, byte_len: nat)
    requires
        id.len() > 0,
        byte_len <= 128,
    ensures
        id_problem(id, byte_len) is None <==> forall|k: int|
            0 <= k < id.len() ==> {
                let c = #[trigger] id[k];
                ||| ('A' <= c && c <= 'Z')
                ||| ('a' <= c && c <= 'z')
                ||| c == '0' || c == '1' || c == '2' || c == '3' || c == '4'
                ||| c == '5' || c == '6' || c == '7' || c == '8' || c == '9'
                ||| c == '_'
                ||| c == '-'
            },
{
}

/// Accepts a user or group identifier that is non-empty, at most 128 bytes long and made of
/// ASCII letters, digits, `_` and `-` only; otherwise a validation error says which rule failed.
pub fn validate_id_component(id: &str) -> (r: AppResult<()>)
    ensures
        r is Ok <==> id_problem(id@, id.len() as nat) is None,
        r matches Err(e) ==> e is Validation && id_problem(id@, id.len() as nat) == Some(
            e.message_view(),
        ),
{
    let cs = chars_of(id);
    if cs.len() == 0 {
        return Err(AppError::validation(String::from_str("id must not be empty")));
    }
    if id.len() > MAX_ID_BYTES {
        return Err(AppError::validation(String::from_str("id must not exceed 128 characters")));
    }
    let mut i: usize = 0;
    while i < cs.len()
        invariant
            i <= cs.len(),
            cs@ == id@,
            cs@.len() > 0,
            id.len() <= 128,
            forall|k: int| 0 <= k < i ==> id_char_allowed(#[trigger] cs@[k]),
        decreases cs.len() - i,
    {
        let c = cs[i];
        let ok = ('A' <= c && c <= 'Z') || ('a' <= c && c <= 'z') || ('0' <= c && c <= '9') || c
            == '_' || c == '-';
        if !ok {
            assert(!id_char_allowed(id@[i as int]));
            return Err(
                AppError::validation(
                    String::from_str("id contains invalid characters (allowed: A-Z, a-z, 0-9, _, -)"),
                ),
            );
        }
        i += 1;
    }
    Ok(())
}

/// The label of a group content window: `{kind}-{user_id}-{group_id}`.
pub open spec fn window_label(kind: Seq<char>, user_id: Seq<char>, group_id: Seq<char>) -> Seq<char> {
    kind + "-"@ + user_id + "-"@ + group_id
}

/// The window label `{kind}-{user_id}-{group_id}`.
pub fn group_content_window_label(kind: &str, user_id: &str, group_id: &str) -> (r: String)
    ensures
        r@ == window_label(kind@, user_id@, group_id@),
{
    let mut out = String::from_str(kind);
    out.append("-");
    out.append(user_id);
    out.append("-");
    out.append(group_id);
    out
}

/// The labels of the files window and of the albums window of a user and a group.
pub fn group_content_window_labels(user_id: &str, group_id: &str) -> (r: [String; 2])
    ensures
        r[0]@ == window_label("group-files"@, user_id@, group_id@),
        r[1]@ == window_label("group-albums"@, user_id@, group_id@),
{
    [
        group_content_window_label("group-files", user_id, group_id),
        group_content_window_label("group-albums", user_id, group_id),
    ]
}

/// Identifiers that `validate_id_component` accepts and that hold no `-` give distinct labels
/// to distinct (user, group) pairs of the same window kind.
pub proof fn law_labels_distinct_without_dash(
    kind: Seq<char>,
    u1: Seq<char>,
    g1: Seq<char>,
    u2: Seq<char>,
    g2: Seq<char>,
)
    requires
        forall|k: int| 0 <= k < u1.len() ==> u1[k] != '-',
        forall|k: int| 0 <= k < u2.len() ==> u2[k] != '-',
        window_label(kind, u1, g1) == window_label(kind, u2, g2),
    ensures
        u1 == u2,
        g1 == g2,
{
    reveal_strlit("-");
    let l1 = window_label(kind, u1, g1);
    let l2 = window_label(kind, u2, g2);
    let base: int = kind.len() as int + 1;
    let n1: int = u1.len() as int;
    let n2: int = u2.len() as int;
    assert(l1[base + n1] == '-');
    assert(l2[base + n2] == '-');
    if u1.len() < u2.len() {
        assert(l2[base + n1] == u2[u1.len() as int]);
        assert(false);
    }
    if u2.len() < u1.len() {
        assert(l1[base + n2] == u1[u2.len() as int]);
        assert(false);
    }
    assert(u1 =~= l1.subrange(base, base + n1));
    assert(u2 =~= l2.subrange(base, base + n2));
    assert(g1 =~= l1.subrange(base + n1 + 1, l1.len() as int));
    assert(g2 =~= l2.subrange(base + n2 + 1, l2.len() as int));
}

/// `urlencoding` keeps these bytes: ASCII letters and digits, `-`, `.`, `_` and `~`.
pub open spec fn url_safe_byte(b: u8) -> bool {
    (48 <= b && b <= 57) || (65 <= b && b <= 90) || (97 <= b && b <= 122) || b == 45 || b == 46
        || b == 95 || b == 126
}

/// The uppercase hexadecimal digit of `d < 16`.
pub open spec fn hex_digit(d: u8) -> char {
    if d < 10 {
        ((48 + d) as u8) as char
    } else {
        ((55 + d) as u8) as char
    }
}

/// Percent-encoding of a byte string: safe bytes stay, every other byte becomes `%XY`.
pub open spec fn percent_encode(bs: Seq<u8>) -> Seq<char>
    decreases bs.len(),
{
    if bs.len() == 0 {
        Seq::empty()
    } else {
        let b = bs[0];
        let head = if url_safe_byte(b) {
            seq![b as char]
        } else {
            seq!['%', hex_digit(b / 16), hex_digit(b % 16)]
        };
        head + percent_encode(bs.drop_first())
    }
}

/// `urlencoding::encode`: percent-encodes the UTF-8 bytes of `s`, keeping ASCII letters,
/// digits, `-`, `.`, `_` and `~`, and writing any other byte as `%` and two uppercase hex digits.
#[verifier::external_body]
fn url_encode(s: &str) -> (r: String)
    ensures
        r@ == percent_encode(encode_utf8(s@)),
{
    urlencoding::encode(s).into_owned()
}

/// The in-app address of a group content page: `index.html#/{route}?userId=..&groupId=..`
/// with both identifiers percent-encoded.
pub open spec fn window_url(route: Seq<char>, user_id: Seq<char>, group_id: Seq<char>) -> Seq<char> {
    "index.html#/"@ + route + "?userId="@ + percent_encode(encode_utf8(user_id)) + "&groupId="@
        + percent_encode(encode_utf8(group_id))
}

/// The in-app address of a group content page for a user and a group.
pub fn group_content_window_url(route: &str, user_id: &str, group_id: &str) -> (r: String)
    ensures
        r@ == window_url(route@, user_id@, group_id@),
{
    let mut out = String::from_str("index.html#/");
    out.append(route);
    out.append("?userId=");
    let u = url_encode(user_id);
    out.append(u.as_str());
    out.append("&groupId=");
    let g = url_encode(group_id);
    out.append(g.as_str());
    out
}

/// A window title: `{prefix} · {name}`.
pub fn window_title(prefix: &str, name: &str) -> (r: String)
    ensures
        r@ == prefix@ + " · "@ + name@,
{
    let mut out = String::from_str(prefix);
    out.append(" · ");
    out.append(name);
    out
}

/// The name shown for a group: its stored name, or its identifier when it is not stored.
pub fn group_display_name(group_name: Option<String>, group_id: &str) -> (r: String)
    ensures
        r@ == match group_name {
            Some(n) => n@,
            None => group_id@,
        },
{
    match group_name {
        Some(n) => n,
        None => String::from_str(group_id),
    }
}

} // verus!
