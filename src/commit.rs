//! Commit records and the parser of their messages.
use vstd::prelude::*;
use crate::text::{
    lemma_trimmed_ends, char_fold, eq_ignore_case, find_char, find_from, fold_code, is_ws, trim_range, trimmed,
};

verus! {

/// One commit as the version-control system reports it.
pub struct RawCommit {
    pub id: String,
    pub author: String,
    /// Seconds since the Unix epoch.
    pub date: i64,
    pub message: String,
}

/// A commit with its message split into the conventional header fields.
pub struct ParsedCommit {
    pub raw: RawCommit,
    pub kind: Option<String>,
    pub scope: Option<String>,
    pub subject: String,
    pub body: Option<String>,
    pub breaking: bool,
}

/// The fields of a header of the form `type(scope)!: subject`.
pub struct Header {
    pub kind: Seq<char>,
    pub scope: Option<Seq<char>>,
    pub bang: bool,
    pub subject: Seq<char>,
}

pub open spec fn opt_view(o: Option<String>) -> Option<Seq<char>> {
    match o {
        Some(s) => Some(s@),
        None => None,
    }
}

/// Characters of a type token.
pub open spec fn is_kind_char(c: char) -> bool {
    ('a' <= c && c <= 'z') || ('A' <= c && c <= 'Z') || ('0' <= c && c <= '9')
}

/// The end of the type token that starts at `i`.
pub open spec fn kind_end(h: Seq<char>, i: int) -> int
    decreases h.len() - i,
{
    if 0 <= i < h.len() && is_kind_char(h[i]) {
        kind_end(h, i + 1)
    } else {
        i
    }
}

/// Whether a scope in parentheses starts at `k`.
pub open spec fn opens_scope(h: Seq<char>, k: int) -> bool {
    0 <= k < h.len() && h[k] == '('
}

/// The index of the `)` that closes a scope opened at `k`.
pub open spec fn scope_close(h: Seq<char>, k: int) -> int {
    find_from(h, ')', k + 1)
}

/// Whether the scope opened at `k` is closed and holds more than white space.
pub open spec fn scope_ok(h: Seq<char>, k: int) -> bool {
    scope_close(h, k) < h.len() && trimmed(h.subrange(k + 1, scope_close(h, k))).len() > 0
}

/// The index after the type token and the scope, if any.
pub open spec fn after_scope(h: Seq<char>) -> int {
    let k = kind_end(h, 0);
    if opens_scope(h, k) {
        scope_close(h, k) + 1
    } else {
        k
    }
}

pub open spec fn has_bang(h: Seq<char>) -> bool {
    after_scope(h) < h.len() && h[after_scope(h)] == '!'
}

/// The index of the `:` of the separator.
pub open spec fn colon_at(h: Seq<char>) -> int {
    if has_bang(h) {
        after_scope(h) + 1
    } else {
        after_scope(h)
    }
}

/// The header grammar `type(scope)!: subject`: a non-empty alphanumeric type,
/// an optional non-blank scope in parentheses, an optional `!`, then `: ` and a
/// non-blank subject. Scope and subject are trimmed.
pub open spec fn header_of(h: Seq<char>) -> Option<Header> {
    let k = kind_end(h, 0);
    let q = colon_at(h);
    if k > 0 && (!opens_scope(h, k) || scope_ok(h, k)) && q + 1 < h.len() && h[q] == ':'
        && h[q + 1] == ' ' && trimmed(h.subrange(q + 2, h.len() as int)).len() > 0 {
        Some(
            Header {
                kind: h.subrange(0, k),
                scope: if opens_scope(h, k) {
                    Some(trimmed(h.subrange(k + 1, scope_close(h, k))))
                } else {
                    None
                },
                bang: has_bang(h),
                subject: trimmed(h.subrange(q + 2, h.len() as int)),
            },
        )
    } else {
        None
    }
}

/// The first line of a message.
pub open spec fn header_line(m: Seq<char>) -> Seq<char> {
    m.subrange(0, find_from(m, '\n', 0))
}

/// What follows the first line of a message.
pub open spec fn body_text(m: Seq<char>) -> Seq<char> {
    if find_from(m, '\n', 0) < m.len() {
        m.subrange(find_from(m, '\n', 0) + 1, m.len() as int)
    } else {
        Seq::empty()
    }
}

pub open spec fn marker() -> Seq<char> {
    seq!['B', 'R', 'E', 'A', 'K', 'I', 'N', 'G', ' ', 'C', 'H', 'A', 'N', 'G', 'E']
}

/// A line of `b` starts at `i` with the breaking-change marker, in any case.
pub open spec fn marker_at(b: Seq<char>, i: int) -> bool {
    0 <= i && i + 15 <= b.len() && (i == 0 || b[i - 1] == '\n') && eq_ignore_case(
        b.subrange(i, i + 15),
        marker(),
    )
}

pub open spec fn has_marker(b: Seq<char>) -> bool {
    exists|i: int| marker_at(b, i)
}

/// Whether the message marks a breaking change.
pub open spec fn breaking_of(m: Seq<char>) -> bool {
    (header_of(header_line(m)) is Some && header_of(header_line(m))->Some_0.bang) || has_marker(
        body_text(m),
    )
}

/// The body of a message: what follows the first line, trimmed, if anything.
pub open spec fn body_of(m: Seq<char>) -> Option<Seq<char>> {
    if trimmed(body_text(m)).len() > 0 {
        Some(trimmed(body_text(m)))
    } else {
        None
    }
}

/// What parsing gives for a message, over its fields.
pub open spec fn parsed_from(p: ParsedCommit, m: Seq<char>) -> bool {
    let h = header_line(m);
    &&& match header_of(h) {
        Some(hd) => {
            &&& opt_view(p.kind) == Some(hd.kind)
            &&& opt_view(p.scope) == hd.scope
            &&& p.subject@ == hd.subject
        },
        None => {
            &&& p.kind is None
            &&& p.scope is None
            &&& p.subject@ == h
        },
    }
    &&& opt_view(p.body) == body_of(m)
    &&& p.breaking == breaking_of(m)
}

/// A message whose first line follows the header grammar has a non-empty,
/// alphanumeric type, and a subject and scope that are non-empty and neither
/// start nor end with white space.
pub proof fn lemma_header_fields_trimmed(m: Seq<char>)
    requires
        header_of(header_line(m)) is Some,
    ensures
        ({
            let hd = header_of(header_line(m))->Some_0;
            &&& hd.kind.len() > 0
            &&& forall|i: int| 0 <= i < hd.kind.len() ==> is_kind_char(#[trigger] hd.kind[i])
            &&& hd.subject.len() > 0
            &&& !is_ws(hd.subject[0]) && !is_ws(hd.subject.last())
            &&& hd.scope is Some ==> {
                let sc = hd.scope->Some_0;
                sc.len() > 0 && !is_ws(sc[0]) && !is_ws(sc.last())
            }
        }),
{
    let h = header_line(m);
    let hd = header_of(h)->Some_0;
    let k = kind_end(h, 0);
    lemma_kind_end(h, 0);
    let q = colon_at(h);
    lemma_trimmed_ends(h.subrange(q + 2, h.len() as int));
    if opens_scope(h, k) {
        lemma_trimmed_ends(h.subrange(k + 1, scope_close(h, k)));
    }
}

proof fn lemma_kind_end(h: Seq<char>, i: int)
    requires
        0 <= i <= h.len(),
    ensures
        i <= kind_end(h, i) <= h.len(),
        forall|j: int| i <= j < kind_end(h, i) ==> is_kind_char(#[trigger] h[j]),
    decreases h.len() - i,
{
    if i < h.len() && is_kind_char(h[i]) {
        lemma_kind_end(h, i + 1);
    }
}

fn is_kind_ch(c: char) -> (r: bool)
    ensures
        r == is_kind_char(c),
{
    ('a' <= c && c <= 'z') || ('A' <= c && c <= 'Z') || ('0' <= c && c <= '9')
}

/// Whether a line of `b` starts at `i` with the marker.
fn marker_starts(b: &str, n: usize, i: usize) -> (r: bool)
    requires
        n == b@.len(),
        i + 15 <= n,
    ensures
        r == marker_at(b@, i as int),
{
    if i > 0 && b.get_char(i - 1) != '\n' {
        return false;
    }
    let m = ['B', 'R', 'E', 'A', 'K', 'I', 'N', 'G', ' ', 'C', 'H', 'A', 'N', 'G', 'E'];
    assert(m@ =~= marker());
    let mut j: usize = 0;
    while j < 15
        invariant
            j <= 15,
            i + 15 <= n,
            n == b@.len(),
            m@ == marker(),
            forall|k: int| 0 <= k < j ==> fold_code(#[trigger] b@[i + k]) == fold_code(marker()[k]),
        decreases 15 - j,
    {
        if char_fold(b.get_char(i + j)) != char_fold(m[j]) {
            assert(fold_code(b@.subrange(i as int, i + 15)[j as int]) != fold_code(marker()[j as int]));
            return false;
        }
        j = j + 1;
    }
    assert forall|k: int| 0 <= k < 15 implies fold_code(#[trigger] b@.subrange(i as int, i + 15)[k])
        == fold_code(marker()[k]) by {
        assert(b@.subrange(i as int, i + 15)[k] == b@[i + k]);
    }
    true
}

/// Whether some line of `b` starts with the breaking-change marker.
fn find_marker(b: &str) -> (r: bool)
    ensures
        r == has_marker(b@),
{
    let n = b.unicode_len();
    if n < 15 {
        return false;
    }
    let mut i: usize = 0;
    while i <= n - 15
        invariant
            n == b@.len(),
            15 <= n,
            i <= n - 14,
            forall|k: int| 0 <= k < i ==> !marker_at(b@, k),
        decreases n - i,
    {
        if marker_starts(b, n, i) {
            return true;
        }
        i = i + 1;
    }
    false
}

/// Parses a commit message. Parsing never fails: a header that does not follow
/// the grammar leaves `kind` and `scope` empty and becomes the subject whole.
pub fn parse(raw: RawCommit) -> (p: ParsedCommit)
    ensures
        p.raw == raw,
        parsed_from(p, raw.message@),
{
    let m = raw.message.as_str();
    let len = m.unicode_len();
    let nl = find_char(m, '\n', 0);
    let h = m.substring_char(0, nl);
    let hl = nl;
    let body_raw: &str = if nl < len {
        m.substring_char(nl + 1, len)
    } else {
        m.substring_char(len, len)
    };
    assert(h@ == header_line(m@));
    assert(body_raw@ =~= body_text(m@));
    let body_trim = trim_range(body_raw, 0, body_raw.unicode_len());
    assert(body_raw@.subrange(0, body_raw@.len() as int) =~= body_raw@);
    let body = if body_trim.unicode_len() > 0 {
        Some(body_trim)
    } else {
        None
    };
    let marked = find_marker(body_raw);
    // type token
    let mut k: usize = 0;
    while k < hl && is_kind_ch(h.get_char(k))
        invariant
            k <= hl,
            hl == h@.len(),
            kind_end(h@, 0) == kind_end(h@, k as int),
        decreases hl - k,
    {
        k = k + 1;
    }
    let mut ok = k > 0;
    let mut scope: Option<String> = None;
    let mut p: usize = k;
    if ok && k < hl && h.get_char(k) == '(' {
        let c = find_char(h, ')', k + 1);
        if c < hl {
            let s = trim_range(h, k + 1, c);
            if s.unicode_len() > 0 {
                scope = Some(s);
                p = c + 1;
            } else {
                ok = false;
            }
        } else {
            ok = false;
        }
    }
    let bang = ok && p < hl && h.get_char(p) == '!';
    let q: usize = if bang { p + 1 } else { p };
    if ok && q < hl && q + 1 < hl && h.get_char(q) == ':' && h.get_char(q + 1) == ' ' {
        let subject = trim_range(h, q + 2, hl);
        if subject.unicode_len() > 0 {
            let kind = String::from_str(h.substring_char(0, k));
            assert(header_of(h@) is Some);
            return ParsedCommit {
                raw,
                kind: Some(kind),
                scope,
                subject,
                body,
                breaking: bang || marked,
            };
        }
    }
    assert(header_of(h@) is None);
    let subject = String::from_str(h);
    ParsedCommit { raw, kind: None, scope: None, subject, body, breaking: marked }
}

} // verus!
