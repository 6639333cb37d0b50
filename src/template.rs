//! The template model: category rules, excluded types, and the parsed output template.
use vstd::prelude::*;
use crate::classify::{CategoryRule, RuleMatch};
use crate::renderer::{pieces_view, Layout, Piece, PieceV};
use crate::text::str_eq;

verus! {

/// Why a template is rejected.
pub enum ConfigError {
    /// The output template is empty, or the document has no `template:` line.
    MissingTemplate,
    /// A line of the document that is no setting, category or comment (trimmed).
    MalformedLine(String),
    /// Two categories share this label.
    DuplicateLabel(String),
    /// More than one category claims breaking changes.
    DuplicateBreakingRule,
    /// A `{{` without a later `}}`.
    UnclosedPlaceholder,
    /// A block marker out of place: `{{/each}}` or `{{|}}` outside a block,
    /// a block without its end, a second block, or a second `{{|}}`.
    MisplacedBlockMarker,
}

/// A validated template.
pub struct TemplateModel {
    pub rules: Vec<CategoryRule>,
    pub exclude: Vec<String>,
    pub layout: Layout,
}

pub open spec fn opens_at(t: Seq<char>, i: int) -> bool {
    0 <= i && i + 1 < t.len() && t[i] == '{' && t[i + 1] == '{'
}

pub open spec fn closes_at(t: Seq<char>, i: int) -> bool {
    0 <= i && i + 1 < t.len() && t[i] == '}' && t[i + 1] == '}'
}

/// The first `{{` at or after `i`, or `t.len()`.
pub open spec fn next_open(t: Seq<char>, i: int) -> int
    decreases t.len() - i,
{
    if i < 0 || i >= t.len() {
        t.len() as int
    } else if opens_at(t, i) {
        i
    } else {
        next_open(t, i + 1)
    }
}

/// The first `}}` at or after `i`, or `t.len()`.
pub open spec fn next_close(t: Seq<char>, i: int) -> int
    decreases t.len() - i,
{
    if i < 0 || i >= t.len() {
        t.len() as int
    } else if closes_at(t, i) {
        i
    } else {
        next_close(t, i + 1)
    }
}

pub open spec fn prepend(p: PieceV, rest: Option<Seq<PieceV>>) -> Option<Seq<PieceV>> {
    match rest {
        Some(s) => Some(seq![p] + s),
        None => None,
    }
}

/// The pieces of `t[i..]`: each `{{name}}` ends at the first `}}` after it,
/// text runs to the next `{{`. `None` when a `{{` is never closed.
pub open spec fn tokens_from(t: Seq<char>, i: int) -> Option<Seq<PieceV>>
    decreases t.len() - i,
{
    if i < 0 || i >= t.len() {
        Some(Seq::empty())
    } else if opens_at(t, i) {
        let c = next_close(t, i + 2);
        if c + 1 >= t.len() || c < i {
            None
        } else {
            prepend(PieceV::Field(t.subrange(i + 2, c)), tokens_from(t, c + 2))
        }
    } else {
        let o = next_open(t, i);
        if o <= i || o > t.len() {
            None
        } else {
            prepend(PieceV::Text(t.subrange(i, o)), tokens_from(t, o))
        }
    }
}

pub open spec fn is_field(p: PieceV, name: Seq<char>) -> bool {
    p == PieceV::Field(name)
}

pub open spec fn is_marker(p: PieceV) -> bool {
    is_field(p, "#each"@) || is_field(p, "/each"@) || is_field(p, "|"@)
}

/// The first `{{name}}` at or after `i`, or `p.len()`.
pub open spec fn first_field(p: Seq<PieceV>, name: Seq<char>, i: int) -> int
    decreases p.len() - i,
{
    if i < 0 || i >= p.len() {
        p.len() as int
    } else if is_field(p[i], name) {
        i
    } else {
        first_field(p, name, i + 1)
    }
}

pub open spec fn no_marker(p: Seq<PieceV>, lo: int, hi: int) -> bool {
    forall|k: int| lo <= k < hi ==> !is_marker(#[trigger] p[k])
}

pub open spec fn block_start(p: Seq<PieceV>) -> int {
    first_field(p, "#each"@, 0)
}

pub open spec fn block_end(p: Seq<PieceV>) -> int {
    first_field(p, "/each"@, block_start(p) + 1)
}

pub open spec fn divider(p: Seq<PieceV>) -> int {
    first_field(p, "|"@, block_start(p) + 1)
}

/// The markers stand where a single block allows them.
pub open spec fn markers_ok(p: Seq<PieceV>) -> bool {
    let a = block_start(p);
    let b = block_end(p);
    let d = divider(p);
    if a >= p.len() {
        no_marker(p, 0, p.len() as int)
    } else {
        &&& no_marker(p, 0, a)
        &&& b < p.len()
        &&& no_marker(p, b + 1, p.len() as int)
        &&& if d < b {
            no_marker(p, a + 1, d) && no_marker(p, d + 1, b)
        } else {
            no_marker(p, a + 1, b)
        }
    }
}

/// The layout's bounds over pieces `p` whose markers are in place.
pub open spec fn layout_bounds(l: Layout, p: Seq<PieceV>) -> bool {
    let a = block_start(p);
    let b = block_end(p);
    let d = divider(p);
    &&& pieces_view(l.pieces@) == p
    &&& if a >= p.len() {
        &&& l.pre_end == p.len()
        &&& l.head_start == p.len() && l.head_end == p.len()
        &&& l.item_start == p.len() && l.item_end == p.len()
        &&& l.suf_start == p.len()
    } else {
        &&& l.pre_end == a
        &&& l.head_start == a + 1
        &&& l.head_end == (if d < b { d } else { a + 1 })
        &&& l.item_start == (if d < b { d + 1 } else { a + 1 })
        &&& l.item_end == b
        &&& l.suf_start == b + 1
    }
}

proof fn lemma_next_open_bound(t: Seq<char>, i: int)
    requires
        0 <= i <= t.len(),
    ensures
        i <= next_open(t, i) <= t.len(),
    decreases t.len() - i,
{
    if i < t.len() && !opens_at(t, i) {
        lemma_next_open_bound(t, i + 1);
    }
}

fn opens(t: &str, n: usize, i: usize) -> (r: bool)
    requires
        n == t@.len(),
        i <= n,
    ensures
        r == opens_at(t@, i as int),
{
    i < n && i + 1 < n && t.get_char(i) == '{' && t.get_char(i + 1) == '{'
}

fn closes(t: &str, n: usize, i: usize) -> (r: bool)
    requires
        n == t@.len(),
        i <= n,
    ensures
        r == closes_at(t@, i as int),
{
    i < n && i + 1 < n && t.get_char(i) == '}' && t.get_char(i + 1) == '}'
}

/// Splits a template into text and placeholders, or `None` when a `{{` is never closed.
pub fn tokenize(t: &str) -> (r: Option<Vec<Piece>>)
    ensures
        match tokens_from(t@, 0) {
            Some(s) => r is Some && pieces_view(r->Some_0@) == s,
            None => r is None,
        },
{
    let n = t.unicode_len();
    let mut acc: Vec<Piece> = Vec::new();
    let mut i: usize = 0;
    assert(pieces_view(acc@) =~= Seq::<PieceV>::empty());
    while i < n
        invariant
            n == t@.len(),
            i <= n,
            tokens_from(t@, 0) == match tokens_from(t@, i as int) {
                Some(s) => Some(pieces_view(acc@) + s),
                None => None::<Seq<PieceV>>,
            },
        decreases n - i,
    {
        let ghost a = pieces_view(acc@);
        if opens(t, n, i) {
            let mut c: usize = i + 2;
            while c < n && !closes(t, n, c)
                invariant
                    n == t@.len(),
                    i + 2 <= c <= n,
                    next_close(t@, i + 2) == next_close(t@, c as int),
                decreases n - c,
            {
                c = c + 1;
            }
            if c >= n {
                return None;
            }
            let name = String::from_str(t.substring_char(i + 2, c));
            acc.push(Piece::Field(name));
            i = c + 2;
        } else {
            let mut o: usize = i;
            while o < n && !opens(t, n, o)
                invariant
                    n == t@.len(),
                    i <= o <= n,
                    next_open(t@, i as int) == next_open(t@, o as int),
                decreases n - o,
            {
                o = o + 1;
            }
            proof {
                lemma_next_open_bound(t@, i as int);
            }
            let text = String::from_str(t.substring_char(i, o));
            acc.push(Piece::Text(text));
            i = o;
        }
        proof {
            assert(pieces_view(acc@) =~= a.push(acc@.last()@));
            match tokens_from(t@, i as int) {
                Some(s) => {
                    assert(a + (seq![acc@.last()@] + s) =~= pieces_view(acc@) + s);
                },
                None => {},
            }
        }
    }
    assert(pieces_view(acc@) + Seq::<PieceV>::empty() =~= pieces_view(acc@));
    Some(acc)
}

fn piece_is(p: &Piece, name: &str) -> (r: bool)
    ensures
        r == is_field(p@, name@),
{
    match p {
        Piece::Field(n) => str_eq(n.as_str(), name),
        Piece::Text(_) => false,
    }
}

fn piece_is_marker(p: &Piece) -> (r: bool)
    ensures
        r == is_marker(p@),
{
    piece_is(p, "#each") || piece_is(p, "/each") || piece_is(p, "|")
}

fn find_field(p: &Vec<Piece>, name: &str, from: usize) -> (r: usize)
    requires
        from <= p@.len(),
    ensures
        r as int == first_field(pieces_view(p@), name@, from as int),
        from <= r <= p@.len(),
{
    let ghost pv = pieces_view(p@);
    let mut i: usize = from;
    while i < p.len() && !piece_is(&p[i], name)
        invariant
            from <= i <= p@.len(),
            pv == pieces_view(p@),
            first_field(pv, name@, from as int) == first_field(pv, name@, i as int),
        decreases p@.len() - i,
    {
        i = i + 1;
    }
    i
}

fn unmarked(p: &Vec<Piece>, lo: usize, hi: usize) -> (r: bool)
    requires
        hi <= p@.len(),
    ensures
        r == no_marker(pieces_view(p@), lo as int, hi as int),
{
    let ghost pv = pieces_view(p@);
    let mut k: usize = lo;
    while k < hi
        invariant
            lo <= k,
            hi <= p@.len(),
            pv == pieces_view(p@),
            forall|j: int| lo <= j < k && j < hi ==> !is_marker(#[trigger] pv[j]),
        decreases hi - k,
    {
        if piece_is_marker(&p[k]) {
            assert(pv[k as int] == p@[k as int]@);
            return false;
        }
        k = k + 1;
    }
    true
}

/// Locates the block markers in the pieces of a template, or `None` when they
/// stand where a single block does not allow them.
pub fn layout_of(pieces: Vec<Piece>) -> (r: Option<Layout>)
    ensures
        r is Some == markers_ok(pieces_view(pieces@)),
        r is Some ==> layout_bounds(r->Some_0, pieces_view(pieces@)) && r->Some_0.wf(),
{
    let n = pieces.len();
    let a = find_field(&pieces, "#each", 0);
    if a >= n {
        if !unmarked(&pieces, 0, n) {
            return None;
        }
        return Some(Layout {
            pieces,
            pre_end: n,
            head_start: n,
            head_end: n,
            item_start: n,
            item_end: n,
            suf_start: n,
        });
    }
    let b = find_field(&pieces, "/each", a + 1);
    let d = find_field(&pieces, "|", a + 1);
    if !unmarked(&pieces, 0, a) || b >= n || !unmarked(&pieces, b + 1, n) {
        return None;
    }
    if d < b {
        if !unmarked(&pieces, a + 1, d) || !unmarked(&pieces, d + 1, b) {
            return None;
        }
        Some(Layout {
            pieces,
            pre_end: a,
            head_start: a + 1,
            head_end: d,
            item_start: d + 1,
            item_end: b,
            suf_start: b + 1,
        })
    } else {
        if !unmarked(&pieces, a + 1, b) {
            return None;
        }
        Some(Layout {
            pieces,
            pre_end: a,
            head_start: a + 1,
            head_end: a + 1,
            item_start: a + 1,
            item_end: b,
            suf_start: b + 1,
        })
    }
}

/// Some earlier category has the label of category `j`.
pub open spec fn dup_at(rules: Seq<CategoryRule>, j: int) -> bool {
    exists|i: int| 0 <= i < j && (#[trigger] rules[i]).label@ == rules[j].label@
}

/// The first category at or after `j` whose label repeats an earlier one, or `rules.len()`.
pub open spec fn first_dup(rules: Seq<CategoryRule>, j: int) -> int
    decreases rules.len() - j,
{
    if j < 0 || j >= rules.len() {
        rules.len() as int
    } else if dup_at(rules, j) {
        j
    } else {
        first_dup(rules, j + 1)
    }
}

pub open spec fn claims_breaking(r: CategoryRule) -> bool {
    r.matcher is Breaking
}

/// Two categories claim breaking changes.
pub open spec fn two_breaking(rules: Seq<CategoryRule>) -> bool {
    exists|i: int, j: int|
        0 <= i < j < rules.len() && claims_breaking(#[trigger] rules[i]) && claims_breaking(#[trigger] rules[j])
}

fn label_repeats(rules: &Vec<CategoryRule>, j: usize) -> (r: bool)
    requires
        j < rules@.len(),
    ensures
        r == dup_at(rules@, j as int),
{
    let mut i: usize = 0;
    while i < j
        invariant
            i <= j < rules@.len(),
            forall|k: int| 0 <= k < i ==> (#[trigger] rules@[k]).label@ != rules@[j as int].label@,
        decreases j - i,
    {
        if str_eq(rules[i].label.as_str(), rules[j].label.as_str()) {
            return true;
        }
        i = i + 1;
    }
    false
}

fn find_dup(rules: &Vec<CategoryRule>) -> (r: usize)
    ensures
        r as int == first_dup(rules@, 0),
{
    let mut j: usize = 0;
    while j < rules.len() && !label_repeats(rules, j)
        invariant
            j <= rules@.len(),
            first_dup(rules@, 0) == first_dup(rules@, j as int),
        decreases rules@.len() - j,
    {
        j = j + 1;
    }
    j
}

fn has_two_breaking(rules: &Vec<CategoryRule>) -> (r: bool)
    ensures
        r == two_breaking(rules@),
{
    let mut seen: Option<usize> = None;
    let mut k: usize = 0;
    while k < rules.len()
        invariant
            k <= rules@.len(),
            forall|i: int, j: int|
                0 <= i < j < k ==> !(claims_breaking(#[trigger] rules@[i]) && claims_breaking(#[trigger] rules@[j])),
            match seen {
                Some(s) => s < k && claims_breaking(rules@[s as int]),
                None => forall|i: int| 0 <= i < k ==> !claims_breaking(#[trigger] rules@[i]),
            },
        decreases rules@.len() - k,
    {
        let b = match rules[k].matcher {
            RuleMatch::Breaking => true,
            _ => false,
        };
        if b {
            match seen {
                Some(s) => {
                    assert(claims_breaking(rules@[s as int]) && claims_breaking(rules@[k as int]));
                    return true;
                },
                None => {
                    seen = Some(k);
                },
            }
        }
        k = k + 1;
    }
    false
}

/// `r` is the outcome of validating a template made of `rules`, `exclude` and
/// the output template `output`.
pub open spec fn validated(
    rules: Seq<CategoryRule>,
    exclude: Seq<String>,
    output: Seq<char>,
    r: Result<TemplateModel, ConfigError>,
) -> bool {
    if output.len() == 0 {
        r is Err && r->Err_0 is MissingTemplate
    } else if first_dup(rules, 0) < rules.len() {
        r is Err && r->Err_0 is DuplicateLabel && r->Err_0->DuplicateLabel_0@ == rules[first_dup(rules, 0)].label@
    } else if two_breaking(rules) {
        r is Err && r->Err_0 is DuplicateBreakingRule
    } else {
        match tokens_from(output, 0) {
            None => r is Err && r->Err_0 is UnclosedPlaceholder,
            Some(p) => if markers_ok(p) {
                &&& r is Ok
                &&& r->Ok_0.rules@ == rules
                &&& r->Ok_0.exclude@ == exclude
                &&& layout_bounds(r->Ok_0.layout, p)
                &&& r->Ok_0.layout.wf()
            } else {
                r is Err && r->Err_0 is MisplacedBlockMarker
            },
        }
    }
}

impl TemplateModel {
    /// Validates a template: its categories, the types to exclude, and the
    /// output template text. The checks run in this order: an empty output
    /// template, a repeated label, a second category for breaking changes, an
    /// unclosed placeholder, misplaced block markers.
    pub fn new(rules: Vec<CategoryRule>, exclude: Vec<String>, output: &str) -> (r: Result<TemplateModel, ConfigError>)
        ensures
            validated(rules@, exclude@, output@, r),
    {
        if output.unicode_len() == 0 {
            return Err(ConfigError::MissingTemplate);
        }
        let d = find_dup(&rules);
        if d < rules.len() {
            let label = rules[d].label.clone();
            return Err(ConfigError::DuplicateLabel(label));
        }
        if has_two_breaking(&rules) {
            return Err(ConfigError::DuplicateBreakingRule);
        }
        let pieces = match tokenize(output) {
            Some(p) => p,
            None => {
                return Err(ConfigError::UnclosedPlaceholder);
            },
        };
        match layout_of(pieces) {
            Some(layout) => Ok(TemplateModel { rules, exclude, layout }),
            None => Err(ConfigError::MisplacedBlockMarker),
        }
    }
}

} // verus!
