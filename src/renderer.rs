//! The output template language and its expansion.
//!
//! A template is text with placeholders `{{name}}`. One block,
//! `{{#each}} head {{|}} item {{/each}}`, is expanded for every commit of
//! every group: `head` only for the first commit of a group, `item` for each.
//! Without `{{|}}` the whole block is `item`. Inside the block a name is a
//! commit field (`hash`, `author`, `subject`, `scope`, `kind`, `body`, `label`)
//! or else a scalar; outside it, a scalar. Values are inserted verbatim and
//! never expanded again.
use vstd::prelude::*;
use crate::changelog::{entries_in_range, Changelog};
use crate::commit::ParsedCommit;
use crate::text::str_eq;

verus! {

/// A piece of a template: literal text, or a placeholder with its name.
pub enum Piece {
    Text(String),
    Field(String),
}

/// The mathematical form of a [`Piece`].
pub enum PieceV {
    Text(Seq<char>),
    Field(Seq<char>),
}

impl Piece {
    pub open spec fn view(self) -> PieceV {
        match self {
            Piece::Text(t) => PieceV::Text(t@),
            Piece::Field(n) => PieceV::Field(n@),
        }
    }
}

pub open spec fn pieces_view(p: Seq<Piece>) -> Seq<PieceV> {
    p.map_values(|x: Piece| x@)
}

/// A scalar value of a render, such as the date of generation.
pub struct Var {
    pub name: String,
    pub value: String,
}

/// A placeholder that names no value in scope.
pub enum TemplateError {
    Unresolved(String),
}

/// A parsed template: its pieces and where the parts of the block lie.
/// The prefix is `pieces[0..pre_end]`, the head `pieces[head_start..head_end]`,
/// the item `pieces[item_start..item_end]`, the suffix `pieces[suf_start..]`.
pub struct Layout {
    pub pieces: Vec<Piece>,
    pub pre_end: usize,
    pub head_start: usize,
    pub head_end: usize,
    pub item_start: usize,
    pub item_end: usize,
    pub suf_start: usize,
}

impl Layout {
    pub open spec fn wf(self) -> bool {
        &&& self.pre_end <= self.pieces@.len()
        &&& self.head_start <= self.head_end <= self.pieces@.len()
        &&& self.item_start <= self.item_end <= self.pieces@.len()
        &&& self.suf_start <= self.pieces@.len()
    }
}

pub type Rendered = Result<Seq<char>, Seq<char>>;

/// Concatenation of two partial results: the first error wins.
pub open spec fn join(a: Rendered, b: Rendered) -> Rendered {
    match a {
        Err(e) => Err(e),
        Ok(x) => match b {
            Err(e) => Err(e),
            Ok(y) => Ok(x + y),
        },
    }
}

/// The value of the scalar `name`: the first variable of that name.
pub open spec fn lookup(vars: Seq<Var>, name: Seq<char>, i: int) -> Option<Seq<char>>
    decreases vars.len() - i,
{
    if i < 0 || i >= vars.len() {
        None
    } else if vars[i].name@ == name {
        Some(vars[i].value@)
    } else {
        lookup(vars, name, i + 1)
    }
}

pub open spec fn or_empty(o: Option<String>) -> Seq<char> {
    match o {
        Some(s) => s@,
        None => Seq::empty(),
    }
}

/// The commit field that a placeholder inside the block names.
pub open spec fn commit_field(c: ParsedCommit, label: Seq<char>, name: Seq<char>) -> Option<Seq<char>> {
    if name == "hash"@ {
        Some(c.raw.id@)
    } else if name == "author"@ {
        Some(c.raw.author@)
    } else if name == "subject"@ {
        Some(c.subject@)
    } else if name == "scope"@ {
        Some(or_empty(c.scope))
    } else if name == "kind"@ {
        Some(or_empty(c.kind))
    } else if name == "body"@ {
        Some(or_empty(c.body))
    } else if name == "label"@ {
        Some(label)
    } else {
        None
    }
}

/// What a name resolves to: in an entry's scope a commit field first, then a scalar.
pub open spec fn resolve(entry: Option<(ParsedCommit, Seq<char>)>, vars: Seq<Var>, name: Seq<char>) -> Option<Seq<char>> {
    match entry {
        Some((c, label)) => match commit_field(c, label, name) {
            Some(v) => Some(v),
            None => lookup(vars, name, 0),
        },
        None => lookup(vars, name, 0),
    }
}

pub open spec fn piece_text(p: PieceV, entry: Option<(ParsedCommit, Seq<char>)>, vars: Seq<Var>) -> Rendered {
    match p {
        PieceV::Text(t) => Ok(t),
        PieceV::Field(n) => match resolve(entry, vars, n) {
            Some(v) => Ok(v),
            None => Err(n),
        },
    }
}

/// The expansion of `p[lo..hi]`.
pub open spec fn expand(p: Seq<PieceV>, lo: int, hi: int, entry: Option<(ParsedCommit, Seq<char>)>, vars: Seq<Var>) -> Rendered
    decreases hi - lo,
{
    if hi <= lo {
        Ok(Seq::empty())
    } else {
        join(expand(p, lo, hi - 1, entry, vars), piece_text(p[hi - 1], entry, vars))
    }
}

/// The expansion of entry `e` of group `g`.
pub open spec fn entry_text(l: Layout, cl: Changelog, vars: Seq<Var>, g: int, e: int) -> Rendered {
    let grp = cl.groups@[g];
    let entry = Some((cl.commits@[grp.entries@[e] as int], grp.label@));
    let p = pieces_view(l.pieces@);
    join(
        if e == 0 { expand(p, l.head_start as int, l.head_end as int, entry, vars) } else { Ok(Seq::empty()) },
        expand(p, l.item_start as int, l.item_end as int, entry, vars),
    )
}

/// The expansion of the first `e` entries of group `g`.
pub open spec fn group_text(l: Layout, cl: Changelog, vars: Seq<Var>, g: int, e: int) -> Rendered
    decreases e,
{
    if e <= 0 {
        Ok(Seq::empty())
    } else {
        join(group_text(l, cl, vars, g, e - 1), entry_text(l, cl, vars, g, e - 1))
    }
}

/// The expansion of the block over the first `n` groups.
pub open spec fn block_text(l: Layout, cl: Changelog, vars: Seq<Var>, n: int) -> Rendered
    decreases n,
{
    if n <= 0 {
        Ok(Seq::empty())
    } else {
        join(block_text(l, cl, vars, n - 1), group_text(l, cl, vars, n - 1, cl.groups@[n - 1].entries@.len() as int))
    }
}

/// The whole output: prefix, block over every group, suffix.
pub open spec fn rendered(l: Layout, cl: Changelog, vars: Seq<Var>) -> Rendered {
    let p = pieces_view(l.pieces@);
    join(
        join(expand(p, 0, l.pre_end as int, None, vars), block_text(l, cl, vars, cl.groups@.len() as int)),
        expand(p, l.suf_start as int, p.len() as int, None, vars),
    )
}

proof fn lemma_expand_err(p: Seq<PieceV>, lo: int, k: int, hi: int, entry: Option<(ParsedCommit, Seq<char>)>, vars: Seq<Var>)
    requires
        k <= hi,
        expand(p, lo, k, entry, vars) is Err,
    ensures
        expand(p, lo, hi, entry, vars) == expand(p, lo, k, entry, vars),
    decreases hi - k,
{
    if k < hi {
        lemma_expand_err(p, lo, k, hi - 1, entry, vars);
    }
}

proof fn lemma_group_err(l: Layout, cl: Changelog, vars: Seq<Var>, g: int, k: int, e: int)
    requires
        0 <= k <= e,
        group_text(l, cl, vars, g, k) is Err,
    ensures
        group_text(l, cl, vars, g, e) == group_text(l, cl, vars, g, k),
    decreases e - k,
{
    if k < e {
        lemma_group_err(l, cl, vars, g, k, e - 1);
    }
}

proof fn lemma_block_err(l: Layout, cl: Changelog, vars: Seq<Var>, k: int, n: int)
    requires
        0 <= k <= n,
        block_text(l, cl, vars, k) is Err,
    ensures
        block_text(l, cl, vars, n) == block_text(l, cl, vars, k),
    decreases n - k,
{
    if k < n {
        lemma_block_err(l, cl, vars, k, n - 1);
    }
}

pub open spec fn entry_view(entry: Option<(&ParsedCommit, &str)>) -> Option<(ParsedCommit, Seq<char>)> {
    match entry {
        Some((c, l)) => Some((*c, l@)),
        None => None,
    }
}

fn append_scalar(vars: &Vec<Var>, name: &str, out: &mut String) -> (found: bool)
    ensures
        found == (lookup(vars@, name@, 0) is Some),
        found ==> final(out)@ == old(out)@ + lookup(vars@, name@, 0)->Some_0,
        !found ==> final(out)@ == old(out)@,
{
    let mut i: usize = 0;
    while i < vars.len()
        invariant
            i <= vars@.len(),
            *out == *old(out),
            lookup(vars@, name@, 0) == lookup(vars@, name@, i as int),
        decreases vars@.len() - i,
    {
        if str_eq(vars[i].name.as_str(), name) {
            out.append(vars[i].value.as_str());
            return true;
        }
        i = i + 1;
    }
    false
}

fn append_opt(o: &Option<String>, out: &mut String)
    ensures
        final(out)@ == old(out)@ + or_empty(*o),
{
    match o {
        Some(s) => out.append(s.as_str()),
        None => {
            assert(old(out)@ + Seq::<char>::empty() =~= old(out)@);
        },
    }
}

/// Appends the value that `name` resolves to in scope, if any.
fn append_value(entry: Option<(&ParsedCommit, &str)>, vars: &Vec<Var>, name: &str, out: &mut String) -> (found: bool)
    ensures
        found == (resolve(entry_view(entry), vars@, name@) is Some),
        found ==> final(out)@ == old(out)@ + resolve(entry_view(entry), vars@, name@)->Some_0,
        !found ==> final(out)@ == old(out)@,
{
    match entry {
        Some((c, label)) => {
            if str_eq(name, "hash") {
                out.append(c.raw.id.as_str());
            } else if str_eq(name, "author") {
                out.append(c.raw.author.as_str());
            } else if str_eq(name, "subject") {
                out.append(c.subject.as_str());
            } else if str_eq(name, "scope") {
                append_opt(&c.scope, out);
            } else if str_eq(name, "kind") {
                append_opt(&c.kind, out);
            } else if str_eq(name, "body") {
                append_opt(&c.body, out);
            } else if str_eq(name, "label") {
                out.append(label);
            } else {
                return append_scalar(vars, name, out);
            }
            true
        },
        None => append_scalar(vars, name, out),
    }
}

/// Appends the expansion of `p[lo..hi]`, or returns the first unresolved name.
fn expand_into(
    p: &Vec<Piece>,
    lo: usize,
    hi: usize,
    entry: Option<(&ParsedCommit, &str)>,
    vars: &Vec<Var>,
    out: &mut String,
) -> (r: Result<(), String>)
    requires
        lo <= hi <= p@.len(),
    ensures
        match expand(pieces_view(p@), lo as int, hi as int, entry_view(entry), vars@) {
            Ok(t) => r is Ok && final(out)@ == old(out)@ + t,
            Err(n) => r is Err && r->Err_0@ == n,
        },
{
    let ghost pv = pieces_view(p@);
    let ghost ev = entry_view(entry);
    let mut i: usize = lo;
    assert(old(out)@ + Seq::<char>::empty() =~= old(out)@);
    while i < hi
        invariant
            lo <= i <= hi <= p@.len(),
            pv == pieces_view(p@),
            ev == entry_view(entry),
            expand(pv, lo as int, i as int, ev, vars@) is Ok,
            out@ == old(out)@ + expand(pv, lo as int, i as int, ev, vars@)->Ok_0,
        decreases hi - i,
    {
        match &p[i] {
            Piece::Text(t) => {
                out.append(t.as_str());
            },
            Piece::Field(n) => {
                if !append_value(entry, vars, n.as_str(), out) {
                    proof {
                        lemma_expand_err(pv, lo as int, i + 1, hi as int, ev, vars@);
                    }
                    return Err(n.clone());
                }
            },
        }
        i = i + 1;
        assert(out@ =~= old(out)@ + expand(pv, lo as int, i as int, ev, vars@)->Ok_0);
    }
    Ok(())
}

/// `r` is the outcome of rendering: the text, or the first unresolved name.
pub open spec fn renders_to(l: Layout, cl: Changelog, vars: Seq<Var>, r: Result<String, TemplateError>) -> bool {
    match rendered(l, cl, vars) {
        Ok(t) => r is Ok && r->Ok_0@ == t,
        Err(n) => r is Err && r->Err_0 is Unresolved && r->Err_0->Unresolved_0@ == n,
    }
}

/// Rendering is a function of its inputs: two renders of the same template,
/// changelog and scalars give the same text, or fail on the same name.
pub proof fn lemma_render_idempotent(
    l: Layout,
    cl: Changelog,
    vars: Seq<Var>,
    r1: Result<String, TemplateError>,
    r2: Result<String, TemplateError>,
)
    requires
        renders_to(l, cl, vars, r1),
        renders_to(l, cl, vars, r2),
    ensures
        r1 is Ok <==> r2 is Ok,
        r1 is Ok ==> r1->Ok_0@ == r2->Ok_0@,
        r1 is Err ==> r1->Err_0->Unresolved_0@ == r2->Err_0->Unresolved_0@,
{
}

/// Renders the changelog: the prefix with scalars, the block once per entry of
/// each group in order, then the suffix. Fails with the first placeholder, in
/// output order, that names no value in scope; no partial output is returned.
pub fn render(layout: &Layout, cl: &Changelog, vars: &Vec<Var>) -> (r: Result<String, TemplateError>)
    requires
        layout.wf(),
        entries_in_range(*cl),
    ensures
        renders_to(*layout, *cl, vars@, r),
{
    let ghost l = *layout;
    let ghost c = *cl;
    let ghost pv = pieces_view(layout.pieces@);
    let mut out = String::new();
    match expand_into(&layout.pieces, 0, layout.pre_end, None, vars, &mut out) {
        Err(n) => {
            return Err(TemplateError::Unresolved(n));
        },
        Ok(()) => {},
    }
    let ghost pre = out@;
    assert(out@ =~= pre + block_text(l, c, vars@, 0)->Ok_0);
    let mut g: usize = 0;
    while g < cl.groups.len()
        invariant
            l == *layout,
            c == *cl,
            layout.wf(),
            entries_in_range(*cl),
            pv == pieces_view(layout.pieces@),
            g <= cl.groups@.len(),
            expand(pv, 0, l.pre_end as int, None, vars@) == Ok::<Seq<char>, Seq<char>>(pre),
            block_text(l, c, vars@, g as int) is Ok,
            out@ == pre + block_text(l, c, vars@, g as int)->Ok_0,
        decreases cl.groups@.len() - g,
    {
        let grp = &cl.groups[g];
        let ghost mid = out@;
        let mut e: usize = 0;
        assert(out@ =~= mid + group_text(l, c, vars@, g as int, 0)->Ok_0);
        while e < grp.entries.len()
            invariant
                l == *layout,
                c == *cl,
                layout.wf(),
                entries_in_range(*cl),
                pv == pieces_view(layout.pieces@),
                g < cl.groups@.len(),
                *grp == cl.groups@[g as int],
                e <= grp.entries@.len(),
                expand(pv, 0, l.pre_end as int, None, vars@) == Ok::<Seq<char>, Seq<char>>(pre),
                block_text(l, c, vars@, g as int) is Ok,
                mid == pre + block_text(l, c, vars@, g as int)->Ok_0,
                group_text(l, c, vars@, g as int, e as int) is Ok,
                out@ == mid + group_text(l, c, vars@, g as int, e as int)->Ok_0,
            decreases grp.entries@.len() - e,
        {
            let idx = grp.entries[e];
            assert(idx < cl.commits@.len()) by {
                assert(cl.groups@[g as int].entries@[e as int] == idx);
            }
            let entry = Some((&cl.commits[idx], grp.label.as_str()));
            let ghost before = out@;
            let ghost et = entry_text(l, c, vars@, g as int, e as int);
            let mut failed: Option<String> = None;
            if e == 0 {
                match expand_into(&layout.pieces, layout.head_start, layout.head_end, entry, vars, &mut out) {
                    Err(n) => {
                        failed = Some(n);
                    },
                    Ok(()) => {},
                }
            } else {
                assert(out@ =~= before + Seq::<char>::empty());
            }
            if failed.is_none() {
                match expand_into(&layout.pieces, layout.item_start, layout.item_end, entry, vars, &mut out) {
                    Err(n) => {
                        failed = Some(n);
                    },
                    Ok(()) => {
                        assert(out@ =~= before + et->Ok_0);
                    },
                }
            }
            match failed {
                Some(n) => {
                    proof {
                        let gl = cl.groups@[g as int].entries@.len() as int;
                        assert(group_text(l, c, vars@, g as int, e + 1) is Err);
                        lemma_group_err(l, c, vars@, g as int, e + 1, gl);
                        assert(block_text(l, c, vars@, g + 1) is Err);
                        lemma_block_err(l, c, vars@, g + 1, cl.groups@.len() as int);
                    }
                    return Err(TemplateError::Unresolved(n));
                },
                None => {},
            }
            e = e + 1;
            assert(out@ =~= mid + group_text(l, c, vars@, g as int, e as int)->Ok_0);
        }
        g = g + 1;
        assert(out@ =~= pre + block_text(l, c, vars@, g as int)->Ok_0);
    }
    match expand_into(&layout.pieces, layout.suf_start, layout.pieces.len(), None, vars, &mut out) {
        Err(n) => {
            return Err(TemplateError::Unresolved(n));
        },
        Ok(()) => {},
    }
    assert(out@ =~= rendered(l, c, vars@)->Ok_0);
    Ok(out)
}

/// Two commits that render alike: every field has the same text.
pub open spec fn same_fields(a: ParsedCommit, b: ParsedCommit) -> bool {
    &&& a.raw.id@ == b.raw.id@
    &&& a.raw.author@ == b.raw.author@
    &&& a.subject@ == b.subject@
    &&& or_empty(a.scope) == or_empty(b.scope)
    &&& or_empty(a.kind) == or_empty(b.kind)
    &&& or_empty(a.body) == or_empty(b.body)
}

/// Two changelogs with the same groups, labels and entries, whose listed
/// commits render alike.
pub open spec fn same_shape(c1: Changelog, c2: Changelog) -> bool {
    &&& c1.groups@.len() == c2.groups@.len()
    &&& forall|g: int|
        0 <= g < c1.groups@.len() ==> (#[trigger] c1.groups@[g]).label@ == c2.groups@[g].label@
            && c1.groups@[g].entries@ == c2.groups@[g].entries@
    &&& forall|g: int, e: int|
        0 <= g < c1.groups@.len() && 0 <= e < c1.groups@[g].entries@.len() ==> same_fields(
            c1.commits@[(#[trigger] c1.groups@[g].entries@[e]) as int],
            c2.commits@[c1.groups@[g].entries@[e] as int],
        )
}

proof fn lemma_expand_same(
    p: Seq<PieceV>,
    lo: int,
    hi: int,
    a: ParsedCommit,
    b: ParsedCommit,
    label: Seq<char>,
    vars: Seq<Var>,
)
    requires
        same_fields(a, b),
    ensures
        expand(p, lo, hi, Some((a, label)), vars) == expand(p, lo, hi, Some((b, label)), vars),
    decreases hi - lo,
{
    if hi > lo {
        lemma_expand_same(p, lo, hi - 1, a, b, label, vars);
    }
}

proof fn lemma_group_same(l: Layout, c1: Changelog, c2: Changelog, vars: Seq<Var>, g: int, e: int)
    requires
        same_shape(c1, c2),
        0 <= g < c1.groups@.len(),
        0 <= e <= c1.groups@[g].entries@.len(),
    ensures
        group_text(l, c1, vars, g, e) == group_text(l, c2, vars, g, e),
    decreases e,
{
    if e > 0 {
        lemma_group_same(l, c1, c2, vars, g, e - 1);
        let idx = c1.groups@[g].entries@[e - 1];
        assert(c1.groups@[g].label@ == c2.groups@[g].label@);
        assert(same_fields(c1.commits@[idx as int], c2.commits@[idx as int]));
        let p = pieces_view(l.pieces@);
        let label = c1.groups@[g].label@;
        lemma_expand_same(p, l.head_start as int, l.head_end as int, c1.commits@[idx as int], c2.commits@[idx as int], label, vars);
        lemma_expand_same(p, l.item_start as int, l.item_end as int, c1.commits@[idx as int], c2.commits@[idx as int], label, vars);
    }
}

proof fn lemma_block_same(l: Layout, c1: Changelog, c2: Changelog, vars: Seq<Var>, n: int)
    requires
        same_shape(c1, c2),
        0 <= n <= c1.groups@.len(),
    ensures
        block_text(l, c1, vars, n) == block_text(l, c2, vars, n),
    decreases n,
{
    if n > 0 {
        lemma_block_same(l, c1, c2, vars, n - 1);
        assert(c1.groups@[n - 1].entries@ == c2.groups@[n - 1].entries@);
        lemma_group_same(l, c1, c2, vars, n - 1, c1.groups@[n - 1].entries@.len() as int);
    }
}

/// Changelogs of the same shape render to the same outcome.
pub proof fn lemma_rendered_same(l: Layout, c1: Changelog, c2: Changelog, vars: Seq<Var>)
    requires
        same_shape(c1, c2),
    ensures
        rendered(l, c1, vars) == rendered(l, c2, vars),
{
    lemma_block_same(l, c1, c2, vars, c1.groups@.len() as int);
}

} // verus!
