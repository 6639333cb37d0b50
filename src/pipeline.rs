//! The whole pass: parse, classify, group, render.
use vstd::prelude::*;
use crate::changelog::{build, entries_in_range, grouped, lemma_grouped_unique, Changelog};
use crate::classify::{category_of, classify, lemma_category_same, opt_int, CategoryRule};
use crate::commit::{opt_view, parse, parsed_from, ParsedCommit, RawCommit};
use crate::renderer::{
    lemma_rendered_same, or_empty, render, renders_to, same_fields, same_shape, Layout, TemplateError, Var,
};
use crate::template::TemplateModel;

verus! {

/// Each commit is the parse of the raw record at its position.
pub open spec fn parsed_all(p: Seq<ParsedCommit>, raws: Seq<RawCommit>) -> bool {
    &&& p.len() == raws.len()
    &&& forall|i: int| 0 <= i < raws.len() ==> (#[trigger] p[i]).raw == raws[i] && parsed_from(p[i], raws[i].message@)
}

/// `cl` is the changelog of `raws` under `rules` and `excludes`.
pub open spec fn changelog_for(cl: Changelog, raws: Seq<RawCommit>, rules: Seq<CategoryRule>, excludes: Seq<String>) -> bool {
    &&& parsed_all(cl.commits@, raws)
    &&& entries_in_range(cl)
    &&& exists|cats: Seq<Option<usize>>| {
        &&& cats.len() == raws.len()
        &&& (forall|i: int| 0 <= i < raws.len() ==> opt_int(#[trigger] cats[i]) == category_of(cl.commits@[i], rules, excludes))
        &&& grouped(cl.groups@, cats, rules)
    }
}

/// Parses every record, keeping their order.
pub fn parse_all(raws: Vec<RawCommit>) -> (p: Vec<ParsedCommit>)
    ensures
        parsed_all(p@, raws@),
{
    let ghost all = raws@;
    let mut rest = raws;
    let mut out: Vec<ParsedCommit> = Vec::new();
    while rest.len() > 0
        invariant
            out@.len() + rest@.len() == all.len(),
            rest@ == all.subrange(out@.len() as int, all.len() as int),
            parsed_all(out@, all.subrange(0, out@.len() as int)),
        decreases rest@.len(),
    {
        let raw = rest.remove(0);
        let p = parse(raw);
        out.push(p);
    }
    assert(all.subrange(0, out@.len() as int) =~= all);
    out
}

/// Builds the changelog of the records under the template's categories.
pub fn changelog_of(template: &TemplateModel, raws: Vec<RawCommit>) -> (cl: Changelog)
    ensures
        changelog_for(cl, raws@, template.rules@, template.exclude@),
{
    let commits = parse_all(raws);
    let cats = classify(&commits, &template.rules, &template.exclude);
    let cl = build(commits, &cats, &template.rules);
    assert(grouped(cl.groups@, cats@, template.rules@));
    cl
}

/// Produces the changelog text of the records: the template's layout rendered
/// over their changelog with the scalars `vars`.
pub fn generate(template: &TemplateModel, raws: Vec<RawCommit>, vars: &Vec<Var>) -> (r: Result<String, TemplateError>)
    requires
        template.layout.wf(),
    ensures
        exists|cl: Changelog|
            changelog_for(cl, raws@, template.rules@, template.exclude@) && renders_to(template.layout, cl, vars@, r),
{
    let cl = changelog_of(template, raws);
    render(&template.layout, &cl, vars)
}

proof fn lemma_or_empty(a: Option<String>, b: Option<String>)
    requires
        opt_view(a) == opt_view(b),
    ensures
        or_empty(a) == or_empty(b),
{
}

/// Two changelogs of the same records have the same shape.
pub proof fn lemma_changelog_unique(
    c1: Changelog,
    c2: Changelog,
    raws: Seq<RawCommit>,
    rules: Seq<CategoryRule>,
    excludes: Seq<String>,
)
    requires
        changelog_for(c1, raws, rules, excludes),
        changelog_for(c2, raws, rules, excludes),
    ensures
        same_shape(c1, c2),
{
    let cats1 = choose|cats: Seq<Option<usize>>| {
        &&& cats.len() == raws.len()
        &&& (forall|i: int| 0 <= i < raws.len() ==> opt_int(#[trigger] cats[i]) == category_of(c1.commits@[i], rules, excludes))
        &&& grouped(c1.groups@, cats, rules)
    };
    let cats2 = choose|cats: Seq<Option<usize>>| {
        &&& cats.len() == raws.len()
        &&& (forall|i: int| 0 <= i < raws.len() ==> opt_int(#[trigger] cats[i]) == category_of(c2.commits@[i], rules, excludes))
        &&& grouped(c2.groups@, cats, rules)
    };
    assert forall|i: int| 0 <= i < raws.len() implies same_fields(#[trigger] c1.commits@[i], c2.commits@[i])
        && cats1[i] == cats2[i] by {
        let a = c1.commits@[i];
        let b = c2.commits@[i];
        assert(parsed_from(a, raws[i].message@));
        assert(parsed_from(b, raws[i].message@));
        lemma_or_empty(a.kind, b.kind);
        lemma_or_empty(a.scope, b.scope);
        lemma_or_empty(a.body, b.body);
        lemma_category_same(a, b, rules, excludes);
        assert(opt_int(cats1[i]) == opt_int(cats2[i]));
    }
    assert(cats1 =~= cats2);
    lemma_grouped_unique(c1.groups@, c2.groups@, cats1, rules);
    assert forall|g: int, e: int|
        0 <= g < c1.groups@.len() && 0 <= e < c1.groups@[g].entries@.len() implies same_fields(
            c1.commits@[(#[trigger] c1.groups@[g].entries@[e]) as int],
            c2.commits@[c1.groups@[g].entries@[e] as int],
        ) by {
        let idx = c1.groups@[g].entries@[e] as int;
        assert(idx < c1.commits@.len());
        assert(same_fields(c1.commits@[idx], c2.commits@[idx]));
    }
}

/// Generating twice from the same template, records and scalars gives the
/// same text, or fails both times on the same placeholder.
pub proof fn lemma_generate_deterministic(
    l: Layout,
    raws: Seq<RawCommit>,
    rules: Seq<CategoryRule>,
    excludes: Seq<String>,
    vars: Seq<Var>,
    c1: Changelog,
    c2: Changelog,
    r1: Result<String, TemplateError>,
    r2: Result<String, TemplateError>,
)
    requires
        changelog_for(c1, raws, rules, excludes) && renders_to(l, c1, vars, r1),
        changelog_for(c2, raws, rules, excludes) && renders_to(l, c2, vars, r2),
    ensures
        r1 is Ok <==> r2 is Ok,
        r1 is Ok ==> r1->Ok_0@ == r2->Ok_0@,
        r1 is Err ==> r1->Err_0->Unresolved_0@ == r2->Err_0->Unresolved_0@,
{
    lemma_changelog_unique(c1, c2, raws, rules, excludes);
    lemma_rendered_same(l, c1, c2, vars);
}

} // verus!
