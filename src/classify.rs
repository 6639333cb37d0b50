//! Category rules and the classifier that applies them.
use vstd::prelude::*;
use crate::commit::{opt_view, ParsedCommit};
use crate::text::{eq_ignore_case, str_eq_ignore_case};

verus! {

/// What a category rule matches.
pub enum RuleMatch {
    /// Commits whose type equals this token, up to ASCII case.
    Kind(String),
    /// Commits marked as breaking changes.
    Breaking,
    /// Every commit: a catch-all.
    Any,
}

/// A category: the commits its predicate matches are listed under `label`.
/// Categories appear by ascending `order`, ties broken by declaration order.
pub struct CategoryRule {
    pub matcher: RuleMatch,
    pub label: String,
    pub order: u64,
}

pub open spec fn rule_matches(m: RuleMatch, c: ParsedCommit) -> bool {
    match m {
        RuleMatch::Kind(k) => c.kind is Some && eq_ignore_case(c.kind->Some_0@, k@),
        RuleMatch::Breaking => c.breaking,
        RuleMatch::Any => true,
    }
}

/// A commit whose type is in the exclude list, up to ASCII case.
pub open spec fn excluded(c: ParsedCommit, excludes: Seq<String>) -> bool {
    c.kind is Some && exists|i: int|
        0 <= i < excludes.len() && eq_ignore_case(c.kind->Some_0@, #[trigger] excludes[i]@)
}

/// The first rule at or after `i` that matches `c`.
pub open spec fn first_match(c: ParsedCommit, rules: Seq<CategoryRule>, i: int) -> Option<int>
    decreases rules.len() - i,
{
    if i < 0 || i >= rules.len() {
        None
    } else if rule_matches(rules[i].matcher, c) {
        Some(i)
    } else {
        first_match(c, rules, i + 1)
    }
}

/// The index of the rule a commit is classified under, or `None` when it is dropped.
pub open spec fn category_of(c: ParsedCommit, rules: Seq<CategoryRule>, excludes: Seq<String>) -> Option<int> {
    if excluded(c, excludes) {
        None
    } else {
        first_match(c, rules, 0)
    }
}

/// A commit whose type is excluded is dropped whatever the rules, a
/// catch-all included.
pub proof fn lemma_exclude_precedence(c: ParsedCommit, rules: Seq<CategoryRule>, excludes: Seq<String>)
    requires
        excluded(c, excludes),
    ensures
        category_of(c, rules, excludes) is None,
{
}

proof fn lemma_first_match_same(a: ParsedCommit, b: ParsedCommit, rules: Seq<CategoryRule>, i: int)
    requires
        opt_view(a.kind) == opt_view(b.kind),
        a.breaking == b.breaking,
    ensures
        first_match(a, rules, i) == first_match(b, rules, i),
    decreases rules.len() - i,
{
    if 0 <= i < rules.len() {
        lemma_first_match_same(a, b, rules, i + 1);
        assert(rule_matches(rules[i].matcher, a) == rule_matches(rules[i].matcher, b));
    }
}

/// Classification reads a commit's type (as text) and breaking flag only.
pub proof fn lemma_category_same(a: ParsedCommit, b: ParsedCommit, rules: Seq<CategoryRule>, excludes: Seq<String>)
    requires
        opt_view(a.kind) == opt_view(b.kind),
        a.breaking == b.breaking,
    ensures
        category_of(a, rules, excludes) == category_of(b, rules, excludes),
{
    lemma_first_match_same(a, b, rules, 0);
    assert(excluded(a, excludes) == excluded(b, excludes));
}

pub open spec fn opt_int(o: Option<usize>) -> Option<int> {
    match o {
        Some(x) => Some(x as int),
        None => None,
    }
}

pub fn matches(m: &RuleMatch, c: &ParsedCommit) -> (r: bool)
    ensures
        r == rule_matches(*m, *c),
{
    match m {
        RuleMatch::Kind(k) => match &c.kind {
            Some(ck) => str_eq_ignore_case(ck.as_str(), k.as_str()),
            None => false,
        },
        RuleMatch::Breaking => c.breaking,
        RuleMatch::Any => true,
    }
}

pub fn is_excluded(c: &ParsedCommit, excludes: &Vec<String>) -> (r: bool)
    ensures
        r == excluded(*c, excludes@),
{
    match &c.kind {
        None => false,
        Some(k) => {
            let mut i: usize = 0;
            while i < excludes.len()
                invariant
                    i <= excludes@.len(),
                    c.kind == Some(*k),
                    forall|j: int| 0 <= j < i ==> !eq_ignore_case(k@, #[trigger] excludes@[j]@),
                decreases excludes@.len() - i,
            {
                if str_eq_ignore_case(k.as_str(), excludes[i].as_str()) {
                    return true;
                }
                i = i + 1;
            }
            false
        },
    }
}

/// The rule that one commit falls under: excluded types are dropped first, then
/// the first rule in declaration order whose predicate matches wins.
pub fn classify_one(c: &ParsedCommit, rules: &Vec<CategoryRule>, excludes: &Vec<String>) -> (r: Option<usize>)
    ensures
        opt_int(r) == category_of(*c, rules@, excludes@),
{
    if is_excluded(c, excludes) {
        return None;
    }
    let mut i: usize = 0;
    while i < rules.len()
        invariant
            i <= rules@.len(),
            !excluded(*c, excludes@),
            first_match(*c, rules@, 0) == first_match(*c, rules@, i as int),
        decreases rules@.len() - i,
    {
        if matches(&rules[i].matcher, c) {
            return Some(i);
        }
        i = i + 1;
    }
    None
}

/// Classifies each commit: entry `i` of the result is the index of the rule that
/// commit `i` falls under, or `None` when it is dropped.
pub fn classify(commits: &Vec<ParsedCommit>, rules: &Vec<CategoryRule>, excludes: &Vec<String>) -> (r: Vec<Option<usize>>)
    ensures
        r@.len() == commits@.len(),
        forall|i: int| 0 <= i < commits@.len() ==> opt_int(#[trigger] r@[i]) == category_of(commits@[i], rules@, excludes@),
{
    let mut out: Vec<Option<usize>> = Vec::new();
    let mut i: usize = 0;
    while i < commits.len()
        invariant
            i <= commits@.len(),
            out@.len() == i,
            forall|j: int| 0 <= j < i ==> opt_int(#[trigger] out@[j]) == category_of(commits@[j], rules@, excludes@),
        decreases commits@.len() - i,
    {
        out.push(classify_one(&commits[i], rules, excludes));
        i = i + 1;
    }
    out
}

} // verus!
