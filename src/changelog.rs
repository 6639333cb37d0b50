//! Grouping classified commits into the sections of a changelog.
use vstd::prelude::*;
use vstd::set_lib::{lemma_int_range, lemma_len_subset, set_int_range};
use crate::classify::CategoryRule;
use crate::commit::ParsedCommit;

verus! {

/// One section: the commits classified under one rule, as indices into the
/// changelog's commits, in the order they were received.
pub struct Group {
    pub rule: usize,
    pub label: String,
    pub entries: Vec<usize>,
}

/// The commits of one run and their non-empty sections, in output order.
pub struct Changelog {
    pub commits: Vec<ParsedCommit>,
    pub groups: Vec<Group>,
}

/// The indices below `n` whose category is rule `r`, ascending.
pub open spec fn members(cats: Seq<Option<usize>>, r: int, n: int) -> Seq<usize>
    decreases n,
{
    if n <= 0 {
        Seq::empty()
    } else if cats[n - 1] == Some(r as usize) {
        members(cats, r, n - 1).push((n - 1) as usize)
    } else {
        members(cats, r, n - 1)
    }
}

/// Rule `a` is listed before rule `b`: lower `order`, ties by declaration.
pub open spec fn listed_before(rules: Seq<CategoryRule>, a: int, b: int) -> bool {
    rules[a].order < rules[b].order || (rules[a].order == rules[b].order && a < b)
}

/// The groups are exactly the rules with at least one commit, in listing order,
/// each with its commits in received order.
pub open spec fn grouped(
    groups: Seq<Group>,
    cats: Seq<Option<usize>>,
    rules: Seq<CategoryRule>,
) -> bool {
    &&& forall|j: int|
        0 <= j < groups.len() ==> {
            &&& (#[trigger] groups[j]).rule < rules.len()
            &&& groups[j].label@ == rules[groups[j].rule as int].label@
            &&& groups[j].entries@ == members(cats, groups[j].rule as int, cats.len() as int)
            &&& groups[j].entries@.len() > 0
        }
    &&& forall|j: int, k: int|
        0 <= j < k < groups.len() ==> listed_before(
            rules,
            (#[trigger] groups[j]).rule as int,
            (#[trigger] groups[k]).rule as int,
        )
    &&& forall|r: int|
        0 <= r < rules.len() && (#[trigger] members(cats, r, cats.len() as int)).len() > 0
            ==> exists|j: int| 0 <= j < groups.len() && groups[j].rule == r
}

/// Every entry of every group names a commit of the changelog.
pub open spec fn entries_in_range(cl: Changelog) -> bool {
    forall|g: int, e: int|
        0 <= g < cl.groups@.len() && 0 <= e < cl.groups@[g].entries@.len()
            ==> (#[trigger] cl.groups@[g].entries@[e]) < cl.commits@.len()
}

proof fn lemma_members_below(cats: Seq<Option<usize>>, r: int, n: int)
    requires
        n <= usize::MAX,
    ensures
        forall|e: int| 0 <= e < members(cats, r, n).len() ==> (#[trigger] members(cats, r, n)[e]) < n,
    decreases n,
{
    if n > 0 {
        lemma_members_below(cats, r, n - 1);
        let prev = members(cats, r, n - 1);
        assert forall|e: int| 0 <= e < members(cats, r, n).len() implies (#[trigger] members(cats, r, n)[e]) < n by {
            if e < prev.len() {
                assert(members(cats, r, n)[e] == prev[e]);
            }
        }
    }
}

/// Two groups of a changelog stand in the order of their categories: the
/// first comes before the second exactly when its category has the lower
/// `order`, or the same `order` and an earlier declaration. The order in which
/// commits arrived plays no part.
pub proof fn lemma_category_order(
    groups: Seq<Group>,
    cats: Seq<Option<usize>>,
    rules: Seq<CategoryRule>,
    j: int,
    k: int,
)
    requires
        grouped(groups, cats, rules),
        0 <= j < groups.len(),
        0 <= k < groups.len(),
        j != k,
    ensures
        (j < k) == listed_before(rules, groups[j].rule as int, groups[k].rule as int),
{
    if k < j {
        assert(listed_before(rules, groups[k].rule as int, groups[j].rule as int));
    }
}

/// A category that received no commit has no group, even though declared.
pub proof fn lemma_empty_category_omitted(
    groups: Seq<Group>,
    cats: Seq<Option<usize>>,
    rules: Seq<CategoryRule>,
    r: int,
)
    requires
        grouped(groups, cats, rules),
        members(cats, r, cats.len() as int).len() == 0,
    ensures
        forall|j: int| 0 <= j < groups.len() ==> (#[trigger] groups[j]).rule != r,
{
}

proof fn lemma_same_rule_at(g1: Seq<Group>, g2: Seq<Group>, cats: Seq<Option<usize>>, rules: Seq<CategoryRule>, j: int)
    requires
        grouped(g1, cats, rules),
        grouped(g2, cats, rules),
        0 <= j < g1.len(),
        0 <= j < g2.len(),
        forall|k: int| 0 <= k < j ==> (#[trigger] g1[k]).rule == g2[k].rule,
    ensures
        g1[j].rule == g2[j].rule,
{
    let a = g1[j].rule as int;
    let b = g2[j].rule as int;
    assert(members(cats, a, cats.len() as int).len() > 0);
    assert(members(cats, b, cats.len() as int).len() > 0);
    let k2 = choose|k: int| 0 <= k < g2.len() && g2[k].rule == a;
    let k1 = choose|k: int| 0 <= k < g1.len() && g1[k].rule == b;
    if k2 < j {
        assert(g1[k2].rule == g2[k2].rule);
        assert(listed_before(rules, g1[k2].rule as int, g1[j].rule as int));
    }
    if k1 < j {
        assert(g1[k1].rule == g2[k1].rule);
        assert(listed_before(rules, g2[k1].rule as int, g2[j].rule as int));
    }
    if a != b {
        assert(listed_before(rules, g2[j].rule as int, g2[k2].rule as int));
        assert(listed_before(rules, g1[j].rule as int, g1[k1].rule as int));
    }
}

proof fn lemma_same_prefix(g1: Seq<Group>, g2: Seq<Group>, cats: Seq<Option<usize>>, rules: Seq<CategoryRule>, j: int)
    requires
        grouped(g1, cats, rules),
        grouped(g2, cats, rules),
        0 <= j <= g1.len(),
        j <= g2.len(),
    ensures
        forall|k: int| 0 <= k < j ==> (#[trigger] g1[k]).rule == g2[k].rule,
    decreases j,
{
    if j > 0 {
        lemma_same_prefix(g1, g2, cats, rules, j - 1);
        lemma_same_rule_at(g1, g2, cats, rules, j - 1);
    }
}

proof fn lemma_not_longer(g1: Seq<Group>, g2: Seq<Group>, cats: Seq<Option<usize>>, rules: Seq<CategoryRule>)
    requires
        grouped(g1, cats, rules),
        grouped(g2, cats, rules),
        g2.len() <= g1.len(),
    ensures
        g1.len() == g2.len(),
{
    if g2.len() < g1.len() {
        let n = g2.len() as int;
        lemma_same_prefix(g1, g2, cats, rules, n);
        let x = g1[n].rule as int;
        assert(members(cats, x, cats.len() as int).len() > 0);
        let k = choose|k: int| 0 <= k < g2.len() && g2[k].rule == x;
        assert(g1[k].rule == g2[k].rule);
        assert(listed_before(rules, g1[k].rule as int, g1[n].rule as int));
    }
}

/// The groups are fixed by the categories and the rules: two groupings of the
/// same classification list the same rules in the same order.
pub proof fn lemma_grouped_unique(g1: Seq<Group>, g2: Seq<Group>, cats: Seq<Option<usize>>, rules: Seq<CategoryRule>)
    requires
        grouped(g1, cats, rules),
        grouped(g2, cats, rules),
    ensures
        g1.len() == g2.len(),
        forall|k: int| 0 <= k < g1.len() ==> (#[trigger] g1[k]).rule == g2[k].rule,
{
    if g1.len() >= g2.len() {
        lemma_not_longer(g1, g2, cats, rules);
    } else {
        lemma_not_longer(g2, g1, cats, rules);
    }
    lemma_same_prefix(g1, g2, cats, rules, g1.len() as int);
}

/// The indices of the commits classified under rule `r`, ascending.
pub fn members_of(cats: &Vec<Option<usize>>, r: usize) -> (m: Vec<usize>)
    ensures
        m@ == members(cats@, r as int, cats@.len() as int),
        forall|e: int| 0 <= e < m@.len() ==> (#[trigger] m@[e]) < cats@.len(),
{
    let len = cats.len();
    proof {
        lemma_members_below(cats@, r as int, len as int);
    }
    let mut m: Vec<usize> = Vec::new();
    let mut i: usize = 0;
    while i < cats.len()
        invariant
            i <= cats@.len(),
            m@ == members(cats@, r as int, i as int),
        decreases cats@.len() - i,
    {
        let hit = match cats[i] {
            Some(x) => x == r,
            None => false,
        };
        if hit {
            m.push(i);
        }
        i = i + 1;
    }
    m
}

fn before(rules: &Vec<CategoryRule>, a: usize, b: usize) -> (r: bool)
    requires
        a < rules@.len(),
        b < rules@.len(),
    ensures
        r == listed_before(rules@, a as int, b as int),
{
    rules[a].order < rules[b].order || (rules[a].order == rules[b].order && a < b)
}

/// Builds the changelog from the commits and their categories: one group per
/// rule that received a commit, in listing order; empty categories are left out.
pub fn build(
    commits: Vec<ParsedCommit>,
    cats: &Vec<Option<usize>>,
    rules: &Vec<CategoryRule>,
) -> (cl: Changelog)
    requires
        cats@.len() == commits@.len(),
    ensures
        cl.commits == commits,
        grouped(cl.groups@, cats@, rules@),
        entries_in_range(cl),
{
    let n = rules.len();
    let mut groups: Vec<Group> = Vec::new();
    let mut prev: usize = 0;
    let ghost mut used: Set<int> = Set::empty();
    proof {
        lemma_int_range(0, n as int);
    }
    loop
        invariant
            n == rules@.len(),
            cats@.len() == commits@.len(),
            forall|g: int, e: int|
                0 <= g < groups@.len() && 0 <= e < groups@[g].entries@.len()
                    ==> (#[trigger] groups@[g].entries@[e]) < commits@.len(),
            set_int_range(0, n as int).finite(),
            set_int_range(0, n as int).len() == n,
            used.finite(),
            used.len() == groups@.len(),
            used.subset_of(set_int_range(0, n as int)),
            forall|x: int| used.contains(x) ==> exists|j: int| 0 <= j < groups@.len() && groups@[j].rule == x,
            forall|j: int| 0 <= j < groups@.len() ==> used.contains((#[trigger] groups@[j]).rule as int),
            groups@.len() > 0 ==> prev == groups@[groups@.len() - 1].rule,
            forall|j: int| 0 <= j < groups@.len() ==> {
                &&& (#[trigger] groups@[j]).rule < n
                &&& groups@[j].label@ == rules@[groups@[j].rule as int].label@
                &&& groups@[j].entries@ == members(cats@, groups@[j].rule as int, cats@.len() as int)
                &&& groups@[j].entries@.len() > 0
            },
            forall|j: int, k: int|
                0 <= j < k < groups@.len() ==> listed_before(
                    rules@,
                    (#[trigger] groups@[j]).rule as int,
                    (#[trigger] groups@[k]).rule as int,
                ),
            forall|r: int|
                0 <= r < n && (#[trigger] members(cats@, r, cats@.len() as int)).len() > 0
                    && groups@.len() > 0 && !listed_before(rules@, prev as int, r) ==> exists|j: int|
                    0 <= j < groups@.len() && groups@[j].rule == r,
        decreases n - groups@.len(),
    {
        proof {
            lemma_len_subset(used, set_int_range(0, n as int));
        }
        let started = groups.len() > 0;
        let mut best: Option<usize> = None;
        let mut r: usize = 0;
        while r < n
            invariant
                n == rules@.len(),
                r <= n,
                started == (groups@.len() > 0),
                groups@.len() > 0 ==> prev < n,
                best is Some ==> {
                    let b = best->Some_0 as int;
                    &&& b < r
                    &&& members(cats@, b, cats@.len() as int).len() > 0
                    &&& (!started || listed_before(rules@, prev as int, b))
                },
                forall|x: int|
                    0 <= x < r && (#[trigger] members(cats@, x, cats@.len() as int)).len() > 0 && (
                    !started || listed_before(rules@, prev as int, x)) ==> best is Some && (x
                        == best->Some_0 || listed_before(rules@, best->Some_0 as int, x)),
            decreases n - r,
        {
            let m = members_of(cats, r);
            if m.len() > 0 && (!started || before(rules, prev, r)) {
                let better = match best {
                    None => true,
                    Some(b) => before(rules, r, b),
                };
                if better {
                    best = Some(r);
                }
            }
            r = r + 1;
        }
        match best {
            None => {
                return Changelog { commits, groups };
            },
            Some(b) => {
                let entries = members_of(cats, b);
                let label = rules[b].label.clone();
                proof {
                    if used.contains(b as int) {
                        let j = choose|j: int| 0 <= j < groups@.len() && groups@[j].rule == b as int;
                        if j < groups@.len() - 1 {
                            assert(listed_before(rules@, groups@[j].rule as int, groups@[groups@.len() - 1].rule as int));
                        }
                    }
                    used = used.insert(b as int);
                }
                let ghost old_groups = groups@;
                let ghost old_prev = prev;
                groups.push(Group { rule: b, label, entries });
                prev = b;
                proof {
                    lemma_len_subset(used, set_int_range(0, n as int));
                    let last = groups@.len() - 1;
                    assert(groups@[last].rule == b);
                    assert forall|x: int| used.contains(x) implies exists|j: int|
                        0 <= j < groups@.len() && groups@[j].rule == x by {
                        if x != b as int {
                            let j = choose|j: int| 0 <= j < old_groups.len() && old_groups[j].rule == x;
                            assert(groups@[j] == old_groups[j]);
                        }
                    }
                    assert forall|x: int|
                        0 <= x < n && (#[trigger] members(cats@, x, cats@.len() as int)).len() > 0
                            && !listed_before(rules@, b as int, x) implies exists|j: int|
                        0 <= j < groups@.len() && groups@[j].rule == x by {
                        if x != b as int {
                            assert(listed_before(rules@, x, b as int));
                            if started && listed_before(rules@, old_prev as int, x) {
                                assert(false);
                            } else if !started {
                                assert(false);
                            } else {
                                let j = choose|j: int| 0 <= j < old_groups.len() && old_groups[j].rule == x;
                                assert(groups@[j] == old_groups[j]);
                            }
                        }
                    }
                }
            }
        }
    }
}

} // verus!
