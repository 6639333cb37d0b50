//! The template document: settings and categories, one per line, then the
//! output template.
//!
//! ```text
//! # a comment
//! git_path: ../repo
//! skip_commits_up_to: 4f2a9c1
//! exclude: chore
//! category: 0 ! Breaking Changes
//! category: 1 feat Features
//! category: 9 * Other
//! template:
//! everything after this line is the output template
//! ```
//!
//! A category line gives its order, its predicate (`!` for breaking changes,
//! `*` for every commit, else a type token) and its label. An exclude line
//! gives one type token. Lines are trimmed;
//! empty lines and lines starting with `#` are skipped; a later setting of
//! `git_path` or `skip_commits_up_to` replaces an earlier one.
use vstd::prelude::*;
use crate::classify::{CategoryRule, RuleMatch};
use crate::commit::opt_view;
use crate::template::{validated, ConfigError, TemplateModel};
use crate::commit::is_kind_char;
use crate::text::{find_char, find_from, str_eq, trim_range, trimmed};

verus! {

/// The mathematical form of a category rule.
pub enum RuleV {
    Kind(Seq<char>, Seq<char>, u64),
    Breaking(Seq<char>, u64),
    Any(Seq<char>, u64),
}

pub open spec fn rule_view(r: CategoryRule) -> RuleV {
    match r.matcher {
        RuleMatch::Kind(k) => RuleV::Kind(k@, r.label@, r.order),
        RuleMatch::Breaking => RuleV::Breaking(r.label@, r.order),
        RuleMatch::Any => RuleV::Any(r.label@, r.order),
    }
}

/// What one line of the document says.
pub enum LineV {
    Skip,
    GitPath(Seq<char>),
    Cutoff(Seq<char>),
    Exclude(Seq<char>),
    Category(RuleV),
    Template,
    Malformed,
}

/// The value of a decimal numeral.
pub open spec fn numeral(s: Seq<char>) -> int
    decreases s.len(),
{
    if s.len() == 0 {
        0
    } else {
        numeral(s.drop_last()) * 10 + (s.last() as int - '0' as int)
    }
}

pub open spec fn all_digits(s: Seq<char>) -> bool {
    forall|i: int| 0 <= i < s.len() ==> '0' <= #[trigger] s[i] && s[i] <= '9'
}

pub open spec fn is_kind_token(s: Seq<char>) -> bool {
    s.len() > 0 && forall|i: int| 0 <= i < s.len() ==> is_kind_char(#[trigger] s[i])
}

/// `s` up to its first space.
pub open spec fn head_word(s: Seq<char>) -> Seq<char> {
    s.subrange(0, find_from(s, ' ', 0))
}

/// What follows the first space of `s`, trimmed; empty when there is none.
pub open spec fn after_word(s: Seq<char>) -> Seq<char> {
    if find_from(s, ' ', 0) < s.len() {
        trimmed(s.subrange(find_from(s, ' ', 0) + 1, s.len() as int))
    } else {
        Seq::empty()
    }
}

/// The value of a `category:` line: `order predicate label`.
pub open spec fn category_of_value(v: Seq<char>) -> Option<RuleV> {
    let order = head_word(v);
    let rest = after_word(v);
    let pred = head_word(rest);
    let label = after_word(rest);
    if order.len() > 0 && all_digits(order) && numeral(order) <= u64::MAX && label.len() > 0 {
        if pred == "!"@ {
            Some(RuleV::Breaking(label, numeral(order) as u64))
        } else if pred == "*"@ {
            Some(RuleV::Any(label, numeral(order) as u64))
        } else if is_kind_token(pred) {
            Some(RuleV::Kind(pred, label, numeral(order) as u64))
        } else {
            None
        }
    } else {
        None
    }
}

/// The meaning of a trimmed line.
pub open spec fn line_of(l: Seq<char>) -> LineV {
    let k = find_from(l, ':', 0);
    let key = l.subrange(0, k);
    let v = if k < l.len() { trimmed(l.subrange(k + 1, l.len() as int)) } else { Seq::empty() };
    if l.len() == 0 || l[0] == '#' {
        LineV::Skip
    } else if l == "template:"@ {
        LineV::Template
    } else if k >= l.len() || v.len() == 0 {
        LineV::Malformed
    } else if key == "git_path"@ {
        LineV::GitPath(v)
    } else if key == "skip_commits_up_to"@ {
        LineV::Cutoff(v)
    } else if key == "exclude"@ {
        if is_kind_token(v) {
            LineV::Exclude(v)
        } else {
            LineV::Malformed
        }
    } else if key == "category"@ {
        match category_of_value(v) {
            Some(r) => LineV::Category(r),
            None => LineV::Malformed,
        }
    } else {
        LineV::Malformed
    }
}

/// What the lines before the template say.
pub struct DocV {
    pub git_path: Option<Seq<char>>,
    pub cutoff: Option<Seq<char>>,
    pub exclude: Seq<Seq<char>>,
    pub rules: Seq<RuleV>,
}

pub open spec fn apply_line(acc: DocV, line: LineV) -> DocV {
    match line {
        LineV::GitPath(v) => DocV { git_path: Some(v), ..acc },
        LineV::Cutoff(v) => DocV { cutoff: Some(v), ..acc },
        LineV::Exclude(v) => DocV { exclude: acc.exclude.push(v), ..acc },
        LineV::Category(r) => DocV { rules: acc.rules.push(r), ..acc },
        _ => acc,
    }
}

/// How reading the document goes on from index `i` (a line start) with `acc`
/// read so far: the settings and where the output template starts; or the
/// first malformed line, trimmed; or `None` when no `template:` line comes.
pub open spec fn read_from(d: Seq<char>, i: int, acc: DocV) -> Result<(DocV, int), Option<Seq<char>>>
    decreases d.len() + 1 - i,
{
    if i < 0 || i > d.len() {
        Err(None)
    } else {
        let e = find_from(d, '\n', i);
        let l = trimmed(d.subrange(i, e));
        if e < i || e > d.len() {
            Err(None)
        } else {
            match line_of(l) {
                LineV::Template => Ok((acc, if e < d.len() { e + 1 } else { e })),
                LineV::Malformed => Err(Some(l)),
                other => if e < d.len() {
                    read_from(d, e + 1, apply_line(acc, other))
                } else {
                    Err(None)
                },
            }
        }
    }
}

pub open spec fn empty_doc() -> DocV {
    DocV { git_path: None, cutoff: None, exclude: Seq::empty(), rules: Seq::empty() }
}

proof fn lemma_numeral_step(s: Seq<char>, i: int)
    requires
        0 <= i < s.len(),
    ensures
        numeral(s.subrange(0, i + 1)) == numeral(s.subrange(0, i)) * 10 + (s[i] as int - '0' as int),
{
    assert(s.subrange(0, i + 1).drop_last() =~= s.subrange(0, i));
}

proof fn lemma_numeral_grows(s: Seq<char>, i: int, j: int)
    requires
        0 <= i <= j <= s.len(),
        all_digits(s),
    ensures
        numeral(s.subrange(0, j)) >= numeral(s.subrange(0, i)),
    decreases j - i,
{
    if i < j {
        lemma_numeral_grows(s, i, j - 1);
        lemma_numeral_step(s, j - 1);
        lemma_numeral_nonneg(s.subrange(0, j - 1));
    }
}

proof fn lemma_numeral_nonneg(s: Seq<char>)
    requires
        all_digits(s),
    ensures
        numeral(s) >= 0,
    decreases s.len(),
{
    if s.len() > 0 {
        assert(all_digits(s.drop_last()));
        lemma_numeral_nonneg(s.drop_last());
    }
}

/// The value of a non-empty decimal numeral that fits in a `u64`.
pub fn parse_numeral(s: &str) -> (r: Option<u64>)
    ensures
        r is Some == (s@.len() > 0 && all_digits(s@) && numeral(s@) <= u64::MAX),
        r is Some ==> r->Some_0 == numeral(s@),
{
    let n = s.unicode_len();
    if n == 0 {
        return None;
    }
    let mut i: usize = 0;
    while i < n
        invariant
            i <= n,
            n == s@.len(),
            forall|j: int| 0 <= j < i ==> '0' <= #[trigger] s@[j] && s@[j] <= '9',
        decreases n - i,
    {
        let c = s.get_char(i);
        if !('0' <= c && c <= '9') {
            return None;
        }
        i = i + 1;
    }
    assert(all_digits(s@));
    let mut v: u64 = 0;
    let mut i: usize = 0;
    assert(s@.subrange(0, 0) =~= Seq::<char>::empty());
    while i < n
        invariant
            i <= n,
            n == s@.len(),
            all_digits(s@),
            v == numeral(s@.subrange(0, i as int)),
        decreases n - i,
    {
        let d = (s.get_char(i) as u32 - '0' as u32) as u64;
        proof {
            lemma_numeral_step(s@, i as int);
        }
        if v > 1844674407370955161 || (v == 1844674407370955161 && d > 5) {
            proof {
                lemma_numeral_grows(s@, i + 1, n as int);
                assert(s@.subrange(0, n as int) =~= s@);
            }
            return None;
        }
        v = v * 10 + d;
        i = i + 1;
    }
    assert(s@.subrange(0, n as int) =~= s@);
    Some(v)
}

/// Splits `s` at its first space: the word before it, and the trimmed rest.
fn split_word(s: &str) -> (r: (String, String))
    ensures
        r.0@ == head_word(s@),
        r.1@ == after_word(s@),
{
    let n = s.unicode_len();
    let k = find_char(s, ' ', 0);
    let head = String::from_str(s.substring_char(0, k));
    if k < n {
        (head, trim_range(s, k + 1, n))
    } else {
        (head, String::new())
    }
}

fn kind_token(s: &str) -> (r: bool)
    ensures
        r == is_kind_token(s@),
{
    let n = s.unicode_len();
    if n == 0 {
        return false;
    }
    let mut i: usize = 0;
    while i < n
        invariant
            i <= n,
            n == s@.len(),
            forall|j: int| 0 <= j < i ==> is_kind_char(#[trigger] s@[j]),
        decreases n - i,
    {
        let c = s.get_char(i);
        if !(('a' <= c && c <= 'z') || ('A' <= c && c <= 'Z') || ('0' <= c && c <= '9')) {
            return false;
        }
        i = i + 1;
    }
    true
}

/// The rule of a `category:` value, or `None` when it is malformed.
pub fn parse_category(v: &str) -> (r: Option<CategoryRule>)
    ensures
        match category_of_value(v@) {
            Some(rv) => r is Some && rule_view(r->Some_0) == rv,
            None => r is None,
        },
{
    let (order_text, rest) = split_word(v);
    let (pred, label) = split_word(rest.as_str());
    let order = match parse_numeral(order_text.as_str()) {
        Some(o) => o,
        None => {
            return None;
        },
    };
    if label.unicode_len() == 0 {
        return None;
    }
    let matcher = if str_eq(pred.as_str(), "!") {
        RuleMatch::Breaking
    } else if str_eq(pred.as_str(), "*") {
        RuleMatch::Any
    } else if kind_token(pred.as_str()) {
        RuleMatch::Kind(pred)
    } else {
        return None;
    };
    Some(CategoryRule { matcher, label, order })
}

/// One line of the document, as read.
pub enum Line {
    Skip,
    GitPath(String),
    Cutoff(String),
    Exclude(String),
    Category(CategoryRule),
    Template,
    Malformed,
}

pub open spec fn line_view(l: Line) -> LineV {
    match l {
        Line::Skip => LineV::Skip,
        Line::GitPath(v) => LineV::GitPath(v@),
        Line::Cutoff(v) => LineV::Cutoff(v@),
        Line::Exclude(v) => LineV::Exclude(v@),
        Line::Category(r) => LineV::Category(rule_view(r)),
        Line::Template => LineV::Template,
        Line::Malformed => LineV::Malformed,
    }
}

/// Reads one trimmed line.
pub fn parse_line(l: &str) -> (r: Line)
    ensures
        line_view(r) == line_of(l@),
{
    let n = l.unicode_len();
    if n == 0 || l.get_char(0) == '#' {
        return Line::Skip;
    }
    if str_eq(l, "template:") {
        return Line::Template;
    }
    let k = find_char(l, ':', 0);
    if k >= n {
        return Line::Malformed;
    }
    let key = l.substring_char(0, k);
    let v = trim_range(l, k + 1, n);
    if v.unicode_len() == 0 {
        return Line::Malformed;
    }
    if str_eq(key, "git_path") {
        Line::GitPath(v)
    } else if str_eq(key, "skip_commits_up_to") {
        Line::Cutoff(v)
    } else if str_eq(key, "exclude") {
        if kind_token(v.as_str()) {
            Line::Exclude(v)
        } else {
            Line::Malformed
        }
    } else if str_eq(key, "category") {
        match parse_category(v.as_str()) {
            Some(r) => Line::Category(r),
            None => Line::Malformed,
        }
    } else {
        Line::Malformed
    }
}

/// What the lines before the template say, with their values as read.
pub struct Head {
    pub git_path: Option<String>,
    pub cutoff: Option<String>,
    pub exclude: Vec<String>,
    pub rules: Vec<CategoryRule>,
    /// Where the output template starts.
    pub start: usize,
}

pub open spec fn head_view(git_path: Option<String>, cutoff: Option<String>, exclude: Seq<String>, rules: Seq<CategoryRule>) -> DocV {
    DocV {
        git_path: opt_view(git_path),
        cutoff: opt_view(cutoff),
        exclude: exclude.map_values(|x: String| x@),
        rules: rules.map_values(|x: CategoryRule| rule_view(x)),
    }
}

/// Reads the lines before `template:`.
pub fn read_head(d: &str) -> (r: Result<Head, Option<String>>)
    ensures
        match read_from(d@, 0, empty_doc()) {
            Ok((dv, start)) => r is Ok && head_view(r->Ok_0.git_path, r->Ok_0.cutoff, r->Ok_0.exclude@, r->Ok_0.rules@) == dv
                && r->Ok_0.start == start && start <= d@.len(),
            Err(e) => r is Err && opt_view(r->Err_0) == e,
        },
{
    let n = d.unicode_len();
    let mut git_path: Option<String> = None;
    let mut cutoff: Option<String> = None;
    let mut exclude: Vec<String> = Vec::new();
    let mut rules: Vec<CategoryRule> = Vec::new();
    let mut i: usize = 0;
    assert(exclude@.map_values(|x: String| x@) =~= Seq::<Seq<char>>::empty());
    assert(rules@.map_values(|x: CategoryRule| rule_view(x)) =~= Seq::<RuleV>::empty());
    loop
        invariant
            n == d@.len(),
            i <= n,
            read_from(d@, 0, empty_doc()) == read_from(d@, i as int, head_view(git_path, cutoff, exclude@, rules@)),
        decreases n + 1 - i,
    {
        let ghost acc = head_view(git_path, cutoff, exclude@, rules@);
        let e = find_char(d, '\n', i);
        let l = trim_range(d, i, e);
        let line = parse_line(l.as_str());
        match line {
            Line::Template => {
                let start = if e < n { e + 1 } else { e };
                return Ok(Head { git_path, cutoff, exclude, rules, start });
            },
            Line::Malformed => {
                return Err(Some(l));
            },
            Line::GitPath(v) => {
                git_path = Some(v);
            },
            Line::Cutoff(v) => {
                cutoff = Some(v);
            },
            Line::Exclude(v) => {
                exclude.push(v);
            },
            Line::Category(c) => {
                rules.push(c);
            },
            Line::Skip => {},
        }
        assert(exclude@.map_values(|x: String| x@) =~= apply_line(acc, line_of(l@)).exclude);
        assert(rules@.map_values(|x: CategoryRule| rule_view(x)) =~= apply_line(acc, line_of(l@)).rules);
        if e >= n {
            return Err(None);
        }
        i = e + 1;
    }
}

/// A template document, read and validated.
pub struct Document {
    pub git_path: Option<String>,
    pub skip_commits_up_to: Option<String>,
    pub model: TemplateModel,
}

pub open spec fn model_of(r: Result<Document, ConfigError>) -> Result<TemplateModel, ConfigError> {
    match r {
        Ok(doc) => Ok(doc.model),
        Err(e) => Err(e),
    }
}

impl Document {
    /// Reads a template document: the settings and categories up to the
    /// `template:` line, then the output template after it, validated as a
    /// whole. Fails on the first malformed line, or when no `template:` line
    /// comes.
    pub fn read(d: &str) -> (r: Result<Document, ConfigError>)
        ensures
            read_from(d@, 0, empty_doc()) == Err::<(DocV, int), Option<Seq<char>>>(None) ==> r is Err && r->Err_0 is MissingTemplate,
            read_from(d@, 0, empty_doc()) is Err && read_from(d@, 0, empty_doc())->Err_0 is Some ==> r is Err
                && r->Err_0 is MalformedLine
                && Some(r->Err_0->MalformedLine_0@) == read_from(d@, 0, empty_doc())->Err_0,
            read_from(d@, 0, empty_doc()) is Ok ==> {
                let (dv, start) = read_from(d@, 0, empty_doc())->Ok_0;
                &&& r is Ok ==> opt_view(r->Ok_0.git_path) == dv.git_path && opt_view(r->Ok_0.skip_commits_up_to) == dv.cutoff
                &&& exists|rules: Seq<CategoryRule>, exclude: Seq<String>|
                    head_view(None, None, exclude, rules) == (DocV { git_path: None, cutoff: None, ..dv })
                    && validated(rules, exclude, d@.subrange(start, d@.len() as int), model_of(r))
            },
    {
        match read_head(d) {
            Err(None) => Err(ConfigError::MissingTemplate),
            Err(Some(l)) => Err(ConfigError::MalformedLine(l)),
            Ok(head) => {
                let Head { git_path, cutoff, exclude, rules, start } = head;
                let ghost rv = rules@;
                let ghost ev = exclude@;
                let tpl = d.substring_char(start, d.unicode_len());
                let m = TemplateModel::new(rules, exclude, tpl);
                let r = match m {
                    Ok(model) => Ok(Document { git_path, skip_commits_up_to: cutoff, model }),
                    Err(e) => Err(e),
                };
                assert(head_view(None, None, ev, rv) == (DocV { git_path: None, cutoff: None, ..read_from(d@, 0, empty_doc())->Ok_0.0 }));
                assert(model_of(r) == m);
                r
            },
        }
    }
}

} // verus!
