use changelog_gen::changelog::build;
use changelog_gen::classify::{classify, CategoryRule, RuleMatch};
use changelog_gen::commit::{parse, ParsedCommit, RawCommit};
use changelog_gen::pipeline::{changelog_of, generate, parse_all};
use changelog_gen::renderer::{render, TemplateError, Var};
use changelog_gen::settings::{resolve, resolve_commit_id, resolve_git_path};
use changelog_gen::template::{tokenize, ConfigError, TemplateModel};

fn raw(id: &str, message: &str) -> RawCommit {
    RawCommit {
        id: id.to_string(),
        author: "Ada".to_string(),
        date: 1_700_000_000,
        message: message.to_string(),
    }
}

fn kind_rule(kind: &str, label: &str, order: u64) -> CategoryRule {
    CategoryRule { matcher: RuleMatch::Kind(kind.to_string()), label: label.to_string(), order }
}

fn rule(matcher: RuleMatch, label: &str, order: u64) -> CategoryRule {
    CategoryRule { matcher, label: label.to_string(), order }
}

fn var(name: &str, value: &str) -> Var {
    Var { name: name.to_string(), value: value.to_string() }
}

const SECTIONED: &str = "# Changelog {{date}}\n{{#each}}## {{label}}\n{{|}}- {{subject}} ({{hash}})\n{{/each}}";

fn model(rules: Vec<CategoryRule>, exclude: &[&str], output: &str) -> TemplateModel {
    match TemplateModel::new(rules, exclude.iter().map(|s| s.to_string()).collect(), output) {
        Ok(m) => m,
        Err(_) => panic!("template rejected"),
    }
}

fn feat_fix_model(exclude: &[&str]) -> TemplateModel {
    model(vec![kind_rule("feat", "Features", 1), kind_rule("fix", "Fixes", 2)], exclude, SECTIONED)
}

fn render_ok(r: Result<String, TemplateError>) -> String {
    match r {
        Ok(s) => s,
        Err(TemplateError::Unresolved(n)) => panic!("unresolved placeholder {}", n),
    }
}

fn config_err(r: Result<TemplateModel, ConfigError>) -> ConfigError {
    match r {
        Ok(_) => panic!("template accepted"),
        Err(e) => e,
    }
}

#[test]
fn parses_type_scope_subject() {
    let p = parse(raw("a1", "feat(api): add endpoint"));
    assert_eq!(p.kind.as_deref(), Some("feat"));
    assert_eq!(p.scope.as_deref(), Some("api"));
    assert_eq!(p.subject, "add endpoint");
    assert_eq!(p.body, None);
    assert!(!p.breaking);
    assert_eq!(p.raw.id, "a1");
}

#[test]
fn parse_trims_scope_and_subject() {
    let p = parse(raw("a1", "Fix( core ):   tidy up  \t"));
    assert_eq!(p.kind.as_deref(), Some("Fix"));
    assert_eq!(p.scope.as_deref(), Some("core"));
    assert_eq!(p.subject, "tidy up");
}

#[test]
fn parses_type_without_scope() {
    let p = parse(raw("a2", "fix: null check"));
    assert_eq!(p.kind.as_deref(), Some("fix"));
    assert_eq!(p.scope, None);
    assert_eq!(p.subject, "null check");
}

#[test]
fn unmatched_header_keeps_whole_line() {
    for msg in ["Merge branch 'main' into dev", "feat:no space", "feat(): empty scope", "feat(api: unclosed", ": nothing", "fix: "] {
        let p = parse(raw("x", msg));
        assert_eq!(p.kind, None, "{}", msg);
        assert_eq!(p.scope, None, "{}", msg);
        assert_eq!(p.subject, msg);
        assert!(!p.breaking);
    }
}

#[test]
fn unmatched_header_verbatim_with_body() {
    let p = parse(raw("x", "  Update docs  \n\nmore words"));
    assert_eq!(p.kind, None);
    assert_eq!(p.subject, "  Update docs  ");
    assert_eq!(p.body.as_deref(), Some("more words"));
}

#[test]
fn bang_marks_breaking() {
    let p = parse(raw("b1", "feat!: remove legacy flag"));
    assert!(p.breaking);
    assert_eq!(p.kind.as_deref(), Some("feat"));
    assert_eq!(p.subject, "remove legacy flag");
    let q = parse(raw("b2", "feat(cli)!: drop option"));
    assert!(q.breaking);
    assert_eq!(q.scope.as_deref(), Some("cli"));
}

#[test]
fn body_marker_marks_breaking() {
    let p = parse(raw("b3", "refactor: rework config\n\nSome text\nbreaking change: keys renamed"));
    assert!(p.breaking);
    assert_eq!(p.body.as_deref(), Some("Some text\nbreaking change: keys renamed"));
    let q = parse(raw("b4", "Rework config\n\nBREAKING CHANGE: keys renamed"));
    assert!(q.breaking);
    assert_eq!(q.kind, None);
    let r = parse(raw("b5", "docs: note\n\nnot a BREAKING CHANGE here"));
    assert!(!r.breaking);
}

#[test]
fn classify_first_match_wins() {
    let commits = parse_all(vec![raw("1", "feat!: big"), raw("2", "feat: small"), raw("3", "docs: words")]);
    let rules = vec![
        rule(RuleMatch::Breaking, "Breaking", 0),
        kind_rule("FEAT", "Features", 1),
        rule(RuleMatch::Any, "Other", 9),
    ];
    assert_eq!(classify(&commits, &rules, &vec![]), vec![Some(0), Some(1), Some(2)]);
}

#[test]
fn classify_unmatched_dropped() {
    let commits = parse_all(vec![raw("1", "docs: words"), raw("2", "no header")]);
    let rules = vec![kind_rule("feat", "Features", 1)];
    assert_eq!(classify(&commits, &rules, &vec![]), vec![None, None]);
}

#[test]
fn exclude_beats_catch_all() {
    let commits = parse_all(vec![raw("1", "chore: bump deps"), raw("2", "Chore: tidy"), raw("3", "misc")]);
    let rules = vec![rule(RuleMatch::Any, "Everything", 1)];
    let cats = classify(&commits, &rules, &vec!["chore".to_string()]);
    assert_eq!(cats, vec![None, None, Some(0)]);
}

#[test]
fn groups_follow_rule_order_not_arrival() {
    let commits = parse_all(vec![raw("1", "fix: a"), raw("2", "feat: b"), raw("3", "fix: c"), raw("4", "docs: d")]);
    let rules = vec![kind_rule("fix", "Fixes", 5), kind_rule("feat", "Features", 1), kind_rule("perf", "Speed", 0), kind_rule("docs", "Docs", 5)];
    let cats = classify(&commits, &rules, &vec![]);
    let cl = build(commits, &cats, &rules);
    let labels: Vec<&str> = cl.groups.iter().map(|g| g.label.as_str()).collect();
    assert_eq!(labels, vec!["Features", "Fixes", "Docs"]);
    assert_eq!(cl.groups[0].entries, vec![1]);
    assert_eq!(cl.groups[1].entries, vec![0, 2]);
    assert_eq!(cl.groups[2].entries, vec![3]);
    assert_eq!(cl.groups[1].rule, 0);
}

#[test]
fn empty_category_not_rendered() {
    let m = feat_fix_model(&[]);
    let out = render_ok(generate(&m, vec![raw("1", "fix: only fix")], &vec![var("date", "D")]));
    assert_eq!(out, "# Changelog D\n## Fixes\n- only fix (1)\n");
    assert!(!out.contains("Features"));
}

#[test]
fn empty_history_renders_scalars_only() {
    let m = feat_fix_model(&[]);
    let out = render_ok(generate(&m, vec![], &vec![var("date", "2024-05-01")]));
    assert_eq!(out, "# Changelog 2024-05-01\n");
}

#[test]
fn feature_fix_chore_scenario() {
    let m = feat_fix_model(&["chore"]);
    let raws = vec![raw("c3", "feat(api): add endpoint"), raw("c2", "fix: null check"), raw("c1", "chore: bump deps")];
    let out = render_ok(generate(&m, raws, &vec![var("date", "2024-01-01")]));
    assert_eq!(out, "# Changelog 2024-01-01\n## Features\n- add endpoint (c3)\n## Fixes\n- null check (c2)\n");
    assert!(!out.contains("chore"));
    assert!(!out.contains("bump deps"));
}

#[test]
fn cutoff_scenario_only_features() {
    // the history source already left out the cutoff commit and all older ones
    let m = feat_fix_model(&["chore"]);
    let out = render_ok(generate(&m, vec![raw("c3", "feat(api): add endpoint")], &vec![var("date", "2024-01-01")]));
    assert_eq!(out, "# Changelog 2024-01-01\n## Features\n- add endpoint (c3)\n");
    assert!(!out.contains("Fixes"));
}

#[test]
fn breaking_rule_takes_precedence() {
    let rules = vec![rule(RuleMatch::Breaking, "Breaking Changes", 0), kind_rule("feat", "Features", 1)];
    let m = model(rules, &[], "{{#each}}[{{label}}]{{|}} {{subject}}{{/each}}");
    let out = render_ok(generate(&m, vec![raw("b", "feat!: remove legacy flag"), raw("a", "feat: add flag")], &vec![]));
    assert_eq!(out, "[Breaking Changes] remove legacy flag[Features] add flag");
}

#[test]
fn breaking_without_rule_falls_to_kind() {
    let m = model(vec![kind_rule("feat", "Features", 1)], &[], "{{#each}}{{label}}: {{subject}};{{/each}}");
    let out = render_ok(generate(&m, vec![raw("b", "feat!: remove legacy flag")], &vec![]));
    assert_eq!(out, "Features: remove legacy flag;");
}

#[test]
fn render_twice_identical() {
    let m = feat_fix_model(&[]);
    let cl = changelog_of(&m, vec![raw("1", "feat: x"), raw("2", "fix(ui): y")]);
    let vars = vec![var("date", "today")];
    let a = render_ok(render(&m.layout, &cl, &vars));
    let b = render_ok(render(&m.layout, &cl, &vars));
    assert_eq!(a, b);
    assert_eq!(a, "# Changelog today\n## Features\n- x (1)\n## Fixes\n- y (2)\n");
}

#[test]
fn render_commit_fields() {
    let m = model(vec![rule(RuleMatch::Any, "All", 0)], &[], "{{#each}}{{kind}}|{{scope}}|{{author}}|{{body}}|{{repo}}\n{{/each}}");
    let out = render_ok(generate(&m, vec![raw("1", "fix(ui): y\n\nwhy"), raw("2", "plain")], &vec![var("repo", "r")]));
    assert_eq!(out, "fix|ui|Ada|why|r\n||Ada||r\n");
}

#[test]
fn block_without_divider_repeats_whole_block() {
    let m = model(vec![rule(RuleMatch::Any, "All", 0)], &[], "<{{#each}}({{label}} {{hash}}){{/each}}>");
    let out = render_ok(generate(&m, vec![raw("1", "a"), raw("2", "b")], &vec![]));
    assert_eq!(out, "<(All 1)(All 2)>");
}

#[test]
fn unresolved_scalar_fails() {
    let m = feat_fix_model(&[]);
    match generate(&m, vec![raw("1", "feat: x")], &vec![]) {
        Err(TemplateError::Unresolved(n)) => assert_eq!(n, "date"),
        Ok(_) => panic!("rendered without a date"),
    }
}

#[test]
fn unresolved_field_fails_only_when_expanded() {
    let m = model(vec![kind_rule("feat", "Features", 1)], &[], "top{{#each}}{{nope}}{{/each}}");
    assert_eq!(render_ok(generate(&m, vec![], &vec![])), "top");
    match generate(&m, vec![raw("1", "feat: x")], &vec![]) {
        Err(TemplateError::Unresolved(n)) => assert_eq!(n, "nope"),
        Ok(_) => panic!("unknown field rendered"),
    }
}

#[test]
fn scalar_values_not_reexpanded() {
    let m = model(vec![], &[], "v={{x}}");
    assert_eq!(render_ok(generate(&m, vec![], &vec![var("x", "{{y}}")])), "v={{y}}");
}

#[test]
fn first_scalar_of_a_name_wins() {
    let m = model(vec![], &[], "{{x}}");
    assert_eq!(render_ok(generate(&m, vec![], &vec![var("x", "1"), var("x", "2")])), "1");
}

#[test]
fn tokenize_splits_text_and_fields() {
    let p = tokenize("a{{b}}c{{d}}").unwrap();
    assert_eq!(p.len(), 4);
    assert!(tokenize("a{{b").is_none());
    assert_eq!(tokenize("").unwrap().len(), 0);
    assert_eq!(tokenize("x}}y").unwrap().len(), 1);
}

#[test]
fn config_missing_template() {
    assert!(matches!(config_err(TemplateModel::new(vec![], vec![], "")), ConfigError::MissingTemplate));
}

#[test]
fn config_duplicate_label() {
    let rules = vec![kind_rule("feat", "A", 1), kind_rule("fix", "B", 2), kind_rule("perf", "A", 3)];
    match config_err(TemplateModel::new(rules, vec![], "x")) {
        ConfigError::DuplicateLabel(l) => assert_eq!(l, "A"),
        _ => panic!("wrong error"),
    }
}

#[test]
fn config_two_breaking_rules() {
    let rules = vec![rule(RuleMatch::Breaking, "A", 1), rule(RuleMatch::Breaking, "B", 2)];
    assert!(matches!(config_err(TemplateModel::new(rules, vec![], "x")), ConfigError::DuplicateBreakingRule));
}

#[test]
fn config_unclosed_placeholder() {
    assert!(matches!(config_err(TemplateModel::new(vec![], vec![], "a {{date")), ConfigError::UnclosedPlaceholder));
}

#[test]
fn config_misplaced_markers() {
    for t in ["{{/each}}", "{{#each}}x", "{{#each}}{{#each}}{{/each}}", "{{#each}}{{/each}}{{#each}}{{/each}}", "{{|}}", "{{#each}}{{|}}{{|}}{{/each}}"] {
        assert!(matches!(config_err(TemplateModel::new(vec![], vec![], t)), ConfigError::MisplacedBlockMarker), "{}", t);
    }
}

#[test]
fn settings_precedence() {
    let s = |x: &str| Some(x.to_string());
    assert_eq!(resolve_commit_id(s("cli"), s("doc")), s("cli"));
    assert_eq!(resolve_commit_id(None, s("doc")), s("doc"));
    assert_eq!(resolve_commit_id(None, None), None);
    assert_eq!(resolve_git_path(s("/repo"), s("/other")), "/repo");
    assert_eq!(resolve_git_path(None, s("/other")), "/other");
    assert_eq!(resolve_git_path(None, None), "./");
    let all = resolve(None, s("abc"), s("/r"), None);
    assert_eq!(all.commit_id_cutoff, s("abc"));
    assert_eq!(all.git_path, "/r");
}

#[test]
fn parse_all_keeps_order() {
    let p: Vec<ParsedCommit> = parse_all(vec![raw("1", "feat: a"), raw("2", "fix: b")]);
    assert_eq!(p.len(), 2);
    assert_eq!(p[0].raw.id, "1");
    assert_eq!(p[1].subject, "b");
}

#[test]
fn parse_trims_all_unicode_whitespace() {
    let p = parse(raw("w", "a(\u{0C}x): b"));
    assert_eq!(p.scope.as_deref(), Some("x"));
    assert_eq!(p.subject, "b");
    let subj = "\u{A0}\u{2003}\u{0B}add flag\u{3000}\u{85}";
    let q = parse(raw("w", &format!("feat( \u{2028}ui\u{202F} ): {}", subj)));
    assert_eq!(q.scope.as_deref(), Some("ui"));
    assert_eq!(q.subject, subj.trim());
    assert_eq!(q.subject, "add flag");
}

#[test]
fn generate_twice_identical() {
    let m = feat_fix_model(&["chore"]);
    let raws = || vec![raw("c3", "feat(api): add endpoint"), raw("c2", "fix: null check"), raw("c1", "chore: bump deps")];
    let vars = vec![var("date", "2024-01-01")];
    let a = render_ok(generate(&m, raws(), &vars));
    let b = render_ok(generate(&m, raws(), &vars));
    assert_eq!(a, b);
    let e1 = generate(&m, raws(), &vec![]);
    let e2 = generate(&m, raws(), &vec![]);
    match (e1, e2) {
        (Err(TemplateError::Unresolved(x)), Err(TemplateError::Unresolved(y))) => assert_eq!(x, y),
        _ => panic!("expected the same failure twice"),
    }
}
