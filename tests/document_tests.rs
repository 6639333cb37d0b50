use changelog_gen::classify::RuleMatch;
use changelog_gen::commit::RawCommit;
use changelog_gen::document::{parse_category, parse_numeral, Document};
use changelog_gen::pipeline::generate;
use changelog_gen::renderer::{TemplateError, Var};
use changelog_gen::template::ConfigError;

const DOC: &str = "# release notes\n\
git_path: ../repo\n\
skip_commits_up_to: 4f2a9c1\n\
exclude: chore\n\
\n\
category: 0 ! Breaking Changes\n\
category: 1 feat Features\n\
category:   2   fix   Bug Fixes  \n\
template:\n\
v{{version}}\n{{#each}}## {{label}}\n{{|}}* {{subject}}\n{{/each}}";

fn read(d: &str) -> Result<Document, ConfigError> {
    Document::read(d)
}

fn commit(id: &str, msg: &str) -> RawCommit {
    RawCommit { id: id.to_string(), author: "Lin".to_string(), date: 0, message: msg.to_string() }
}

#[test]
fn reads_settings_and_categories() {
    let doc = match read(DOC) {
        Ok(d) => d,
        Err(_) => panic!("document rejected"),
    };
    assert_eq!(doc.git_path.as_deref(), Some("../repo"));
    assert_eq!(doc.skip_commits_up_to.as_deref(), Some("4f2a9c1"));
    assert_eq!(doc.model.exclude, vec!["chore".to_string()]);
    assert_eq!(doc.model.rules.len(), 3);
    assert!(matches!(doc.model.rules[0].matcher, RuleMatch::Breaking));
    assert_eq!(doc.model.rules[0].label, "Breaking Changes");
    assert_eq!(doc.model.rules[2].label, "Bug Fixes");
    assert_eq!(doc.model.rules[2].order, 2);
    match &doc.model.rules[1].matcher {
        RuleMatch::Kind(k) => assert_eq!(k, "feat"),
        _ => panic!("wrong matcher"),
    }
}

#[test]
fn document_end_to_end() {
    let doc = match read(DOC) {
        Ok(d) => d,
        Err(_) => panic!("document rejected"),
    };
    let raws = vec![commit("3", "fix: crash on start"), commit("2", "feat!: new format"), commit("1", "chore: deps")];
    let vars = vec![Var { name: "version".to_string(), value: "1.2.0".to_string() }];
    match generate(&doc.model, raws, &vars) {
        Ok(s) => assert_eq!(s, "v1.2.0\n## Breaking Changes\n* new format\n## Bug Fixes\n* crash on start\n"),
        Err(TemplateError::Unresolved(n)) => panic!("unresolved {}", n),
    }
}

#[test]
fn document_without_template_line() {
    assert!(matches!(read("git_path: x\n"), Err(ConfigError::MissingTemplate)));
    assert!(matches!(read(""), Err(ConfigError::MissingTemplate)));
}

#[test]
fn document_with_empty_template() {
    assert!(matches!(read("template:\n"), Err(ConfigError::MissingTemplate)));
}

#[test]
fn document_malformed_lines() {
    for (d, bad) in [
        ("colour: red\ntemplate:\nx", "colour: red"),
        ("  git_path:   \ntemplate:\nx", "git_path:"),
        ("category: x feat F\ntemplate:\nx", "category: x feat F"),
        ("category: 1 fe-at F\ntemplate:\nx", "category: 1 fe-at F"),
        ("category: 1 feat\ntemplate:\nx", "category: 1 feat"),
        ("no colon here\ntemplate:\nx", "no colon here"),
        ("exclude: chore, docs\ntemplate:\nx", "exclude: chore, docs"),
    ] {
        match read(d) {
            Err(ConfigError::MalformedLine(l)) => assert_eq!(l, bad),
            _ => panic!("accepted {}", d),
        }
    }
}

#[test]
fn document_duplicate_label() {
    match read("category: 1 feat A\ncategory: 2 fix A\ntemplate:\nx") {
        Err(ConfigError::DuplicateLabel(l)) => assert_eq!(l, "A"),
        _ => panic!("duplicate accepted"),
    }
}

#[test]
fn document_later_setting_wins() {
    match read("git_path: a\ngit_path: b\ntemplate:\nx") {
        Ok(d) => assert_eq!(d.git_path.as_deref(), Some("b")),
        Err(_) => panic!("rejected"),
    }
}

#[test]
fn numerals() {
    assert_eq!(parse_numeral("0"), Some(0));
    assert_eq!(parse_numeral("042"), Some(42));
    assert_eq!(parse_numeral("18446744073709551615"), Some(u64::MAX));
    assert_eq!(parse_numeral("18446744073709551616"), None);
    assert_eq!(parse_numeral(""), None);
    assert_eq!(parse_numeral("1a"), None);
}

#[test]
fn category_values() {
    let r = parse_category("7 * Everything else").unwrap();
    assert!(matches!(r.matcher, RuleMatch::Any));
    assert_eq!(r.order, 7);
    assert_eq!(r.label, "Everything else");
    assert!(parse_category("7 *").is_none());
}
