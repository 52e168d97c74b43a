use semrel::build_default_rules;
use semrel::bump_version;
use semrel::compose_rules;
use semrel::match_rule;
use semrel::parse_rules;
use semrel::BumpRule;
use semrel::BumpRuleConfig;
use semrel::CommitType;
use semrel::SemRelConfig;
use semrel::SimpleVersion;

#[test]
fn test_parse_rules() {
    let cases: Vec<(Vec<&str>, Vec<(CommitType, BumpRule)>)> = vec![
        (vec!["build=major"], vec![(CommitType::Build, BumpRule::Major)]),
        (
            vec!["build=major,fix=minor"],
            vec![(CommitType::Build, BumpRule::Major), (CommitType::Fix, BumpRule::Minor)],
        ),
        (
            vec!["build=major", "fix=minor"],
            vec![(CommitType::Build, BumpRule::Major), (CommitType::Fix, BumpRule::Minor)],
        ),
    ];
    for (args, expected) in cases {
        let args: Vec<String> = args.into_iter().map(str::to_string).collect();
        let rules = parse_rules(&args).unwrap();
        assert_eq!(rules, expected, "args {args:?}");
    }
}

#[test]
fn test_parse_rules_errors() {
    for args in [vec!["build=invalid"], vec!["build"], vec!["build=major,fix=invalid"]] {
        let args: Vec<String> = args.into_iter().map(str::to_string).collect();
        assert!(parse_rules(&args).is_err(), "expected error for {args:?}");
    }
}

#[test]
fn test_bump_version() {
    let defaults = build_default_rules();
    let cases: Vec<(&str, &str)> = vec![
        ("", "1.0.0"),
        ("build", "1.0.0"),
        ("chore", "1.0.1"),
        ("ci", "1.0.0"),
        ("cd", "1.0.0"),
        ("docs", "1.0.0"),
        ("feat", "1.1.0"),
        ("fix", "1.0.1"),
        ("perf", "1.0.1"),
        ("refactor", "1.0.1"),
        ("revert", "1.0.1"),
        ("style", "1.0.1"),
        ("test", "1.0.0"),
    ];
    let base = SimpleVersion::new(1, 0, 0);
    for (name, expected) in cases {
        let ct = CommitType::from_name(name);
        let bumped = bump_version(&defaults, &ct, &base);
        assert_eq!(bumped.to_text(), expected, "category {name:?}");
    }
    let custom = vec![(CommitType::Custom("ENG-2345".to_string()), BumpRule::Major)];
    let ct = CommitType::from_name("ENG-2345");
    assert_eq!(bump_version(&custom, &ct, &base).to_text(), "2.0.0");
}

#[test]
fn test_match_rule_first_match_wins() {
    let rules = vec![
        (CommitType::Chore, BumpRule::Minor),
        (CommitType::Chore, BumpRule::NoBump),
        (CommitType::Fix, BumpRule::Patch),
    ];
    assert_eq!(match_rule(&rules, &CommitType::Chore), BumpRule::Minor);
    assert_eq!(match_rule(&rules, &CommitType::Fix), BumpRule::Patch);
    assert_eq!(match_rule(&rules, &CommitType::Docs), BumpRule::Notset);
}

#[test]
fn test_custom_rule_equality_is_textual() {
    let rules = vec![(CommitType::Custom("alpha".to_string()), BumpRule::Major)];
    assert_eq!(match_rule(&rules, &CommitType::Custom("alpha".to_string())), BumpRule::Major);
    assert_eq!(match_rule(&rules, &CommitType::Custom("beta".to_string())), BumpRule::Notset);
}

#[test]
fn test_rule_precedence() {
    // highest first: CLI, then configuration, then the defaults
    let cli = vec![(CommitType::Chore, BumpRule::Minor)];
    let config = vec![(CommitType::Chore, BumpRule::NoBump)];
    let defaults = build_default_rules();
    let composed = compose_rules(&cli, &config, &defaults);
    assert_eq!(match_rule(&composed, &CommitType::Chore), BumpRule::Minor);
    // a category the CLI does not name is untouched
    assert_eq!(match_rule(&composed, &CommitType::Feat), BumpRule::Minor);
    assert_eq!(match_rule(&composed, &CommitType::Docs), BumpRule::NoBump);
}

#[test]
fn test_bump_rule_config() {
    let mut cfg = BumpRuleConfig::default();
    assert!(cfg.is_empty());
    cfg.add(CommitType::Feat, BumpRule::Major);
    cfg.add(CommitType::Fix, BumpRule::Patch);
    cfg.add(CommitType::Feat, BumpRule::Minor);
    assert_eq!(cfg.iter().len(), 2);
    assert_eq!(cfg.iter()[0], (CommitType::Feat, BumpRule::Minor));
    assert_eq!(cfg.iter()[1], (CommitType::Fix, BumpRule::Patch));
    cfg.remove(CommitType::Feat);
    assert_eq!(cfg.iter().len(), 1);
    assert_eq!(cfg.iter()[0], (CommitType::Fix, BumpRule::Patch));
}

#[test]
fn test_semrel_config() {
    let mut cfg = SemRelConfig::default();
    assert!(!cfg.has_rules());
    cfg.extend_rules(&vec![(CommitType::Chore, BumpRule::NoBump)]);
    assert!(cfg.has_rules());
    assert_eq!(cfg.rules(), vec![(CommitType::Chore, BumpRule::NoBump)]);
}

#[test]
fn test_rules_from_pairs() {
    let pairs = vec![
        ("feat".to_string(), "minor".to_string()),
        ("chore".to_string(), "none".to_string()),
    ];
    let rules = semrel::rules_from_pairs(&pairs).unwrap();
    assert_eq!(
        rules,
        vec![(CommitType::Feat, BumpRule::Minor), (CommitType::Chore, BumpRule::NoBump)],
    );
    let bad = vec![("feat".to_string(), "sideways".to_string())];
    assert!(semrel::rules_from_pairs(&bad).is_err());
}
