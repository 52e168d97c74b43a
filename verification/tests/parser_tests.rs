use semrel::CommitType;
use semrel::ConventionalCommit;
use semrel::ConventionalCommitError;

#[test]
fn test_convert_commit_type() {
    let cases: Vec<(&str, CommitType)> = vec![
        ("", CommitType::Custom("".to_string())),
        ("build", CommitType::Build),
        ("chore", CommitType::Chore),
        ("ci", CommitType::Ci),
        ("cd", CommitType::Cd),
        ("docs", CommitType::Docs),
        ("Feat", CommitType::Feat),
        ("feat", CommitType::Feat),
        ("fEAT", CommitType::Feat),
        ("fix", CommitType::Fix),
        ("perf", CommitType::Perf),
        ("refactor", CommitType::Refactor),
        ("style", CommitType::Style),
        ("test", CommitType::Test),
        ("ENG-2345", CommitType::Custom("ENG-2345".to_string())),
    ];
    for (input, expected) in cases {
        assert_eq!(CommitType::from_name(input), expected, "input {input:?}");
    }
}

#[test]
fn test_commit_type_strings() {
    assert_eq!(CommitType::Feat.as_str(), "feat");
    assert_eq!(CommitType::NonCompliant.as_str(), "NonCompliant");
    assert_eq!(CommitType::Custom("ENG-1".to_string()).as_str(), "ENG-1");
    assert_eq!(CommitType::Feat.as_release_note(), "Features");
    assert_eq!(CommitType::Ci.as_release_note(), "Continuous Integration");
    assert_eq!(CommitType::Cd.as_release_note(), "Deployment");
    assert_eq!(CommitType::Docs.as_release_note(), "Documentation");
    assert_eq!(CommitType::NonCompliant.as_release_note(), "Non Compliant");
}

#[test]
fn test_commit_message_parser() {
    // (message, category, scope, subject, body, footer)
    let cases: Vec<(&str, CommitType, &str, &str, &str, &str)> = vec![
        ("ci(core): add commit message parser", CommitType::Ci, "core", "add commit message parser", "", ""),
        ("ci: add commit message parser", CommitType::Ci, "", "add commit message parser", "", ""),
        ("feat: add commit message parser", CommitType::Feat, "", "add commit message parser", "", ""),
        ("build: add commit message parser", CommitType::Build, "", "add commit message parser", "", ""),
        ("add commit message parser", CommitType::NonCompliant, "", "add commit message parser", "", ""),
        (
            "add commit message parser\n\nThis is a multi-line commit message",
            CommitType::NonCompliant,
            "",
            "add commit message parser",
            "This is a multi-line commit message",
            "",
        ),
        (
            "Ignore changes from Black -> Ruff (#4032)",
            CommitType::NonCompliant,
            "",
            "Ignore changes from Black -> Ruff (#4032)",
            "",
            "",
        ),
        (
            "chore(package): upgrade ruff (#4031)\n\n\n* chore(package): upgrade ruff\n\n- chore(deps): removes black and isort\n- chore(style): run ruff\n- chore(lint): fix linting\n\n* chore(ci): update ci to use ruff format\n",
            CommitType::Chore,
            "package",
            "upgrade ruff (#4031)",
            "* chore(package): upgrade ruff\n\n- chore(deps): removes black and isort\n- chore(style): run ruff\n- chore(lint): fix linting",
            "* chore(ci): update ci to use ruff format",
        ),
        (
            "feat: add commit message parser\n\nBREAKING CHANGE: this is a breaking change",
            CommitType::Feat,
            "",
            "add commit message parser",
            "",
            "this is a breaking change",
        ),
    ];
    for (message, commit_type, scope, subject, body, footer) in cases {
        let commit = ConventionalCommit::new(message).unwrap();
        let expected_scope = if scope.is_empty() { None } else { Some(scope.to_string()) };
        assert_eq!(commit.commit_type, commit_type, "category of {message:?}");
        assert_eq!(commit.scope, expected_scope, "scope of {message:?}");
        assert_eq!(commit.subject, subject, "subject of {message:?}");
        assert_eq!(commit.body.clone().unwrap_or_default(), body, "body of {message:?}");
        assert_eq!(commit.footer.clone().unwrap_or_default(), footer, "footer of {message:?}");
    }
}

#[test]
fn test_commit_parser_unhappy_paths() {
    let result = ConventionalCommit::new("");
    assert!(result.is_err());
    assert_eq!(result.unwrap_err(), ConventionalCommitError::EmptyCommitMessage);
}

#[test]
fn test_breaking_change_markers() {
    let cases: Vec<(&str, bool)> = vec![
        ("fix: a fix", false),
        ("fix!: a fix", true),
        ("fix!!!!: a fix", true),
        ("!fix: a fix", true),
        ("!fix(component): a fix", true),
        ("fix(component)!: a fix", true),
        ("!fix(component)!: a fix", true),
        ("fix: a fix\n\nBREAKING CHANGE: This introduces a breaking change.", true),
        ("fix(api): tidy\n\nBREAKING CHANGE: removed /v1", true),
    ];
    for (message, breaking) in cases {
        let commit = ConventionalCommit::new(message).unwrap();
        assert_eq!(commit.is_breaking(), breaking, "breaking flag of {message:?}");
    }
}

#[test]
fn test_breaking_footer_value_is_replaced() {
    let commit = ConventionalCommit::new("fix(api): tidy\n\nBREAKING CHANGE: removed /v1").unwrap();
    assert!(commit.is_breaking());
    assert_eq!(commit.footer.as_deref(), Some("removed /v1"));
    assert_eq!(commit.body, None);
}

#[test]
fn test_scope_naming_category_falls_back() {
    let commit = ConventionalCommit::new("fix(fix): a fix").unwrap();
    assert_eq!(commit.commit_type, CommitType::NonCompliant);
    assert_eq!(commit.scope, None);
    assert_eq!(commit.subject, "fix(fix): a fix");
}

#[test]
fn test_strict_parse_errors() {
    assert!(matches!(
        ConventionalCommit::parse_strict("fix(fix): a fix"),
        Err(ConventionalCommitError::ScopeIsCommitType(_))
    ));
    assert!(matches!(
        ConventionalCommit::parse_strict("not a conventional header"),
        Err(ConventionalCommitError::InvalidCommitMessage(_))
    ));
    assert!(matches!(
        ConventionalCommit::parse_strict("ENG-2345: updated dependencies"),
        Err(ConventionalCommitError::InvalidCommitType(_))
    ));
    assert!(matches!(
        ConventionalCommit::parse_strict("   "),
        Err(ConventionalCommitError::EmptyCommitMessage)
    ));
    let ok = ConventionalCommit::parse_strict("feat(api): add things").unwrap();
    assert_eq!(ok.commit_type, CommitType::Feat);
    assert_eq!(ok.scope.as_deref(), Some("api"));
}

#[test]
fn test_plumbing_headers_stripped() {
    let message = "author Jane <jane@ex.com> 1700000000 +0000\ncommitter Jane <jane@ex.com> 1700000000 +0000\ntree 1a2b3c4d5e6f\nparent deadbeefcafe\n\nfeat: new thing";
    let commit = ConventionalCommit::new(message).unwrap();
    assert_eq!(commit.commit_type, CommitType::Feat);
    assert_eq!(commit.subject, "new thing");
    assert_eq!(commit.body, None);
    assert_eq!(commit.footer, None);
}

#[test]
fn test_merge_subject_preserved() {
    let message = "Merge pull request #123 from user/branch\n\nchore(package): upgrade ruff (#4031)\n\n* chore(package): upgrade ruff";
    let commit = ConventionalCommit::new(message).unwrap();
    assert_eq!(commit.commit_type, CommitType::NonCompliant);
    assert_eq!(commit.subject, "Merge pull request #123 from user/branch");
    assert_eq!(commit.body.as_deref(), Some("chore(package): upgrade ruff (#4031)"));
    assert_eq!(commit.footer.as_deref(), Some("* chore(package): upgrade ruff"));
}

#[test]
fn test_prune_message() {
    let cases: Vec<(&str, &str)> = vec![
        ("", ""),
        ("\n\nchore: test the empty header", "chore: test the empty header"),
        ("chore: test the empty footer\n\n", "chore: test the empty footer"),
        ("           chore: test the spaced header", "chore: test the spaced header"),
        ("tree 1a2b3c4d5e6f\nchore: after the tree", "chore: after the tree"),
        ("parent deadbeefcafe\nchore: after the parent", "chore: after the parent"),
        // a subject that merely starts with a keyword is preserved
        ("Commit to quality", "Commit to quality"),
        ("Merge pull request #1 from a/b", "Merge pull request #1 from a/b"),
    ];
    for (input, expected) in cases {
        assert_eq!(semrel::prune_message(input), expected, "input {input:?}");
    }
}

#[test]
fn test_message_round_trip() {
    for message in [
        "feat: add commit message parser",
        "fix(api): tidy\n\nBREAKING CHANGE: removed /v1",
        "add commit message parser\n\nThis is a multi-line commit message",
        "chore(package): upgrade ruff (#4031)\n\n* chore(package): upgrade ruff\n\n- chore(deps): removes black\n\n* chore(ci): update ci",
        "fix!: a fix",
    ] {
        let once = ConventionalCommit::new(message).unwrap();
        let again = ConventionalCommit::new(&once.message()).unwrap();
        assert_eq!(once, again, "round trip of {message:?}");
    }
}
