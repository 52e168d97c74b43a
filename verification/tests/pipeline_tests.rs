use semrel::build_default_rules;
use semrel::collect_changelog_commits;
use semrel::collect_step;
use semrel::should_stop_collecting;
use semrel::BumpRule;
use semrel::ChangeLog;
use semrel::CommitInfo;
use semrel::CommitType;
use semrel::CommitWithVersion;
use semrel::ConventionalCommit;
use semrel::SimpleVersion;
use semrel::StoppingContext;

fn commit(message: &str, files: &[&str], id: &str, ts: u64) -> CommitInfo {
    let parsed = ConventionalCommit::new(message).unwrap();
    CommitInfo::new(
        id.to_string(),
        files.iter().map(|f| f.to_string()).collect(),
        parsed,
        ts,
    )
}

fn plain(message: &str, id: &str) -> CommitWithVersion {
    CommitWithVersion { commit_info: commit(message, &["src/lib.rs"], id, 2), version_at_commit: None }
}

fn boundary(message: &str, id: &str, version: SimpleVersion) -> CommitWithVersion {
    CommitWithVersion {
        commit_info: commit(message, &["Cargo.toml"], id, 1),
        version_at_commit: Some(version),
    }
}

#[test]
fn single_feature_on_top_of_initial_release() {
    // newest first: a feature, then the release that recorded 0.1.0
    let history = vec![
        plain("feat: add X", "c2"),
        boundary("chore: init", "c1", SimpleVersion::new(0, 1, 0)),
    ];
    let current = SimpleVersion::new(0, 1, 0);
    let rules = build_default_rules();
    let collected = collect_changelog_commits(&history, &current, &rules);
    assert_eq!(collected.len(), 1);
    assert_eq!(collected[0].id, "c2");
    let log = ChangeLog::new(current, collected);
    assert_eq!(log.next_version(&rules), SimpleVersion::new(0, 2, 0));
}

#[test]
fn breaking_change_in_body_forces_major() {
    let history = vec![
        plain("fix(api): tidy\n\nBREAKING CHANGE: removed /v1", "c2"),
        boundary("chore: init", "c1", SimpleVersion::new(0, 1, 0)),
    ];
    let current = SimpleVersion::new(0, 1, 0);
    let rules = build_default_rules();
    assert!(history[0].commit_info.commit.is_breaking());
    let collected = collect_changelog_commits(&history, &current, &rules);
    let log = ChangeLog::new(current, collected);
    assert_eq!(log.next_version(&rules), SimpleVersion::new(1, 0, 0));
}

#[test]
fn major_walks_past_minor_boundaries() {
    // max bump reaches Major, so the minor anchors 0.3.0 / 0.2.0 / 0.1.0 are
    // crossed and collection runs to the end of the history
    let history = vec![
        plain("feat!: break the API", "c6"),
        plain("fix: patch one", "c5"),
        boundary("chore(release): 0.3.0", "c4", SimpleVersion::new(0, 3, 0)),
        plain("fix: patch two", "c3"),
        boundary("chore(release): 0.2.0", "c2", SimpleVersion::new(0, 2, 0)),
        boundary("chore(release): 0.1.0", "c1", SimpleVersion::new(0, 1, 0)),
    ];
    let current = SimpleVersion::new(0, 3, 0);
    let rules = build_default_rules();
    let collected = collect_changelog_commits(&history, &current, &rules);
    assert_eq!(collected.len(), 6, "no boundary is a major anchor, so everything is collected");
    let log = ChangeLog::new(current, collected);
    assert_eq!(log.next_version(&rules), SimpleVersion::new(1, 0, 0));
}

#[test]
fn patch_stops_at_first_older_boundary() {
    let history = vec![
        plain("fix: patch one", "c3"),
        boundary("chore(release): 0.2.9", "c2", SimpleVersion::new(0, 2, 9)),
        plain("fix: earlier work", "c1"),
    ];
    let current = SimpleVersion::new(0, 3, 0);
    let rules = build_default_rules();
    let collected = collect_changelog_commits(&history, &current, &rules);
    assert_eq!(collected.len(), 1);
    assert_eq!(collected[0].id, "c3");
}

#[test]
fn minor_needs_minor_anchor() {
    let history = vec![
        plain("feat: new thing", "c4"),
        boundary("chore(release): 0.2.9", "c3", SimpleVersion::new(0, 2, 9)),
        plain("fix: old patch", "c2"),
        boundary("chore(release): 0.2.0", "c1", SimpleVersion::new(0, 2, 0)),
    ];
    let current = SimpleVersion::new(0, 3, 0);
    let rules = build_default_rules();
    let collected = collect_changelog_commits(&history, &current, &rules);
    // 0.2.9 is not a minor anchor; 0.2.0 is, and the walk stops there
    assert_eq!(collected.len(), 3);
    let log = ChangeLog::new(current, collected);
    assert_eq!(log.next_version(&rules), SimpleVersion::new(0, 4, 0));
}

#[test]
fn boundary_above_current_is_collected() {
    let history = vec![
        boundary("chore(release): 0.4.0", "c2", SimpleVersion::new(0, 4, 0)),
        plain("fix: the fix", "c1"),
    ];
    let current = SimpleVersion::new(0, 3, 0);
    let rules = build_default_rules();
    let collected = collect_changelog_commits(&history, &current, &rules);
    assert_eq!(collected.len(), 2);
}

#[test]
fn step_matches_batch_collection() {
    let history = vec![
        plain("feat: new thing", "c3"),
        boundary("chore(release): 0.1.0", "c1", SimpleVersion::new(0, 1, 0)),
        plain("fix: never reached", "c0"),
    ];
    let current = SimpleVersion::new(0, 1, 0);
    let rules = build_default_rules();
    let batch = collect_changelog_commits(&history, &current, &rules);

    let mut context = StoppingContext {
        current_version: current,
        max_bump_so_far: BumpRule::Notset,
        commits_collected: Vec::new(),
    };
    for item in &history {
        if collect_step(&mut context, item, &rules) {
            break;
        }
    }
    assert_eq!(context.commits_collected, batch);
    assert_eq!(context.max_bump_so_far, BumpRule::Minor);
}

#[test]
fn stopping_rule_by_strength() {
    let rules = build_default_rules();
    let minor_anchor = boundary("chore(release): 0.2.0", "b", SimpleVersion::new(0, 2, 0));
    let patch_anchor = boundary("chore(release): 0.2.9", "b", SimpleVersion::new(0, 2, 9));
    let mut context = StoppingContext {
        current_version: SimpleVersion::new(0, 3, 0),
        max_bump_so_far: BumpRule::Major,
        commits_collected: Vec::new(),
    };
    assert!(!should_stop_collecting(&context, &minor_anchor, &rules));
    context.max_bump_so_far = BumpRule::Minor;
    assert!(should_stop_collecting(&context, &minor_anchor, &rules));
    assert!(!should_stop_collecting(&context, &patch_anchor, &rules));
    context.max_bump_so_far = BumpRule::Patch;
    assert!(should_stop_collecting(&context, &patch_anchor, &rules));
}

#[test]
fn commit_bump_rules() {
    let rules = build_default_rules();
    let breaking = commit("feat!: break", &[], "a", 1);
    assert_eq!(breaking.rule(&rules), BumpRule::Major);
    let feature = commit("feat: ok", &[], "b", 1);
    assert_eq!(feature.rule(&rules), BumpRule::Minor);
    let unknown = commit("ENG-1: mystery", &[], "c", 1);
    assert_eq!(unknown.rule(&rules), BumpRule::Notset);
}

#[test]
fn commit_info_builders() {
    let c = commit("feat: x", &["a.txt"], "id1", 7);
    assert!(c.contains("a.txt"));
    assert!(!c.contains("b.txt"));
    let c = c.with_id("id2".to_string()).add_file("b.txt".to_string());
    assert_eq!(c.id, "id2");
    assert!(c.contains("b.txt"));
    let c = c.extend_files(&vec!["c.txt".to_string()]);
    assert!(c.contains("c.txt"));
    assert_eq!(c.timestamp, 7);
    assert_eq!(c.message(), "feat: x");
}

#[test]
fn release_notes_document() {
    let rules = build_default_rules();
    let changes = vec![
        commit("feat(api): second endpoint", &[], "c4", 4),
        commit("feat(api): first endpoint", &[], "c3", 3),
        commit("feat: core feature", &[], "c2", 2),
        commit("fix: a fix", &[], "c1", 1),
        commit("semrel: release bookkeeping", &[], "c0", 0),
    ];
    let log = ChangeLog::new(SimpleVersion::new(1, 0, 0), changes);
    let notes = log.release_notes_on(&rules, 2021, 1, 1);
    let expected = "# Release notes: 1.1.0 (2021-01-01)\n\
        \n\
        \n## Features\n\
        - core feature\n\
        \n### api\n\
        - second endpoint\n\
        - first endpoint\n\
        \n\
        \n## Fixes\n\
        - a fix\n";
    assert_eq!(notes, expected);
}

#[test]
fn aggregation_orders_categories_and_scopes() {
    let changes = vec![
        commit("docs: document", &[], "c5", 5),
        commit("fix(zeta): z fix", &[], "c4", 4),
        commit("fix(alpha): a fix", &[], "c3", 3),
        commit("feat: core", &[], "c2", 2),
        commit("fix(alpha): older a fix", &[], "c1", 1),
    ];
    let log = ChangeLog::new(SimpleVersion::new(1, 0, 0), changes);
    let groups = log.aggregated_commits();
    assert_eq!(groups.len(), 3);
    assert_eq!(groups[0].commit_type, CommitType::Feat);
    assert_eq!(groups[1].commit_type, CommitType::Fix);
    assert_eq!(groups[2].commit_type, CommitType::Docs);
    let fix_scopes: Vec<&str> = groups[1].scopes.iter().map(|s| s.0.as_str()).collect();
    assert_eq!(fix_scopes, vec!["alpha", "zeta"]);
    let alpha_ids: Vec<&str> = groups[1].scopes[0].1.iter().map(|c| c.id.as_str()).collect();
    assert_eq!(alpha_ids, vec!["c3", "c1"], "newest first within a scope");
}

#[test]
fn next_version_is_order_insensitive() {
    let rules = build_default_rules();
    let a = vec![
        commit("feat: one", &[], "c1", 1),
        commit("fix: two", &[], "c2", 2),
        commit("docs: three", &[], "c3", 3),
    ];
    let b = vec![
        commit("docs: three", &[], "c3", 3),
        commit("fix: two", &[], "c2", 2),
        commit("feat: one", &[], "c1", 1),
    ];
    let log_a = ChangeLog::new(SimpleVersion::new(2, 1, 0), a);
    let log_b = ChangeLog::new(SimpleVersion::new(2, 1, 0), b);
    assert_eq!(log_a.next_version(&rules), log_b.next_version(&rules));
    assert_eq!(log_a.next_version(&rules), SimpleVersion::new(2, 2, 0));
}

#[test]
fn release_notes_dated_today() {
    let rules = build_default_rules();
    let changes = vec![commit("feat: fresh", &[], "c1", 1)];
    let log = ChangeLog::new(SimpleVersion::new(1, 0, 0), changes);
    let notes = log.release_notes(&rules);
    assert!(notes.starts_with("# Release notes: 1.1.0 ("));
    assert!(notes.contains("## Features"));
    assert!(notes.contains("- fresh"));
}
