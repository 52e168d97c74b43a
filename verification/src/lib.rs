//! Infers the next semantic version of a project from its commit history.
//!
//! The library parses conventional-commit messages, classifies each commit
//! into a bump category through an ordered rule map, collects the commits
//! that belong to the pending release, and renders release notes.

pub mod bump;
pub mod category;
pub mod changelog;
pub mod collector;
pub mod commit;
pub mod commit_info;
pub mod config;
pub mod errors;
pub mod manifest;
pub mod paths;
pub mod prune;
pub mod rules;
pub mod text;
pub mod version;

pub use bump::BumpRule;
pub use bump::BumpRuleParse;
pub use category::CommitType;
pub use changelog::aggregated_wf;
pub use changelog::ChangeLog;
pub use changelog::CommitGroup;
pub use collector::collect_changelog_commits;
pub use collector::collect_step;
pub use collector::should_stop_collecting;
pub use collector::CommitWithVersion;
pub use collector::StoppingContext;
pub use commit::CommitMessageParser;
pub use commit::ConventionalCommit;
pub use commit_info::CommitInfo;
pub use config::BumpRuleConfig;
pub use config::SemRel;
pub use config::SemRelConfig;
pub use config::rules_from_pairs;
pub use errors::ConfigError;
pub use errors::ConventionalCommitError;
pub use errors::ManifestError;
pub use errors::RepositoryError;
pub use manifest::manifest_search_order;
pub use manifest::CargoToml;
pub use manifest::ManifestObjectSafe;
pub use manifest::ManifestStatic;
pub use manifest::PackageJson;
pub use manifest::Pep621Package;
pub use manifest::PoetryPackage;
pub use manifest::PyProjectTool;
pub use manifest::PyProjectToml;
pub use manifest::SupportedManifest;
pub use paths::path_is_under;
pub use paths::relative_path_components;
pub use prune::prune_message;
pub use rules::build_default_rules;
pub use rules::bump_version;
pub use rules::compose_rules;
pub use rules::match_rule;
pub use rules::parse_rules;
pub use version::SimpleVersion;
pub use version::Ver;
pub use version::VersionError;
