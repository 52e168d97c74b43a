//! Error types surfaced by the engine and its collaborators. Every error
//! renders to a human-readable diagnostic through `message()`.

use vstd::prelude::*;

use crate::version::VersionError;

verus! {

#[derive(Debug, Clone, PartialEq, Eq)]
pub enum ConventionalCommitError {
    /// A category token that cannot be accepted under strict parsing.
    InvalidCommitType(String),
    /// The message does not match the commit grammar (strict parsing).
    InvalidCommitMessage(String),
    /// The scope names a standard category.
    ScopeIsCommitType(String),
    /// The repository could not provide a commit.
    InvalidRepositoryError(String),
    /// An internal parse step failed.
    InvalidParse(String),
    /// The message is empty once trimmed and filtered.
    EmptyCommitMessage,
}

#[derive(Debug, Clone, PartialEq, Eq)]
pub enum ManifestError {
    InvalidManifestPath(String),
    InvalidManifestVersion(VersionError),
    InvalidManifest(String),
    InvalidRepository(String),
    WriteError(String),
}

#[derive(Debug, Clone, PartialEq, Eq)]
pub enum RepositoryError {
    BlobNotFound(String, String),
    BlobToTextError(String, String),
    CommitDiffError(String),
    CommitTreeError(String),
    CouldNotOpenRepository(String),
    CommitNotFound(String),
    FileNotFound(String, String),
    InvalidRepositoryPath(String),
    InvalidRepository(String),
    NoHead(String),
    NoCommit(String),
    NoCommitMessage(String, String),
    NoParentCommit(String),
    NoTags(String),
    NoCommits(String),
    InvalidManifestPath(String),
    InvalidManifest(ManifestError),
    InvalidConventionalCommit(ConventionalCommitError),
    CouldNotReadFile(String),
    InvalidCommit(String),
}

#[derive(Debug, Clone, PartialEq, Eq)]
pub enum ConfigError {
    InvalidRepositoryError(RepositoryError),
    InvalidManifestError(ManifestError),
    InvalidConfig(String),
    ConfigNotFound(String),
    EmptyConfig(String),
}

// ---------------------------------------------------------------------------
// Diagnostics
// ---------------------------------------------------------------------------

pub open spec fn version_error_message(e: &VersionError) -> Seq<char> {
    match e {
        VersionError::InvalidVersionString(s) => "Invalid version string: "@ + s@,
        VersionError::InvalidVersionPart(s) => "Invalid version part: "@ + s@,
    }
}

pub open spec fn commit_error_message(e: &ConventionalCommitError) -> Seq<char> {
    match e {
        ConventionalCommitError::InvalidCommitType(s) => "Invalid commit type: "@ + s@,
        ConventionalCommitError::InvalidCommitMessage(s) => "Invalid commit message: "@ + s@,
        ConventionalCommitError::ScopeIsCommitType(s) => "Invalid scope: "@ + s@
            + ".  Do not use a standard conventional commit type as a scope."@,
        ConventionalCommitError::InvalidRepositoryError(s) => s@,
        ConventionalCommitError::InvalidParse(s) => "Invalid Parse: could not parse as "@ + s@
            + "."@,
        ConventionalCommitError::EmptyCommitMessage => "Empty commit message"@,
    }
}

pub open spec fn manifest_error_message(e: &ManifestError) -> Seq<char> {
    match e {
        ManifestError::InvalidManifestPath(s) => "Invalid manifest path: "@ + s@,
        ManifestError::InvalidManifestVersion(v) => "Invalid manifest version: "@
            + version_error_message(v),
        ManifestError::InvalidManifest(s) => "Invalid manifest: "@ + s@,
        ManifestError::InvalidRepository(s) => "Invalid repository: "@ + s@,
        ManifestError::WriteError(s) => "Invalid repository path: "@ + s@,
    }
}

pub open spec fn repository_error_message(e: &RepositoryError) -> Seq<char> {
    match e {
        RepositoryError::BlobNotFound(a, b) => "Failed to find repository: "@ + a@ + ". "@ + b@,
        RepositoryError::BlobToTextError(a, b) => "Failed to find blob in repository: "@ + a@
            + ". "@ + b@,
        RepositoryError::CommitDiffError(s) => "Failed to retrieve commit diff: "@ + s@,
        RepositoryError::CommitTreeError(s) => "Failed to retrieve commit tree: "@ + s@,
        RepositoryError::CouldNotOpenRepository(s) => "Could not open repository: "@ + s@,
        RepositoryError::CommitNotFound(s) => "Failed to find commit in repository: "@ + s@,
        RepositoryError::FileNotFound(a, b) => "Failed to find file in repository: "@ + a@ + ". "@
            + b@,
        RepositoryError::InvalidRepositoryPath(s) => "Invalid repository path: "@ + s@,
        RepositoryError::InvalidRepository(s) => "Invalid repository: "@ + s@,
        RepositoryError::NoHead(s) => "No HEAD found in repository: "@ + s@,
        RepositoryError::NoCommit(s) => "Failed to peel to commit in repository: "@ + s@,
        RepositoryError::NoCommitMessage(a, b) => "No commit message found in repository: "@ + a@
            + " with id "@ + b@,
        RepositoryError::NoParentCommit(s) => "No parent commit found for commit: "@ + s@,
        RepositoryError::NoTags(s) => "No tags found for commit: "@ + s@,
        RepositoryError::NoCommits(s) => "Failed to retrieve commits: "@ + s@,
        RepositoryError::InvalidManifestPath(s) => "Invalid manifest path: "@ + s@,
        RepositoryError::InvalidManifest(m) => manifest_error_message(m),
        RepositoryError::InvalidConventionalCommit(c) => commit_error_message(c),
        RepositoryError::CouldNotReadFile(s) => "Could not read file: "@ + s@,
        RepositoryError::InvalidCommit(s) => "Invalid commit: "@ + s@,
    }
}

pub open spec fn config_error_message(e: &ConfigError) -> Seq<char> {
    match e {
        ConfigError::InvalidRepositoryError(r) => repository_error_message(r),
        ConfigError::InvalidManifestError(m) => manifest_error_message(m),
        ConfigError::InvalidConfig(s) => "Invalid config: "@ + s@,
        ConfigError::ConfigNotFound(s) => "Invalid config path: "@ + s@,
        ConfigError::EmptyConfig(s) => "Empty config: "@ + s@,
    }
}

fn msg1(prefix: &str, a: &String) -> (r: String)
    ensures
        r@ == prefix@ + a@,
{
    let mut s = String::from_str(prefix);
    s.append(a.as_str());
    s
}

fn msg2(prefix: &str, a: &String, mid: &str, b: &String) -> (r: String)
    ensures
        r@ == prefix@ + a@ + mid@ + b@,
{
    let mut s = String::from_str(prefix);
    s.append(a.as_str());
    s.append(mid);
    s.append(b.as_str());
    s
}

fn msg1s(prefix: &str, a: &String, suffix: &str) -> (r: String)
    ensures
        r@ == prefix@ + a@ + suffix@,
{
    let mut s = String::from_str(prefix);
    s.append(a.as_str());
    s.append(suffix);
    s
}

impl VersionError {
    /// The human-readable diagnostic for this error.
    pub fn message(&self) -> (r: String)
        ensures
            r@ == version_error_message(self),
    {
        match self {
            VersionError::InvalidVersionString(s) => msg1("Invalid version string: ", s),
            VersionError::InvalidVersionPart(s) => msg1("Invalid version part: ", s),
        }
    }
}

impl ConventionalCommitError {
    /// The human-readable diagnostic for this error.
    pub fn message(&self) -> (r: String)
        ensures
            r@ == commit_error_message(self),
    {
        match self {
            ConventionalCommitError::InvalidCommitType(s) => msg1("Invalid commit type: ", s),
            ConventionalCommitError::InvalidCommitMessage(s) => msg1("Invalid commit message: ", s),
            ConventionalCommitError::ScopeIsCommitType(s) => msg1s(
                "Invalid scope: ",
                s,
                ".  Do not use a standard conventional commit type as a scope.",
            ),
            ConventionalCommitError::InvalidRepositoryError(s) => {
                let r = s.clone();
                r
            },
            ConventionalCommitError::InvalidParse(s) => msg1s(
                "Invalid Parse: could not parse as ",
                s,
                ".",
            ),
            ConventionalCommitError::EmptyCommitMessage => String::from_str("Empty commit message"),
        }
    }
}

impl ManifestError {
    /// The human-readable diagnostic for this error.
    pub fn message(&self) -> (r: String)
        ensures
            r@ == manifest_error_message(self),
    {
        match self {
            ManifestError::InvalidManifestPath(s) => msg1("Invalid manifest path: ", s),
            ManifestError::InvalidManifestVersion(v) => {
                let inner = v.message();
                let mut s = String::from_str("Invalid manifest version: ");
                s.append(inner.as_str());
                s
            },
            ManifestError::InvalidManifest(s) => msg1("Invalid manifest: ", s),
            ManifestError::InvalidRepository(s) => msg1("Invalid repository: ", s),
            ManifestError::WriteError(s) => msg1("Invalid repository path: ", s),
        }
    }
}

impl RepositoryError {
    /// The human-readable diagnostic for this error.
    pub fn message(&self) -> (r: String)
        ensures
            r@ == repository_error_message(self),
    {
        match self {
            RepositoryError::BlobNotFound(a, b) => msg2("Failed to find repository: ", a, ". ", b),
            RepositoryError::BlobToTextError(a, b) => msg2(
                "Failed to find blob in repository: ",
                a,
                ". ",
                b,
            ),
            RepositoryError::CommitDiffError(s) => msg1("Failed to retrieve commit diff: ", s),
            RepositoryError::CommitTreeError(s) => msg1("Failed to retrieve commit tree: ", s),
            RepositoryError::CouldNotOpenRepository(s) => msg1("Could not open repository: ", s),
            RepositoryError::CommitNotFound(s) => msg1("Failed to find commit in repository: ", s),
            RepositoryError::FileNotFound(a, b) => msg2(
                "Failed to find file in repository: ",
                a,
                ". ",
                b,
            ),
            RepositoryError::InvalidRepositoryPath(s) => msg1("Invalid repository path: ", s),
            RepositoryError::InvalidRepository(s) => msg1("Invalid repository: ", s),
            RepositoryError::NoHead(s) => msg1("No HEAD found in repository: ", s),
            RepositoryError::NoCommit(s) => msg1("Failed to peel to commit in repository: ", s),
            RepositoryError::NoCommitMessage(a, b) => msg2(
                "No commit message found in repository: ",
                a,
                " with id ",
                b,
            ),
            RepositoryError::NoParentCommit(s) => msg1("No parent commit found for commit: ", s),
            RepositoryError::NoTags(s) => msg1("No tags found for commit: ", s),
            RepositoryError::NoCommits(s) => msg1("Failed to retrieve commits: ", s),
            RepositoryError::InvalidManifestPath(s) => msg1("Invalid manifest path: ", s),
            RepositoryError::InvalidManifest(m) => m.message(),
            RepositoryError::InvalidConventionalCommit(c) => c.message(),
            RepositoryError::CouldNotReadFile(s) => msg1("Could not read file: ", s),
            RepositoryError::InvalidCommit(s) => msg1("Invalid commit: ", s),
        }
    }
}

impl ConfigError {
    /// The human-readable diagnostic for this error.
    pub fn message(&self) -> (r: String)
        ensures
            r@ == config_error_message(self),
    {
        match self {
            ConfigError::InvalidRepositoryError(r) => r.message(),
            ConfigError::InvalidManifestError(m) => m.message(),
            ConfigError::InvalidConfig(s) => msg1("Invalid config: ", s),
            ConfigError::ConfigNotFound(s) => msg1("Invalid config path: ", s),
            ConfigError::EmptyConfig(s) => msg1("Empty config: ", s),
        }
    }
}

} // verus!
