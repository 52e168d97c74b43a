//! Project manifests. Each supported manifest is modelled by what the
//! version logic reads from it — the version string of its well-known
//! field — extracted through a small trusted call into the format's
//! parser; everything decided on that value is verified.

use vstd::prelude::*;

use crate::errors::ManifestError;
use crate::text::contains_seq;
use crate::text::contains_str;
use crate::text::str_to_chars;
use crate::version::parse_version_spec;
use crate::version::SimpleVersion;

verus! {

// ---------------------------------------------------------------------------
// Trusted extraction of the raw version fields
// ---------------------------------------------------------------------------

/// What TOML parsing yields for a Cargo manifest: an error text when the
/// document is malformed, otherwise the `package.version` string if any.
pub uninterp spec fn cargo_version_field(data: Seq<char>) -> Result<Option<Seq<char>>, Seq<char>>;

/// Relies on `toml::from_str::<toml::Value>` and `toml::Value::get` /
/// `as_str`: parsing is a function of the text alone, and the call reads
/// the `package.version` string of the document.
#[verifier::external_body]
fn read_cargo_version_field(data: &str) -> (r: Result<Option<String>, String>)
    ensures
        (match r {
            Ok(Some(v)) => cargo_version_field(data@) == Ok::<Option<Seq<char>>, Seq<char>>(
                Some(v@),
            ),
            Ok(None) => cargo_version_field(data@) == Ok::<Option<Seq<char>>, Seq<char>>(None),
            Err(e) => cargo_version_field(data@) == Err::<Option<Seq<char>>, Seq<char>>(e@),
        }),
{
    match toml::from_str::<toml::Value>(data) {
        Ok(doc) => Ok(
            doc.get("package").and_then(|p| p.get("version")).and_then(|v| v.as_str()).map(
                |s| s.to_string(),
            ),
        ),
        Err(e) => Err(e.to_string()),
    }
}

/// What TOML parsing yields for a Python project manifest: an error text
/// when malformed, otherwise the `project.version` and
/// `tool.poetry.version` strings if any.
pub uninterp spec fn pyproject_version_fields(data: Seq<char>) -> Result<
    (Option<Seq<char>>, Option<Seq<char>>),
    Seq<char>,
>;

pub open spec fn opt_seq_of(o: Option<String>) -> Option<Seq<char>> {
    match o {
        Some(s) => Some(s@),
        None => None,
    }
}

/// Relies on `toml::from_str::<toml::Value>` and `toml::Value::get` /
/// `as_str`: parsing is a function of the text alone, and the call reads
/// the `project.version` and `tool.poetry.version` strings.
#[verifier::external_body]
fn read_pyproject_version_fields(data: &str) -> (r: Result<(Option<String>, Option<String>), String>)
    ensures
        (match r {
            Ok(pair) => pyproject_version_fields(data@) == Ok::<
                (Option<Seq<char>>, Option<Seq<char>>),
                Seq<char>,
            >((opt_seq_of(pair.0), opt_seq_of(pair.1))),
            Err(e) => pyproject_version_fields(data@) == Err::<
                (Option<Seq<char>>, Option<Seq<char>>),
                Seq<char>,
            >(e@),
        }),
{
    match toml::from_str::<toml::Value>(data) {
        Ok(doc) => {
            let pep = doc.get("project").and_then(|p| p.get("version")).and_then(
                |v| v.as_str(),
            ).map(|s| s.to_string());
            let poetry = doc.get("tool").and_then(|t| t.get("poetry")).and_then(
                |p| p.get("version"),
            ).and_then(|v| v.as_str()).map(|s| s.to_string());
            Ok((pep, poetry))
        },
        Err(e) => Err(e.to_string()),
    }
}

/// What JSON parsing yields for an npm manifest: an error text when
/// malformed, otherwise the top-level `version` string if any.
pub uninterp spec fn package_json_version_field(data: Seq<char>) -> Result<
    Option<Seq<char>>,
    Seq<char>,
>;

/// Relies on `serde_json::from_str::<serde_json::Value>` and
/// `serde_json::Value::get` / `as_str`: parsing is a function of the text
/// alone, and the call reads the top-level `version` string.
#[verifier::external_body]
fn read_package_json_version_field(data: &str) -> (r: Result<Option<String>, String>)
    ensures
        (match r {
            Ok(Some(v)) => package_json_version_field(data@) == Ok::<Option<Seq<char>>, Seq<char>>(
                Some(v@),
            ),
            Ok(None) => package_json_version_field(data@) == Ok::<Option<Seq<char>>, Seq<char>>(
                None,
            ),
            Err(e) => package_json_version_field(data@) == Err::<Option<Seq<char>>, Seq<char>>(e@),
        }),
{
    match serde_json::from_str::<serde_json::Value>(data) {
        Ok(doc) => Ok(doc.get("version").and_then(|v| v.as_str()).map(|s| s.to_string())),
        Err(e) => Err(e.to_string()),
    }
}

// ---------------------------------------------------------------------------
// Manifest traits
// ---------------------------------------------------------------------------

pub trait ManifestStatic {
    /// The file name this manifest format lives under.
    fn manifest_filename() -> (r: &'static str);
}

pub trait ManifestObjectSafe {
    /// The version the manifest records.
    fn version(&self) -> (r: Result<SimpleVersion, ManifestError>);

    /// Replaces the recorded version.
    fn set_version(&mut self, version: SimpleVersion) -> (r: Result<(), ManifestError>);
}

// ---------------------------------------------------------------------------
// Cargo manifests
// ---------------------------------------------------------------------------

/// The decision the version logic takes on a Cargo manifest text.
pub open spec fn cargo_parse_spec(data: Seq<char>) -> Result<SimpleVersion, Seq<char>> {
    if data.len() == 0 {
        Err("Manifest is empty!"@)
    } else {
        match cargo_version_field(data) {
            Err(e) => Err(e),
            Ok(None) => Err("Missing package version"@),
            Ok(Some(vs)) => match parse_version_spec(vs) {
                Err(_) => Err("Invalid version"@),
                Ok(v) => if v == (SimpleVersion { major: 0, minor: 0, patch: 0 }) {
                    Err("Invalid version"@)
                } else {
                    Ok(v)
                },
            },
        }
    }
}

/// A Cargo manifest, modelled by the version it records.
#[derive(Debug, Clone, PartialEq, Eq, Structural)]
pub struct CargoToml {
    pub version: SimpleVersion,
}

impl CargoToml {
    pub fn new(version: SimpleVersion) -> (r: Self)
        ensures
            r.version == version,
    {
        CargoToml { version }
    }

    /// Parses manifest text: rejects an empty or malformed document, a
    /// missing or malformed version, and the all-zero version.
    pub fn parse(data: &str) -> (r: Result<CargoToml, ManifestError>)
        ensures
            (match r {
                Ok(m) => cargo_parse_spec(data@) == Ok::<SimpleVersion, Seq<char>>(m.version),
                Err(e) => e is InvalidManifest && cargo_parse_spec(data@) == Err::<
                    SimpleVersion,
                    Seq<char>,
                >(e->InvalidManifest_0@),
            }),
    {
        if data.unicode_len() == 0 {
            return Err(ManifestError::InvalidManifest(String::from_str("Manifest is empty!")));
        }
        match read_cargo_version_field(data) {
            Err(e) => Err(ManifestError::InvalidManifest(e)),
            Ok(None) => Err(
                ManifestError::InvalidManifest(String::from_str("Missing package version")),
            ),
            Ok(Some(vs)) => match SimpleVersion::parse(vs.as_str()) {
                Err(_) => Err(ManifestError::InvalidManifest(String::from_str("Invalid version"))),
                Ok(v) => {
                    if v.major == 0 && v.minor == 0 && v.patch == 0 {
                        Err(ManifestError::InvalidManifest(String::from_str("Invalid version")))
                    } else {
                        Ok(CargoToml { version: v })
                    }
                },
            },
        }
    }
}

impl ManifestStatic for CargoToml {
    fn manifest_filename() -> (r: &'static str) {
        "Cargo.toml"
    }
}

impl ManifestObjectSafe for CargoToml {
    fn version(&self) -> (r: Result<SimpleVersion, ManifestError>)
        ensures
            r == Ok::<SimpleVersion, ManifestError>(self.version),
    {
        Ok(self.version)
    }

    fn set_version(&mut self, version: SimpleVersion) -> (r: Result<(), ManifestError>)
        ensures
            final(self).version == version,
            r is Ok,
    {
        self.version = version;
        Ok(())
    }
}

impl Default for CargoToml {
    fn default() -> (r: Self)
        ensures
            r.version == (SimpleVersion { major: 0u64, minor: 1u64, patch: 0u64 }),
    {
        CargoToml { version: SimpleVersion { major: 0, minor: 1, patch: 0 } }
    }
}

// ---------------------------------------------------------------------------
// npm manifests
// ---------------------------------------------------------------------------

/// The decision the version logic takes on an npm manifest text.
pub open spec fn package_json_parse_spec(data: Seq<char>) -> Result<SimpleVersion, Seq<char>> {
    match package_json_version_field(data) {
        Err(e) => Err(e),
        Ok(None) => Err("Missing version"@),
        Ok(Some(vs)) => match parse_version_spec(vs) {
            Err(_) => Err("Invalid version part"@),
            Ok(v) => Ok(v),
        },
    }
}

/// An npm manifest, modelled by the version it records.
#[derive(Debug, Clone, PartialEq, Eq, Structural, Default)]
pub struct PackageJson {
    pub version: SimpleVersion,
}

impl PackageJson {
    pub fn new(version: SimpleVersion) -> (r: Self)
        ensures
            r.version == version,
    {
        PackageJson { version }
    }

    /// Parses manifest text: rejects a malformed document and a missing or
    /// malformed version.
    pub fn parse(data: &str) -> (r: Result<PackageJson, ManifestError>)
        ensures
            (match r {
                Ok(m) => package_json_parse_spec(data@) == Ok::<SimpleVersion, Seq<char>>(
                    m.version,
                ),
                Err(e) => e is InvalidManifest && package_json_parse_spec(data@) == Err::<
                    SimpleVersion,
                    Seq<char>,
                >(e->InvalidManifest_0@),
            }),
    {
        match read_package_json_version_field(data) {
            Err(e) => Err(ManifestError::InvalidManifest(e)),
            Ok(None) => Err(ManifestError::InvalidManifest(String::from_str("Missing version"))),
            Ok(Some(vs)) => match SimpleVersion::parse(vs.as_str()) {
                Err(_) => Err(
                    ManifestError::InvalidManifest(String::from_str("Invalid version part")),
                ),
                Ok(v) => Ok(PackageJson { version: v }),
            },
        }
    }
}

impl ManifestStatic for PackageJson {
    fn manifest_filename() -> (r: &'static str) {
        "package.json"
    }
}

impl ManifestObjectSafe for PackageJson {
    fn version(&self) -> (r: Result<SimpleVersion, ManifestError>)
        ensures
            r == Ok::<SimpleVersion, ManifestError>(self.version),
    {
        Ok(self.version)
    }

    fn set_version(&mut self, version: SimpleVersion) -> (r: Result<(), ManifestError>)
        ensures
            final(self).version == version,
            r is Ok,
    {
        self.version = version;
        Ok(())
    }
}

// ---------------------------------------------------------------------------
// Python project manifests
// ---------------------------------------------------------------------------

/// The version under `[project]` (PEP 621).
#[derive(Debug, Clone, PartialEq, Eq, Structural)]
pub struct Pep621Package {
    pub version: SimpleVersion,
}

/// The version under `[tool.poetry]`.
#[derive(Debug, Clone, PartialEq, Eq, Structural)]
pub struct PoetryPackage {
    pub version: SimpleVersion,
}

/// The `tool` table, as far as the version logic reads it.
#[derive(Debug, Clone, PartialEq, Eq, Structural)]
pub struct PyProjectTool {
    pub poetry: PoetryPackage,
}

/// A Python project manifest, modelled by the versions it records.
#[derive(Debug, Clone)]
pub struct PyProjectToml {
    pub project: Option<Pep621Package>,
    pub tool: Option<PyProjectTool>,
}

/// A recorded version string counts only when it parses.
pub open spec fn well_versioned(vs: Option<Seq<char>>) -> Option<SimpleVersion> {
    match vs {
        Some(s) => match parse_version_spec(s) {
            Ok(v) => Some(v),
            Err(_) => None,
        },
        None => None,
    }
}

/// The decision the version logic takes on a Python manifest text: a
/// malformed document fails; otherwise both version fields are kept, each
/// only when it parses.
pub open spec fn pyproject_parse_spec(data: Seq<char>) -> Result<
    (Option<SimpleVersion>, Option<SimpleVersion>),
    Seq<char>,
> {
    match pyproject_version_fields(data) {
        Err(e) => Err(e),
        Ok(pair) => Ok((well_versioned(pair.0), well_versioned(pair.1))),
    }
}

pub open spec fn pyproject_view(m: PyProjectToml) -> (Option<SimpleVersion>, Option<SimpleVersion>) {
    (
        (match m.project {
            Some(p) => Some(p.version),
            None => None,
        }),
        (match m.tool {
            Some(t) => Some(t.poetry.version),
            None => None,
        }),
    )
}

impl PyProjectToml {
    pub fn new(version: SimpleVersion) -> (r: Self)
        ensures
            pyproject_view(r) == (Some(version), None::<SimpleVersion>),
    {
        PyProjectToml { project: Some(Pep621Package { version }), tool: None }
    }

    /// Parses manifest text: rejects a malformed document; keeps whichever
    /// of the PEP 621 and poetry versions parse.
    pub fn parse(data: &str) -> (r: Result<PyProjectToml, ManifestError>)
        ensures
            (match r {
                Ok(m) => pyproject_parse_spec(data@) == Ok::<
                    (Option<SimpleVersion>, Option<SimpleVersion>),
                    Seq<char>,
                >(pyproject_view(m)),
                Err(e) => e is InvalidManifest && pyproject_parse_spec(data@) == Err::<
                    (Option<SimpleVersion>, Option<SimpleVersion>),
                    Seq<char>,
                >(e->InvalidManifest_0@),
            }),
    {
        match read_pyproject_version_fields(data) {
            Err(e) => Err(ManifestError::InvalidManifest(e)),
            Ok(pair) => {
                let project = match pair.0 {
                    Some(vs) => match SimpleVersion::parse(vs.as_str()) {
                        Ok(v) => Some(Pep621Package { version: v }),
                        Err(_) => None,
                    },
                    None => None,
                };
                let tool = match pair.1 {
                    Some(vs) => match SimpleVersion::parse(vs.as_str()) {
                        Ok(v) => Some(PyProjectTool { poetry: PoetryPackage { version: v } }),
                        Err(_) => None,
                    },
                    None => None,
                };
                Ok(PyProjectToml { project, tool })
            },
        }
    }
}

impl ManifestStatic for PyProjectToml {
    fn manifest_filename() -> (r: &'static str) {
        "pyproject.toml"
    }
}

impl ManifestObjectSafe for PyProjectToml {
    /// The PEP 621 version wins; poetry is the fallback; neither fails.
    fn version(&self) -> (r: Result<SimpleVersion, ManifestError>)
        ensures
            (match (self.project, self.tool) {
                (Some(p), _) => r == Ok::<SimpleVersion, ManifestError>(p.version),
                (None, Some(t)) => r == Ok::<SimpleVersion, ManifestError>(t.poetry.version),
                (None, None) => r is Err,
            }),
    {
        match &self.project {
            Some(p) => Ok(p.version),
            None => match &self.tool {
                Some(t) => Ok(t.poetry.version),
                None => Err(ManifestError::InvalidManifest(String::from_str("No version found"))),
            },
        }
    }

    /// Replaces whichever recorded version is present, PEP 621 first.
    fn set_version(&mut self, version: SimpleVersion) -> (r: Result<(), ManifestError>)
        ensures
            (match (old(self).project, old(self).tool) {
                (Some(_), _) => r is Ok && final(self).project == Some(
                    Pep621Package { version },
                ) && final(self).tool == old(self).tool,
                (None, Some(_)) => r is Ok && final(self).tool == Some(
                    PyProjectTool { poetry: PoetryPackage { version } },
                ) && final(self).project == old(self).project,
                (None, None) => r is Err && final(self).project == old(self).project
                    && final(self).tool == old(self).tool,
            }),
    {
        if self.project.is_some() {
            self.project = Some(Pep621Package { version });
            return Ok(());
        }
        if self.tool.is_some() {
            self.tool = Some(PyProjectTool { poetry: PoetryPackage { version } });
            return Ok(());
        }
        Err(ManifestError::InvalidManifest(String::from_str("No version found")))
    }
}

impl Default for PyProjectToml {
    fn default() -> (r: Self)
        ensures
            pyproject_view(r) == (
                Some(SimpleVersion { major: 0u64, minor: 1u64, patch: 0u64 }),
                None::<SimpleVersion>,
            ),
    {
        PyProjectToml {
            project: Some(Pep621Package { version: SimpleVersion { major: 0, minor: 1, patch: 0 } }),
            tool: None,
        }
    }
}

// ---------------------------------------------------------------------------
// The supported formats together
// ---------------------------------------------------------------------------

/// The file names probed for, in search order.
pub fn manifest_search_order() -> (r: Vec<&'static str>)
    ensures
        r@.len() == 3,
        r@[0]@ == "pyproject.toml"@,
        r@[1]@ == "package.json"@,
        r@[2]@ == "Cargo.toml"@,
{
    let mut v: Vec<&'static str> = Vec::new();
    v.push("pyproject.toml");
    v.push("package.json");
    v.push("Cargo.toml");
    v
}

#[derive(Debug, Clone)]
pub enum SupportedManifest {
    Unsupported,
    Rust(CargoToml),
    Javascript(PackageJson),
    Python(PyProjectToml),
}

/// Which format a manifest file name selects, by the names it contains.
pub open spec fn manifest_kind_of(filename: Seq<char>) -> int {
    if contains_seq(filename, "package.json"@) {
        1
    } else if contains_seq(filename, "Cargo.toml"@) {
        2
    } else if contains_seq(filename, "pyproject.toml"@) {
        3
    } else {
        0
    }
}

impl SupportedManifest {
    /// The name of the format.
    pub fn kind_name(&self) -> (r: &'static str)
        ensures
            (match self {
                SupportedManifest::Rust(_) => r@ == "Rust"@,
                SupportedManifest::Javascript(_) => r@ == "Javascript"@,
                SupportedManifest::Python(_) => r@ == "Python"@,
                SupportedManifest::Unsupported => r@ == "Unsupported"@,
            }),
    {
        match self {
            SupportedManifest::Rust(_) => "Rust",
            SupportedManifest::Javascript(_) => "Javascript",
            SupportedManifest::Python(_) => "Python",
            SupportedManifest::Unsupported => "Unsupported",
        }
    }

    /// The file name of the format.
    pub fn filename(&self) -> (r: Result<&'static str, ManifestError>)
        ensures
            (match self {
                SupportedManifest::Rust(_) => r is Ok && r->Ok_0@ == "Cargo.toml"@,
                SupportedManifest::Javascript(_) => r is Ok && r->Ok_0@ == "package.json"@,
                SupportedManifest::Python(_) => r is Ok && r->Ok_0@ == "pyproject.toml"@,
                SupportedManifest::Unsupported => r is Err,
            }),
    {
        match self {
            SupportedManifest::Rust(_) => Ok("Cargo.toml"),
            SupportedManifest::Javascript(_) => Ok("package.json"),
            SupportedManifest::Python(_) => Ok("pyproject.toml"),
            SupportedManifest::Unsupported => Err(
                ManifestError::InvalidManifest(String::from_str("Unsupported")),
            ),
        }
    }

    /// Classifies the file by its name and parses its text accordingly.
    pub fn parse(filename: &str, data: &str) -> (r: Result<SupportedManifest, ManifestError>)
        ensures
            manifest_kind_of(filename@) == 0 ==> r is Err,
            manifest_kind_of(filename@) == 1 ==> (match r {
                Ok(m) => m is Javascript && package_json_parse_spec(data@) == Ok::<
                    SimpleVersion,
                    Seq<char>,
                >(m->Javascript_0.version),
                Err(e) => package_json_parse_spec(data@) is Err,
            }),
            manifest_kind_of(filename@) == 2 ==> (match r {
                Ok(m) => m is Rust && cargo_parse_spec(data@) == Ok::<SimpleVersion, Seq<char>>(
                    m->Rust_0.version,
                ),
                Err(e) => cargo_parse_spec(data@) is Err,
            }),
            manifest_kind_of(filename@) == 3 ==> (match r {
                Ok(m) => m is Python && pyproject_parse_spec(data@) == Ok::<
                    (Option<SimpleVersion>, Option<SimpleVersion>),
                    Seq<char>,
                >(pyproject_view(m->Python_0)),
                Err(e) => pyproject_parse_spec(data@) is Err,
            }),
    {
        let name_chars = str_to_chars(filename);
        if contains_str(&name_chars, "package.json") {
            match PackageJson::parse(data) {
                Ok(m) => Ok(SupportedManifest::Javascript(m)),
                Err(e) => Err(e),
            }
        } else if contains_str(&name_chars, "Cargo.toml") {
            match CargoToml::parse(data) {
                Ok(m) => Ok(SupportedManifest::Rust(m)),
                Err(e) => Err(e),
            }
        } else if contains_str(&name_chars, "pyproject.toml") {
            match PyProjectToml::parse(data) {
                Ok(m) => Ok(SupportedManifest::Python(m)),
                Err(e) => Err(e),
            }
        } else {
            Err(ManifestError::InvalidManifestPath(filename.to_owned()))
        }
    }

    /// The version the manifest records.
    pub fn version(&self) -> (r: Result<SimpleVersion, ManifestError>)
        ensures
            (match self {
                SupportedManifest::Rust(m) => r == Ok::<SimpleVersion, ManifestError>(m.version),
                SupportedManifest::Javascript(m) => r == Ok::<SimpleVersion, ManifestError>(
                    m.version,
                ),
                SupportedManifest::Python(m) => (match (m.project, m.tool) {
                    (Some(p), _) => r == Ok::<SimpleVersion, ManifestError>(p.version),
                    (None, Some(t)) => r == Ok::<SimpleVersion, ManifestError>(t.poetry.version),
                    (None, None) => r is Err,
                }),
                SupportedManifest::Unsupported => r is Err,
            }),
    {
        match self {
            SupportedManifest::Rust(m) => m.version(),
            SupportedManifest::Javascript(m) => m.version(),
            SupportedManifest::Python(m) => m.version(),
            SupportedManifest::Unsupported => Err(
                ManifestError::InvalidManifest(String::from_str("Unsupported")),
            ),
        }
    }

    /// Replaces the recorded version.
    pub fn set_version(&mut self, version: SimpleVersion) -> (r: Result<(), ManifestError>)
        ensures
            (match *old(self) {
                SupportedManifest::Rust(_) => r is Ok && *final(self) == SupportedManifest::Rust(
                    CargoToml { version },
                ),
                SupportedManifest::Javascript(_) => r is Ok && *final(self)
                    == SupportedManifest::Javascript(PackageJson { version }),
                SupportedManifest::Python(m) => (match (m.project, m.tool) {
                    (Some(_), _) => r is Ok && *final(self) == SupportedManifest::Python(
                        PyProjectToml { project: Some(Pep621Package { version }), tool: m.tool },
                    ),
                    (None, Some(_)) => r is Ok && *final(self) == SupportedManifest::Python(
                        PyProjectToml {
                            project: None,
                            tool: Some(PyProjectTool { poetry: PoetryPackage { version } }),
                        },
                    ),
                    (None, None) => r is Err && *final(self) == *old(self),
                }),
                SupportedManifest::Unsupported => r is Err && *final(self) is Unsupported,
            }),
    {
        match self {
            SupportedManifest::Rust(m) => m.set_version(version),
            SupportedManifest::Javascript(m) => m.set_version(version),
            SupportedManifest::Python(m) => m.set_version(version),
            SupportedManifest::Unsupported => Err(
                ManifestError::InvalidManifest(String::from_str("Unsupported")),
            ),
        }
    }
}

impl Default for SupportedManifest {
    fn default() -> (r: Self)
        ensures
            r is Unsupported,
    {
        SupportedManifest::Unsupported
    }
}

} // verus!
