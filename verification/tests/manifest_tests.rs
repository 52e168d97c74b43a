use semrel::manifest_search_order;
use semrel::CargoToml;
use semrel::ManifestObjectSafe;
use semrel::ManifestStatic;
use semrel::PackageJson;
use semrel::PyProjectToml;
use semrel::SimpleVersion;
use semrel::SupportedManifest;

#[test]
fn test_parse_cargo_toml() {
    let data = "[package]\nname = \"test\"\nversion = \"1.0.0\"\n";
    let manifest = CargoToml::parse(data).unwrap();
    assert_eq!(manifest.version().unwrap(), SimpleVersion::new(1, 0, 0));
}

#[test]
fn test_parse_cargo_toml_invalid_version() {
    let data = "[package]\nname = \"test\"\nversion = \"invalid-version\"\n";
    assert!(CargoToml::parse(data).is_err());
}

#[test]
fn test_parse_cargo_toml_missing_version() {
    let data = "[package]\nname = \"test\"\n";
    assert!(CargoToml::parse(data).is_err());
}

#[test]
fn test_parse_cargo_toml_rejects_empty_and_zero() {
    assert!(CargoToml::parse("").is_err());
    let zero = "[package]\nname = \"test\"\nversion = \"0.0.0\"\n";
    assert!(CargoToml::parse(zero).is_err());
}

#[test]
fn test_parse_package_json() {
    let data = "{\n  \"name\": \"test\",\n  \"version\": \"1.0.0\"\n}";
    let manifest = PackageJson::parse(data).unwrap();
    assert_eq!(manifest.version().unwrap(), SimpleVersion::new(1, 0, 0));
    assert!(PackageJson::parse("{\"version\": \"invalid\"}").is_err());
    assert!(PackageJson::parse("not json at all {{{").is_err());
}

#[test]
fn test_pep621_pyproject_version() {
    let data = "[project]\nname = \"pkg\"\nversion = \"1.0.0\"\n";
    let manifest = PyProjectToml::parse(data).unwrap();
    assert_eq!(manifest.version().unwrap(), SimpleVersion::new(1, 0, 0));
}

#[test]
fn test_poetry_pyproject_version() {
    let data = "[tool.poetry]\nname = \"pkg\"\nversion = \"1.0.0\"\n";
    let manifest = PyProjectToml::parse(data).unwrap();
    assert_eq!(manifest.version().unwrap(), SimpleVersion::new(1, 0, 0));
}

#[test]
fn test_pyproject_without_version_fails_late() {
    let data = "[project]\nname = \"pkg\"\n";
    let manifest = PyProjectToml::parse(data).unwrap();
    assert!(manifest.version().is_err());
    assert!(PyProjectToml::parse("not toml = = =").is_err());
}

#[test]
fn test_set_version() {
    let mut manifest = CargoToml::parse("[package]\nname = \"t\"\nversion = \"1.0.0\"\n").unwrap();
    manifest.set_version(SimpleVersion::new(2, 0, 0)).unwrap();
    assert_eq!(manifest.version().unwrap(), SimpleVersion::new(2, 0, 0));

    let mut py = PyProjectToml::parse("[project]\nversion = \"1.0.0\"\n").unwrap();
    py.set_version(SimpleVersion::new(1, 1, 0)).unwrap();
    assert_eq!(py.version().unwrap(), SimpleVersion::new(1, 1, 0));
}

#[test]
fn test_supported_manifest_dispatch() {
    let cargo = SupportedManifest::parse("Cargo.toml", "[package]\nname=\"t\"\nversion=\"1.2.3\"\n")
        .unwrap();
    assert_eq!(cargo.version().unwrap(), SimpleVersion::new(1, 2, 3));
    assert_eq!(cargo.filename().unwrap(), "Cargo.toml");
    assert_eq!(cargo.kind_name(), "Rust");

    let npm = SupportedManifest::parse("package.json", "{\"version\": \"4.5.6\"}").unwrap();
    assert_eq!(npm.version().unwrap(), SimpleVersion::new(4, 5, 6));
    assert_eq!(npm.kind_name(), "Javascript");

    let py = SupportedManifest::parse("pyproject.toml", "[project]\nversion = \"7.8.9\"\n").unwrap();
    assert_eq!(py.version().unwrap(), SimpleVersion::new(7, 8, 9));
    assert_eq!(py.kind_name(), "Python");

    assert!(SupportedManifest::parse("README.md", "whatever").is_err());
}

#[test]
fn test_manifest_filenames() {
    assert_eq!(CargoToml::manifest_filename(), "Cargo.toml");
    assert_eq!(PackageJson::manifest_filename(), "package.json");
    assert_eq!(PyProjectToml::manifest_filename(), "pyproject.toml");
    let order = manifest_search_order();
    assert_eq!(order, vec!["pyproject.toml", "package.json", "Cargo.toml"]);
}

#[test]
fn test_relative_path_components() {
    let repo: Vec<String> = vec!["home".into(), "user".into(), "repo".into()];
    let project: Vec<String> = vec!["home".into(), "user".into(), "repo".into(), "pkg".into()];
    let rel = semrel::relative_path_components(&repo, &project);
    assert_eq!(rel, vec!["pkg".to_string()]);

    let sibling: Vec<String> = vec!["home".into(), "user".into(), "other".into(), "x".into()];
    let rel = semrel::relative_path_components(&repo, &sibling);
    assert_eq!(rel, vec!["..".to_string(), "other".to_string(), "x".to_string()]);

    let disjoint: Vec<String> = vec!["mnt".into(), "data".into()];
    let rel = semrel::relative_path_components(&repo, &disjoint);
    assert_eq!(rel, vec!["mnt".to_string(), "data".to_string()]);
}

#[test]
fn test_error_messages() {
    let err = CargoToml::parse("").unwrap_err();
    assert_eq!(err.message(), "Invalid manifest: Manifest is empty!");
    let verr = SimpleVersion::parse("a.b").unwrap_err();
    assert_eq!(verr.message(), "Invalid version part: a");
}
