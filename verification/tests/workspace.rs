use testkit::workspace::member_manifest_paths;
use testkit::workspace::ManifestError;

#[test]
fn lists_member_manifests() {
    let manifest = "[workspace]\nmembers = [\"api\", \"helpers\"]\n";
    let paths = member_manifest_paths("/tmp/ws", manifest).unwrap();
    assert_eq!(
        paths,
        vec![
            "/tmp/ws/api/Cargo.toml".to_string(),
            "/tmp/ws/helpers/Cargo.toml".to_string(),
        ]
    );
}

#[test]
fn no_members_yield_no_paths() {
    let manifest = "[workspace]\n";
    let paths = member_manifest_paths("root", manifest).unwrap();
    assert_eq!(paths, Vec::<String>::new());
}

#[test]
fn errors_without_a_workspace_section() {
    let manifest = "[package]\nname = \"api\"\nversion = \"0.1.0\"\n";
    assert_eq!(
        member_manifest_paths("root", manifest),
        Err(ManifestError::NoWorkspace)
    );
}

#[test]
fn errors_on_malformed_manifest() {
    assert_eq!(
        member_manifest_paths("root", "= not toml ="),
        Err(ManifestError::InvalidManifest)
    );
}
