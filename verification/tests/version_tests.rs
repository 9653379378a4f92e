use cargo_changelog::error::VersionError;
use cargo_changelog::paths::get_version_from_path;
use cargo_changelog::version::{version_compare, Rel, Version};

fn comps(parts: &[&str]) -> Vec<Option<String>> {
    parts.iter().map(|p| Some(p.to_string())).collect()
}

#[test]
fn plain_version_parses() {
    let v = Version::parse("1.2.3").unwrap();
    assert_eq!(v.text, "1.2.3");
    assert_eq!(v.major, 1);
    assert_eq!(v.minor, 2);
    assert_eq!(v.patch, 3);
    assert!(v.pre.is_empty());
}

#[test]
fn prerelease_version_parses() {
    let v = Version::parse("1.0.0-alpha.1").unwrap();
    assert_eq!(v.pre.len(), 2);
    assert_eq!(v.pre[0], b"alpha".to_vec());
    assert_eq!(v.pre[1], b"1".to_vec());
}

#[test]
fn ordinary_names_do_not_parse() {
    assert!(Version::parse("fragments").is_none());
    assert!(Version::parse("1.2").is_none());
    assert!(Version::parse("v1.2.3").is_none());
    assert!(Version::parse("").is_none());
}

#[test]
fn semver_precedence_chain_is_respected() {
    let chain = [
        "1.0.0-alpha",
        "1.0.0-alpha.1",
        "1.0.0-alpha.beta",
        "1.0.0-beta",
        "1.0.0-beta.2",
        "1.0.0-beta.11",
        "1.0.0-rc.1",
        "1.0.0",
        "2.0.0",
        "2.1.0",
        "2.1.1",
    ];
    for w in chain.windows(2) {
        let a = Version::parse(w[0]).unwrap();
        let b = Version::parse(w[1]).unwrap();
        assert!(
            matches!(version_compare(&a, &b), Rel::Lt),
            "{} should rank below {}",
            w[0],
            w[1]
        );
        assert!(matches!(version_compare(&b, &a), Rel::Gt));
    }
}

#[test]
fn build_metadata_does_not_change_precedence() {
    let a = Version::parse("1.0.0+build.1").unwrap();
    let b = Version::parse("1.0.0+other").unwrap();
    assert!(matches!(version_compare(&a, &b), Rel::Eq));
}

#[test]
fn path_without_version_yields_no_version() {
    let c = comps(&["fragments", "unreleased", "file.md"]);
    let r = get_version_from_path(&c, &"fragments/unreleased/file.md".to_string());
    assert!(matches!(r, Ok(None)));
}

#[test]
fn version_is_found_at_any_depth() {
    let shallow = comps(&["fragments", "0.1.0", "x.md"]);
    let r = get_version_from_path(&shallow, &"fragments/0.1.0/x.md".to_string()).unwrap();
    assert_eq!(r.unwrap().text, "0.1.0");

    let deep = comps(&["fragments", "backend", "api", "1.2.3", "x.md"]);
    let r = get_version_from_path(&deep, &"fragments/backend/api/1.2.3/x.md".to_string())
        .unwrap();
    assert_eq!(r.unwrap().text, "1.2.3");
}

#[test]
fn first_version_component_wins() {
    let c = comps(&["2.0.0", "1.0.0", "x.md"]);
    let r = get_version_from_path(&c, &"2.0.0/1.0.0/x.md".to_string()).unwrap();
    assert_eq!(r.unwrap().text, "2.0.0");
}

#[test]
fn non_utf8_component_is_an_error() {
    let c = vec![Some("fragments".to_string()), None, Some("0.1.0".to_string())];
    let r = get_version_from_path(&c, &"the offending path".to_string());
    match r {
        Err(VersionError::Utf8(p)) => assert_eq!(p, "the offending path"),
        other => panic!("expected a UTF-8 path error, got {:?}", other),
    }
}

#[test]
fn version_after_non_parsing_components_is_found() {
    let c = comps(&["a", "b", "0.0.1-rc.1+build", "f.md"]);
    let r = get_version_from_path(&c, &"a/b/0.0.1-rc.1+build/f.md".to_string()).unwrap();
    assert_eq!(r.unwrap().text, "0.0.1-rc.1+build");
}
