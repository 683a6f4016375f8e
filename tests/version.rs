use crusader::error::Error;
use crusader::protocol::resolve_rev_dep_version;
use crusader::version::{pick_latest, Identifier, Version};

fn strings(v: &[&str]) -> Vec<String> {
    v.iter().map(|s| s.to_string()).collect()
}

fn v(major: u64, minor: u64, patch: u64, pre: Vec<Identifier>) -> Version {
    Version { major, minor, patch, pre }
}

#[test]
fn latest_of_three() {
    let rd = resolve_rev_dep_version("foo".to_string(), &strings(&["1.0.0", "1.2.0", "1.1.0-beta"])).unwrap();
    assert_eq!(rd.name, "foo");
    assert_eq!(rd.num, "1.2.0");
    assert_eq!((rd.vers.major, rd.vers.minor, rd.vers.patch), (1, 2, 0));
    assert!(rd.vers.pre.is_empty());
}

#[test]
fn unparsable_entries_are_skipped() {
    let rd = resolve_rev_dep_version("foo".to_string(), &strings(&["bogus", "0.3.0", "1.x"])).unwrap();
    assert_eq!(rd.num, "0.3.0");
}

#[test]
fn nothing_parses() {
    let r = resolve_rev_dep_version("foo".to_string(), &strings(&["bogus", "1.x", ""]));
    assert_eq!(r.unwrap_err(), Error::NoCrateVersions);
}

#[test]
fn no_versions_at_all() {
    let r = resolve_rev_dep_version("foo".to_string(), &Vec::new());
    assert_eq!(r.unwrap_err(), Error::NoCrateVersions);
}

#[test]
fn release_ranks_above_its_prerelease() {
    let rd = resolve_rev_dep_version("foo".to_string(), &strings(&["1.0.0", "1.0.0-rc.1"])).unwrap();
    assert_eq!(rd.num, "1.0.0");
}

#[test]
fn prerelease_identifiers_compare_in_order() {
    let all = ["1.0.0-alpha", "1.0.0-alpha.1", "1.0.0-alpha.beta", "1.0.0-beta", "1.0.0-beta.2", "1.0.0-beta.11", "1.0.0-rc.1"];
    let rd = resolve_rev_dep_version("foo".to_string(), &strings(&all)).unwrap();
    assert_eq!(rd.num, "1.0.0-rc.1");
    let rd = resolve_rev_dep_version("foo".to_string(), &strings(&["1.0.0-beta.11", "1.0.0-beta.2"])).unwrap();
    assert_eq!(rd.num, "1.0.0-beta.11");
    let rd = resolve_rev_dep_version("foo".to_string(), &strings(&["1.0.0-alpha.1", "1.0.0-alpha.beta"])).unwrap();
    assert_eq!(rd.num, "1.0.0-alpha.beta");
}

#[test]
fn parsed_prerelease_fields() {
    let rd = resolve_rev_dep_version("foo".to_string(), &strings(&["2.3.4-beta.7"])).unwrap();
    assert_eq!((rd.vers.major, rd.vers.minor, rd.vers.patch), (2, 3, 4));
    assert_eq!(rd.vers.pre.len(), 2);
    assert!(matches!(&rd.vers.pre[0], Identifier::AlphaNumeric(b) if b.as_slice() == b"beta"));
    assert!(matches!(rd.vers.pre[1], Identifier::Numeric(7)));
}

#[test]
fn precedence_by_field() {
    assert!(v(1, 0, 0, vec![]).precedes(&v(2, 0, 0, vec![])));
    assert!(v(1, 9, 9, vec![]).precedes(&v(1, 10, 0, vec![])));
    assert!(v(1, 0, 1, vec![]).precedes(&v(1, 0, 2, vec![])));
    assert!(!v(1, 0, 0, vec![]).precedes(&v(1, 0, 0, vec![])));
    assert!(v(1, 0, 0, vec![Identifier::Numeric(1)]).precedes(&v(1, 0, 0, vec![])));
    assert!(v(1, 0, 0, vec![Identifier::Numeric(9)]).precedes(&v(1, 0, 0, vec![Identifier::AlphaNumeric(b"a".to_vec())])));
    assert!(v(1, 0, 0, vec![Identifier::AlphaNumeric(b"a".to_vec())]).precedes(&v(1, 0, 0, vec![Identifier::AlphaNumeric(b"a".to_vec()), Identifier::Numeric(0)])));
}

#[test]
fn pick_latest_positions() {
    assert_eq!(pick_latest(&vec![None, None]), None);
    assert_eq!(pick_latest(&vec![]), None);
    let p = vec![Some(v(1, 0, 0, vec![])), None, Some(v(1, 2, 0, vec![])), Some(v(1, 1, 0, vec![]))];
    assert_eq!(pick_latest(&p), Some(2));
    let ties = vec![Some(v(1, 0, 0, vec![])), Some(v(1, 0, 0, vec![]))];
    assert_eq!(pick_latest(&ties), Some(0));
}

#[test]
fn inserted_unparsable_texts_change_nothing() {
    let base = resolve_rev_dep_version("foo".to_string(), &strings(&["1.0.0", "1.2.0", "1.1.0-beta"])).unwrap();
    let more = resolve_rev_dep_version("foo".to_string(), &strings(&["junk", "1.0.0", "1.x", "1.2.0", "", "1.1.0-beta", "v2"])).unwrap();
    assert_eq!((base.num.as_str(), more.num.as_str()), ("1.2.0", "1.2.0"));
    assert_eq!((more.vers.major, more.vers.minor, more.vers.patch), (1, 2, 0));
}

#[test]
fn equal_precedence_keeps_first_text() {
    let rd = resolve_rev_dep_version("foo".to_string(), &strings(&["0.9.0", "1.0.0+a", "1.0.0+b"])).unwrap();
    assert_eq!(rd.num, "1.0.0+a");
}

#[test]
fn chosen_text_is_semver_rendering() {
    let rd = resolve_rev_dep_version("foo".to_string(), &strings(&[" 1.2.0 ", "1.0.0-rc.1+b7"])).unwrap();
    assert_eq!(rd.num, "1.2.0");
    let rd = resolve_rev_dep_version("foo".to_string(), &strings(&["1.0.0-rc.1+b7"])).unwrap();
    assert_eq!(rd.num, "1.0.0-rc.1+b7");
}
