use turbo::srcinfo::{format_version, merge_lists, parse_srcinfo, vec_to_option, RequiredField, SrcinfoError};
use turbo::text::strip_version;

fn strings(v: &[&str]) -> Vec<String> {
    v.iter().map(|s| s.to_string()).collect()
}

#[test]
fn strip_removes_constraints() {
    assert_eq!(strip_version("foo>=1.2"), "foo");
    assert_eq!(strip_version("foo"), "foo");
    assert_eq!(strip_version("foo<1:2-3"), "foo");
    assert_eq!(strip_version("foo=2"), "foo");
    assert_eq!(strip_version(""), "");
    assert_eq!(strip_version(">=1"), "");
}

#[test]
fn srcinfo_merges_base_and_section_lists() {
    let text = "pkgbase = X\n\tpkgver = 1\n\tpkgrel = 1\n\tdepends = A\n\npkgname = Y\n\tdepends = B\n\npkgname = Z\n";
    let recs = parse_srcinfo(text).unwrap();
    assert_eq!(recs.len(), 2);
    assert_eq!(recs[0].name, "Y");
    assert_eq!(recs[0].pkgbase, "X");
    assert_eq!(recs[0].depends, Some(strings(&["A", "B"])));
    assert_eq!(recs[1].name, "Z");
    assert_eq!(recs[1].depends, Some(strings(&["A"])));
    assert_eq!(recs[1].makedepends, None);
}

#[test]
fn srcinfo_version_with_epoch() {
    let text = "pkgbase = p\npkgver = 2.0\npkgrel = 3\nepoch = 1\n";
    let recs = parse_srcinfo(text).unwrap();
    assert_eq!(recs.len(), 1);
    assert_eq!(recs[0].name, "p");
    assert_eq!(recs[0].version, "1:2.0-3");
}

#[test]
fn srcinfo_version_without_epoch() {
    let empty = parse_srcinfo("pkgbase = p\npkgver = 2.0\npkgrel = 3\nepoch =\n").unwrap();
    assert_eq!(empty[0].version, "2.0-3");
    let zero = parse_srcinfo("pkgbase = p\npkgver = 2.0\npkgrel = 3\nepoch = 0\n").unwrap();
    assert_eq!(zero[0].version, "2.0-3");
}

#[test]
fn format_version_cases() {
    assert_eq!(format_version(Some("1"), "2.0", "3"), "1:2.0-3");
    assert_eq!(format_version(Some(""), "2.0", "3"), "2.0-3");
    assert_eq!(format_version(Some("0"), "2.0", "3"), "2.0-3");
    assert_eq!(format_version(None, "2.0", "3"), "2.0-3");
}

#[test]
fn srcinfo_missing_pkgrel_fails() {
    let r = parse_srcinfo("pkgbase = p\npkgver = 1\npkgname = p\ndepends = a\n");
    assert!(matches!(r, Err(SrcinfoError::MissingField(RequiredField::Pkgrel))));
}

#[test]
fn srcinfo_missing_pkgbase_and_pkgver_fail() {
    let r = parse_srcinfo("pkgver = 1\npkgrel = 1\n");
    assert!(matches!(r, Err(SrcinfoError::MissingField(RequiredField::Pkgbase))));
    let r = parse_srcinfo("pkgbase = p\npkgrel = 1\n");
    assert!(matches!(r, Err(SrcinfoError::MissingField(RequiredField::Pkgver))));
    let r = parse_srcinfo("");
    assert!(matches!(r, Err(SrcinfoError::MissingField(RequiredField::Pkgbase))));
}

#[test]
fn srcinfo_skips_comments_blank_and_bad_lines() {
    let text = "# generated\n\n  \npkgbase = p\nnot a pair\npkgver = 1\r\npkgrel = 2\nunknown = x\n";
    let recs = parse_srcinfo(text).unwrap();
    assert_eq!(recs.len(), 1);
    assert_eq!(recs[0].version, "1-2");
    assert_eq!(recs[0].depends, None);
}

#[test]
fn srcinfo_merges_architecture_variants() {
    let text = "pkgbase = p\npkgver = 1\npkgrel = 1\ndepends_x86_64 = a>=2\nmakedepends = m\nmakedepends_aarch64 = n\ncheckdepends = c\npkgname = p\ncheckdepends_i686 = d\n";
    let recs = parse_srcinfo(text).unwrap();
    assert_eq!(recs[0].depends, Some(strings(&["a>=2"])));
    assert_eq!(recs[0].makedepends, Some(strings(&["m", "n"])));
    assert_eq!(recs[0].checkdepends, Some(strings(&["c", "d"])));
}

#[test]
fn srcinfo_pkgbase_resets_section() {
    let text = "pkgname = a\npkgbase = b\ndepends = x\npkgver = 1\npkgrel = 1\n";
    let recs = parse_srcinfo(text).unwrap();
    assert_eq!(recs.len(), 1);
    assert_eq!(recs[0].name, "a");
    assert_eq!(recs[0].pkgbase, "b");
    assert_eq!(recs[0].depends, Some(strings(&["x"])));
}

#[test]
fn srcinfo_value_keeps_later_equals_signs() {
    let recs = parse_srcinfo("pkgbase = p\npkgver = 1\npkgrel = 1\ndepends = q=2\n").unwrap();
    assert_eq!(recs[0].depends, Some(strings(&["q=2"])));
}

#[test]
fn merge_lists_concatenates() {
    assert_eq!(merge_lists(&strings(&["a"]), &strings(&["b", "c"])), strings(&["a", "b", "c"]));
    assert_eq!(merge_lists(&vec![], &vec![]), Vec::<String>::new());
}

#[test]
fn vec_to_option_empty_is_none() {
    assert_eq!(vec_to_option(vec![]), None);
    assert_eq!(vec_to_option(strings(&["a"])), Some(strings(&["a"])));
}
