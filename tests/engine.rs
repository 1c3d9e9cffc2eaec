use cargo_audit::advisory::{Advisory, AdvisoryDatabase, AdvisoryError};
use cargo_audit::range::{VersionRange, VersionReq};
use cargo_audit::scan::{scan, Lockfile, Package, VulnerabilityMatch};
use cargo_audit::render::{advisory_lines, record_fields, summary_message};
use cargo_audit::version::{Ident, Version};
use std::cmp::Ordering;

fn v(s: &str) -> Version {
    Version::parse(s).unwrap()
}

fn req(s: &str) -> VersionReq {
    VersionReq::parse(s).unwrap()
}

fn strings(v: &[&str]) -> Vec<String> {
    v.iter().map(|s| s.to_string()).collect()
}

fn advisory(id: &str, krate: &str, patched: &[&str], unaffected: &[&str]) -> Advisory {
    Advisory::new(
        id.to_string(),
        krate.to_string(),
        format!("{} title", id),
        String::new(),
        None,
        None,
        &strings(patched),
        &strings(unaffected),
    )
    .unwrap()
}

fn lockfile(pkgs: &[(&str, &str)]) -> Lockfile {
    Lockfile { packages: pkgs.iter().map(|(n, ver)| Package::parse(n, ver).unwrap()).collect() }
}

fn pairs(l: &Lockfile, db: &AdvisoryDatabase) -> Vec<(usize, usize)> {
    scan(l, db).matches.iter().map(|m| (m.package, m.advisory)).collect()
}

#[test]
fn parses_full_version() {
    let x = v("1.2.3-alpha.7+build.5");
    assert_eq!((x.major, x.minor, x.patch), (1, 2, 3));
    assert_eq!(x.pre, vec![Ident::Alpha(vec!['a', 'l', 'p', 'h', 'a']), Ident::Numeric(7)]);
    assert_eq!(x.build.len(), 2);
}

#[test]
fn rejects_malformed_versions() {
    for s in ["", "1.0", "1.a.0", "1.0.0-", "1.0.0+", "1..0", "1.0.0.0", "1.0.0-a..b", "18446744073709551616.0.0", "1.0.0-al_pha"] {
        assert!(Version::parse(s).is_err(), "{}", s);
    }
    assert_eq!(v("18446744073709551615.0.0").major, u64::MAX);
}

#[test]
fn precedence_follows_semver() {
    let chain = ["1.0.0-alpha", "1.0.0-alpha.1", "1.0.0-alpha.beta", "1.0.0-beta", "1.0.0-beta.2", "1.0.0-beta.11", "1.0.0-rc.1", "1.0.0", "1.0.1", "1.1.0", "2.0.0"];
    for i in 0..chain.len() {
        for j in 0..chain.len() {
            assert_eq!(v(chain[i]).compare(&v(chain[j])), i.cmp(&j), "{} {}", chain[i], chain[j]);
        }
    }
    assert_eq!(v("1.0.0+a").compare(&v("1.0.0+b")), Ordering::Equal);
}

#[test]
fn exclusive_inclusive_group() {
    let g = req("> 1.0.0, <= 2.0.0");
    assert!(g.matches(&v("1.5.0")));
    assert!(!g.matches(&v("1.0.0")));
    assert!(g.matches(&v("2.0.0")));
    assert!(!g.matches(&v("2.0.1")));
}

#[test]
fn prerelease_and_lower_bound() {
    assert!(!req(">= 1.0.0").matches(&v("1.0.0-alpha")));
    assert!(req(">= 1.0.0-alpha").matches(&v("1.0.0-alpha")));
}

#[test]
fn caret_and_tilde_bounds() {
    let cases = [
        ("^1.2.3", "1.9.0", true), ("^1.2.3", "2.0.0", false), ("^1.2.3", "1.2.2", false),
        ("^0.2.3", "0.2.9", true), ("^0.2.3", "0.3.0", false), ("^0.0.3", "0.0.3", true),
        ("^0.0.3", "0.0.4", false), ("^0", "0.9.9", true), ("^0", "1.0.0", false),
        ("^0.0", "0.0.9", true), ("^0.0", "0.1.0", false), ("~1.2.3", "1.2.9", true),
        ("~1.2.3", "1.3.0", false), ("~1.2", "1.2.0", true), ("~1", "1.9.9", true),
        ("~1", "2.0.0", false), ("1.2", "1.8.0", true), ("1.2", "2.0.0", false),
        ("= 1.2.3", "1.2.3", true), ("= 1.2.3", "1.2.4", false), ("< 1.2.3", "1.2.2", true),
        ("< 1.2.3", "1.2.3", false), ("<= 1.2.3", "1.2.3", true), ("> 1.2.3", "1.2.3", false),
    ];
    for (r, ver, want) in cases {
        assert_eq!(req(r).matches(&v(ver)), want, "{} {}", r, ver);
    }
}

#[test]
fn rejects_malformed_terms() {
    for s in ["", "^1.2-alpha", ">= 1.2-rc.1", "=>1.0.0", ">= 1.0.0,", "~", "1.0.0 ;"] {
        assert!(VersionReq::parse(s).is_err(), "{}", s);
    }
    assert!(VersionRange::parse(&strings(&[">= 1.0.0", "bogus"])).is_err());
}

#[test]
fn empty_groups_and_ranges_match_nothing() {
    assert!(!VersionReq { comparators: vec![] }.matches(&v("1.0.0")));
    assert!(!VersionRange::empty().matches(&v("1.0.0")));
    assert!(VersionRange::empty().is_empty());
}

#[test]
fn advisory_construction_errors() {
    let ok = strings(&[">= 1.0.0"]);
    let bad = strings(&["nope"]);
    let mk = |id: &str, c: &str, p: &Vec<String>, u: &Vec<String>| {
        Advisory::new(id.to_string(), c.to_string(), String::new(), String::new(), None, None, p, u)
    };
    assert_eq!(mk("", "foo", &ok, &ok).unwrap_err(), AdvisoryError::MissingId);
    assert_eq!(mk("X", "", &ok, &ok).unwrap_err(), AdvisoryError::MissingCrateName);
    assert_eq!(mk("X", "foo", &bad, &ok).unwrap_err(), AdvisoryError::MalformedRange);
    assert_eq!(mk("X", "foo", &ok, &bad).unwrap_err(), AdvisoryError::MalformedRange);
    assert!(mk("X", "foo", &ok, &ok).is_ok());
}

#[test]
fn vulnerability_of_one_advisory() {
    let unfixed = advisory("A", "foo", &[], &[]);
    assert!(unfixed.is_version_vulnerable(&v("9.9.9")));
    let a = advisory("B", "foo", &[">= 1.2.0"], &["< 0.5.0"]);
    assert!(a.is_version_vulnerable(&v("1.1.0")));
    assert!(!a.is_version_vulnerable(&v("1.2.0")));
    assert!(!a.is_version_vulnerable(&v("0.4.0")));
}

#[test]
fn duplicate_ids_are_refused() {
    let r = AdvisoryDatabase::from_advisories(vec![
        advisory("A", "foo", &[], &[]),
        advisory("B", "bar", &[], &[]),
        advisory("A", "baz", &[], &[]),
    ]);
    match r {
        Err(e) => assert_eq!(e, AdvisoryError::DuplicateId("A".to_string())),
        Ok(_) => panic!("duplicate ids accepted"),
    }
}

#[test]
fn find_by_crate_in_insertion_order() {
    let db = AdvisoryDatabase::from_advisories(vec![
        advisory("A", "foo", &[], &[]),
        advisory("B", "bar", &[], &[]),
        advisory("C", "foo", &[], &[]),
    ])
    .unwrap();
    assert_eq!(db.find_by_crate("foo"), vec![0, 2]);
    assert!(db.find_by_crate("qux").is_empty());
    assert_eq!(db.len(), 3);
}

#[test]
fn single_advisory_scenario() {
    let db = AdvisoryDatabase::from_advisories(vec![advisory("RUSTSEC-0001", "foo", &[">= 1.2.0"], &[])]).unwrap();
    let l = lockfile(&[("foo", "1.1.0"), ("foo", "1.2.0")]);
    let r = scan(&l, &db);
    assert_eq!(r.count(), 1);
    let m = r.get(0);
    assert_eq!(m, VulnerabilityMatch { package: 0, advisory: 0 });
    assert_eq!(l.packages[m.package].version, v("1.1.0"));
    assert_eq!(db.get(m.advisory).id, "RUSTSEC-0001");
}

#[test]
fn two_advisories_one_package() {
    let db = AdvisoryDatabase::from_advisories(vec![
        advisory("RUSTSEC-0002", "bar", &[">= 2.0.0"], &[]),
        advisory("RUSTSEC-0003", "bar", &[">= 3.0.0"], &[]),
    ])
    .unwrap();
    let l = lockfile(&[("bar", "1.0.0")]);
    assert_eq!(pairs(&l, &db), vec![(0, 0), (0, 1)]);
}

#[test]
fn unknown_crate_is_not_reported() {
    let db = AdvisoryDatabase::from_advisories(vec![advisory("RUSTSEC-0001", "foo", &[">= 1.2.0"], &[])]).unwrap();
    let l = lockfile(&[("unknown", "0.1.0")]);
    let r = scan(&l, &db);
    assert!(r.is_empty());
    assert_eq!(r.count(), 0);
}

#[test]
fn scanning_twice_gives_the_same_report() {
    let db = AdvisoryDatabase::from_advisories(vec![
        advisory("A", "foo", &[">= 1.2.0"], &[]),
        advisory("B", "bar", &[], &[]),
    ])
    .unwrap();
    let l = lockfile(&[("foo", "1.0.0"), ("bar", "0.1.0"), ("foo", "1.3.0")]);
    assert_eq!(scan(&l, &db), scan(&l, &db));
}

#[test]
fn advisory_order_changes_positions_not_pairs() {
    let a = || advisory("A", "foo", &[">= 1.2.0"], &[]);
    let b = || advisory("B", "foo", &["^1.1.0"], &[]);
    let c = || advisory("C", "bar", &[], &[]);
    let l = lockfile(&[("foo", "1.0.0"), ("bar", "0.1.0"), ("foo", "1.1.5")]);
    let d1 = AdvisoryDatabase::from_advisories(vec![a(), b(), c()]).unwrap();
    let d2 = AdvisoryDatabase::from_advisories(vec![c(), b(), a()]).unwrap();
    let ids = |l: &Lockfile, d: &AdvisoryDatabase| {
        let mut v: Vec<(usize, String)> = pairs(l, d).into_iter().map(|(p, a)| (p, d.get(a).id.clone())).collect();
        v.sort();
        v
    };
    assert_eq!(ids(&l, &d1), ids(&l, &d2));
    assert_eq!(pairs(&l, &d1), vec![(0, 0), (0, 1), (1, 2), (2, 0)]);
    assert_eq!(pairs(&l, &d2), vec![(0, 1), (0, 2), (1, 0), (2, 2)]);
}

#[test]
fn below_every_patched_bound_is_reported() {
    let db = AdvisoryDatabase::from_advisories(vec![advisory("A", "foo", &[">= 1.2.0", "^0.9.3"], &["< 0.1.0"])]).unwrap();
    let l = lockfile(&[("foo", "0.5.0"), ("foo", "0.0.1")]);
    assert_eq!(pairs(&l, &db), vec![(0, 0)]);
}

#[test]
fn patched_is_never_reported() {
    let db = AdvisoryDatabase::from_advisories(vec![advisory("A", "foo", &[">= 1.2.0"], &["< 5.0.0"])]).unwrap();
    let l = lockfile(&[("foo", "1.3.0"), ("foo", "6.0.0")]);
    assert!(scan(&l, &db).is_empty());
}

#[test]
fn names_match_exactly() {
    let db = AdvisoryDatabase::from_advisories(vec![advisory("A", "foo", &[], &[])]).unwrap();
    let l = lockfile(&[("Foo", "1.0.0"), ("foo-bar", "1.0.0"), ("foo", "1.0.0")]);
    assert_eq!(pairs(&l, &db), vec![(2, 0)]);
}

fn chars(s: &str) -> Vec<char> {
    s.chars().collect()
}

#[test]
fn prerelease_needs_a_prerelease_comparator_on_its_triple() {
    assert!(!req(">= 1.0.0").matches(&v("2.0.0-alpha")));
    assert!(!req("< 1.0.0").matches(&v("0.9.0-alpha")));
    assert!(req(">= 1.2.3-alpha, < 2.0.0").matches(&v("1.2.3-beta")));
    assert!(!req(">= 1.2.3-alpha, < 2.0.0").matches(&v("1.2.4-beta")));
    assert!(req(">= 1.0.0").comparators[0].matches(&v("1.5.0")));
    assert!(!req(">= 1.0.0").comparators[0].matches(&v("1.5.0-rc.1")));
    let a = advisory("A", "foo", &[">= 1.0.0"], &[]);
    assert!(a.is_version_vulnerable(&v("2.0.0-alpha")));
}

#[test]
fn leading_zeros_are_rejected() {
    for s in ["01.0.0", "1.00.0", "1.0.0-01"] {
        assert!(Version::parse(s).is_err(), "{}", s);
    }
    assert_eq!(v("1.0.0-0").pre, vec![Ident::Numeric(0)]);
    assert_eq!(v("1.0.0+001").build, vec![chars("001")]);
}

#[test]
fn version_text_round_trips() {
    for s in ["1.2.3-alpha.7+build.5", "0.0.0", "10.20.30", "1.0.0-x-y.0", "18446744073709551615.0.0"] {
        assert_eq!(v(s).text(), chars(s));
        assert_eq!(Version::parse(&v(s).text().iter().collect::<String>()).unwrap(), v(s));
    }
}

#[test]
fn range_text_joins_groups() {
    let r = VersionRange::parse(&strings(&[">= 1.2.0", "^0.9.3, < 0.9.8", "~1", "= 2.0.0-rc.1"])).unwrap();
    assert_eq!(r.text(), chars(">=1.2.0, ^0.9.3, <0.9.8, ~1, =2.0.0-rc.1"));
    assert!(VersionRange::empty().text().is_empty());
}

#[test]
fn advisory_lines_in_order() {
    let p = Package::parse("foo", "1.1.0").unwrap();
    let mut a = advisory("RUSTSEC-0001", "foo", &[">= 1.2.0"], &[]);
    let labels = |l: &Vec<(Vec<char>, Vec<char>)>| l.iter().map(|(k, _)| k.iter().collect::<String>()).collect::<Vec<_>>();
    let lines = advisory_lines(&p, &a);
    assert_eq!(labels(&lines), vec!["ID", "Crate", "Version", "Title", "Solution: upgrade to"]);
    assert_eq!(lines[2].1, chars("1.1.0"));
    assert_eq!(lines[4].1, chars(">=1.2.0"));
    a.date = Some("2020-01-01".to_string());
    a.url = Some("https://example.org".to_string());
    let lines = advisory_lines(&p, &a);
    assert_eq!(labels(&lines), vec!["ID", "Crate", "Version", "Date", "URL", "Title", "Solution: upgrade to"]);
    assert_eq!(lines[3].1, chars("2020-01-01"));
    assert_eq!(lines[0].1, chars("RUSTSEC-0001"));
}

#[test]
fn summary_message_counts() {
    assert_eq!(summary_message(1), chars("1 vulnerability found!"));
    assert_eq!(summary_message(0), chars("0 vulnerabilities found!"));
    assert_eq!(summary_message(12), chars("12 vulnerabilities found!"));
}

#[test]
fn record_fields_of_an_advisory() {
    let a = advisory("RUSTSEC-0001", "foo", &[], &[]);
    let f = record_fields(&a);
    let keys: Vec<String> = f.iter().map(|(k, _)| k.iter().collect()).collect();
    assert_eq!(keys, vec!["tool", "message", "url", "cve", "file", "priority"]);
    assert_eq!(f[1].1, Some(chars("RUSTSEC-0001 title")));
    assert_eq!(f[2].1, None);
    assert_eq!(f[3].1, Some(chars("RUSTSEC-0001")));
}

#[test]
fn partial_versions_under_every_operator() {
    let cases = [
        (">= 1.2", "1.2.0", true), (">= 1.2", "1.1.9", false), ("> 1.2", "1.2.9", false),
        ("> 1.2", "1.3.0", true), ("<= 1.2", "1.2.9", true), ("<= 1.2", "1.3.0", false),
        ("= 1.2", "1.2.5", true), ("= 1.2", "1.3.0", false), ("< 1.2", "1.1.9", true),
        ("< 1.2", "1.2.0", false), ("= 1", "1.9.0", true), ("= 1", "2.0.0", false),
        ("> 1", "1.9.9", false), ("> 1", "2.0.0", true),
    ];
    for (r, ver, want) in cases {
        assert_eq!(req(r).matches(&v(ver)), want, "{} {}", r, ver);
    }
}
