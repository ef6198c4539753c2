use std::cmp::Ordering;

use semver_match::api::{cmp, is_match, valid};
use semver_match::order::compare;
use semver_match::range::{parse_range, Comparator, Op};
use semver_match::version::{parse_version, ParseError, Version};

fn v(s: &str) -> Version {
    parse_version(s).unwrap()
}

fn m(range: &str, version: &str) -> bool {
    semver_match::range::matches(&parse_range(range).unwrap(), &v(version))
}

fn text_of(ver: &Version) -> String {
    ver.text().iter().collect()
}

#[test]
fn parses_components() {
    let ver = v("1.20.300-alpha.7+build.01");
    assert_eq!((ver.major, ver.minor, ver.patch), (1, 20, 300));
    assert_eq!(ver.pre.iter().collect::<String>(), "alpha.7");
    assert_eq!(ver.build.iter().collect::<String>(), "build.01");
}

#[test]
fn triple_round_trip() {
    for (a, b, c) in [(0u64, 0u64, 0u64), (1, 2, 3), (10, 0, 99), (u64::MAX, 7, 1_000_000)] {
        let text = format!("{}.{}.{}", a, b, c);
        let ver = v(&text);
        assert_eq!((ver.major, ver.minor, ver.patch), (a, b, c));
        assert!(ver.pre.is_empty() && ver.build.is_empty());
        assert_eq!(text_of(&ver), text);
    }
}

#[test]
fn full_round_trip() {
    for text in ["1.0.0-rc.1", "0.3.7+exp.sha.5114f85", "2.0.0-x-y.0+z"] {
        assert_eq!(text_of(&v(text)), text);
    }
}

#[test]
fn malformed_versions() {
    for text in ["1.2", "", "1.2.3.4", "01.2.3", "1.02.3", "1.2.3-", "1.2.3-01", "1.2.3-a..b",
        "1.2.3+", "v1.0.0", " 1.0.0", "1.0.0 ", "18446744073709551616.0.0", "1.2.3-a_b"] {
        assert!(matches!(parse_version(text), Err(ParseError::Malformed)), "{}", text);
    }
}

#[test]
fn build_metadata_ignored() {
    assert_eq!(compare(&v("1.0.0+a"), &v("1.0.0+b")), Ordering::Equal);
}

#[test]
fn prerelease_below_release() {
    assert_eq!(compare(&v("1.0.0-alpha"), &v("1.0.0")), Ordering::Less);
}

#[test]
fn precedence_chain() {
    let chain = ["1.0.0-alpha", "1.0.0-alpha.1", "1.0.0-alpha.beta", "1.0.0-beta", "1.0.0-beta.2",
        "1.0.0-beta.11", "1.0.0-rc.1", "1.0.0", "1.0.1", "1.2.0", "1.10.0", "2.0.0"];
    for i in 0..chain.len() {
        for j in 0..chain.len() {
            let expected = i.cmp(&j);
            assert_eq!(compare(&v(chain[i]), &v(chain[j])), expected, "{} {}", chain[i], chain[j]);
        }
    }
}

#[test]
fn precedence_agrees_with_semver() {
    let all = ["0.0.0", "1.0.0-1", "1.0.0-2", "1.0.0-10", "1.0.0-a", "1.0.0-a.1", "1.0.0-A",
        "1.0.0", "1.0.0+b", "1.1.0", "10.0.0-alpha.9.z"];
    for a in all {
        for b in all {
            let ours = compare(&v(a), &v(b));
            let theirs = semver::Version::parse(a).unwrap().cmp_precedence(&semver::Version::parse(b).unwrap());
            assert_eq!(ours, theirs, "{} {}", a, b);
        }
    }
}

#[test]
fn caret_examples() {
    assert!(m("^1.2.3", "1.9.9"));
    assert!(!m("^1.2.3", "2.0.0"));
    assert!(!m("^1.2.3", "1.2.2"));
    assert!(m("^0.2.3", "0.2.9"));
    assert!(!m("^0.2.3", "0.3.0"));
    assert!(m("^0.0.3", "0.0.3"));
    assert!(!m("^0.0.3", "0.0.4"));
    assert!(m("1.2.3", "1.4.0"));
}

#[test]
fn tilde_examples() {
    assert!(m("~1.2.3", "1.2.9"));
    assert!(!m("~1.2.3", "1.3.0"));
    assert!(!m("~1.2.3", "1.2.2"));
    assert!(m("~1", "1.9.0"));
}

#[test]
fn disjunction() {
    assert!(m("<1.0.0 || >=2.0.0", "2.5.0"));
    assert!(m("<1.0.0 || >=2.0.0", "0.5.0"));
    assert!(!m("<1.0.0 || >=2.0.0", "1.5.0"));
}

#[test]
fn conjunction_by_whitespace() {
    assert!(m(">=1.2.0 <2.0.0", "1.5.0"));
    assert!(!m(">=1.2.0  <2.0.0", "2.0.0"));
    assert!(!m(">=1.2.0\t<2.0.0", "1.1.0"));
}

#[test]
fn operators_on_partial_versions() {
    assert!(m(">1.2", "1.3.0"));
    assert!(!m(">1.2", "1.2.9"));
    assert!(m("<=1.2", "1.2.9"));
    assert!(!m("<1.2", "1.2.0"));
    assert!(m("=1.2", "1.2.7"));
    assert!(m("1.2.*", "1.2.7"));
    assert!(!m("1.2.x", "1.3.0"));
    assert!(m("1.X", "1.3.0"));
    assert!(m("*", "3.4.5"));
}

#[test]
fn wildcard_op_is_kept() {
    let r = parse_range("1.*").unwrap();
    let c: &Comparator = &r.sets[0][0];
    assert_eq!(c.op, Op::Wildcard);
    assert_eq!((c.major, c.minor, c.patch), (1, None, None));
    let r = parse_range(">=1.2.3-beta.2").unwrap();
    let c = &r.sets[0][0];
    assert_eq!(c.op, Op::GreaterEq);
    assert_eq!(c.pre.iter().collect::<String>(), "beta.2");
}

#[test]
fn prerelease_visibility() {
    assert!(!m(">=1.0.0", "1.1.0-alpha"));
    assert!(m(">=1.1.0-alpha", "1.1.0-beta"));
    assert!(!m(">=1.1.0-alpha", "1.2.0-alpha"));
    assert!(m(">=1.1.0-alpha", "1.2.0"));
    assert!(!m("<1.0.0 || >=1.1.0-alpha", "1.2.0-alpha"));
}

#[test]
fn malformed_ranges() {
    for text in ["", "   ", "1.0.0 ||", "|| 1.0.0", "bad-range", ">>1.0.0", "1.0.0 | 2.0.0", ">= 1.0.0", "1.*.3"] {
        assert!(matches!(parse_range(text), Err(ParseError::Malformed)), "{}", text);
    }
}

#[test]
fn single_sets_agree_with_semver() {
    let ranges = [">=1.2.3", ">1.2", "<2", "<=1.2.3-rc.1", "~1.2", "~1.2.3-beta", "^0.1", "^0", "=1.2.3", "1.2.*"];
    let versions = ["0.0.1", "0.1.5", "1.2.0", "1.2.3-alpha", "1.2.3-rc.1", "1.2.3", "1.2.9", "1.3.0", "2.0.0"];
    for r in ranges {
        let req = semver::VersionReq::parse(r).unwrap();
        for s in versions {
            let ver = semver::Version::parse(s).unwrap();
            assert_eq!(m(r, s), req.matches(&ver), "{} {}", r, s);
        }
    }
}

#[test]
fn check_match_examples() {
    assert!(!is_match("bad-range", "1.0.0"));
    assert!(!is_match(">=1.0.0", "1.0"));
    assert!(is_match(">=1.0.0", "1.0.0"));
}

#[test]
fn check_compare_examples() {
    assert_eq!(cmp("1.0.0", "2.0.0"), Ok(-1));
    assert_eq!(cmp("2.0.0", "1.0.0"), Ok(1));
    assert_eq!(cmp("1.0.0+x", "1.0.0"), Ok(0));
    assert_eq!(cmp("1.0", "1.0.0"), Err(ParseError::Malformed));
    assert_eq!(cmp("1.0.0", "junk"), Err(ParseError::Malformed));
}

#[test]
fn check_valid_examples() {
    assert!(valid("1.0.0"));
    assert!(!valid("v1.0.0"));
    assert!(valid("1.0.0-alpha+001"));
}
