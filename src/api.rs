//! The three operations offered to outside callers, each on raw texts.
use vstd::prelude::*;
use std::cmp::Ordering;
use crate::version::{
    VersionView, ParseError, parse_version, is_valid, is_version_text, spell, valid_pre, valid_build,
    lemma_spelling_unique,
};
use crate::order::{cmp_version, compare};
use crate::range::{range_of, range_matches, parse_range};

verus! {

/// `v` is a well-formed version written `s`.
pub open spec fn spells(v: VersionView, s: Seq<char>) -> bool {
    valid_pre(v.pre) && valid_build(v.build) && spell(v.major, v.minor, v.patch, v.pre, v.build) == s
}

/// The three-way convention: -1, 0 or 1.
pub open spec fn sign(o: Ordering) -> int {
    match o {
        Ordering::Less => -1,
        Ordering::Equal => 0,
        Ordering::Greater => 1,
    }
}

/// No version is written `s` unless `s` is a version text, and then exactly one.
proof fn lemma_spells(s: Seq<char>, v: VersionView)
    requires
        spells(v, s),
    ensures
        is_version_text(s),
        forall|w: VersionView| spells(w, s) ==> w == v,
{
    assert(spell(v.major, v.minor, v.patch, v.pre, v.build) == s);
    assert forall|w: VersionView| spells(w, s) implies w == v by {
        lemma_spelling_unique(w.major, w.minor, w.patch, w.pre, w.build, v.major, v.minor, v.patch, v.pre, v.build);
    }
}

/// Writing a well-formed version out (`Version::text`) and parsing the text back
/// gives the same version: the text is a version text, and every well-formed
/// version written the same way equals the first.
pub proof fn lemma_round_trip(v: VersionView, w: VersionView)
    requires
        valid_pre(v.pre),
        valid_build(v.build),
    ensures
        is_version_text(spell(v.major, v.minor, v.patch, v.pre, v.build)),
        spells(w, spell(v.major, v.minor, v.patch, v.pre, v.build)) ==> w == v,
{
    lemma_spells(spell(v.major, v.minor, v.patch, v.pre, v.build), v);
}

/// For every triple of numbers, the text `major.minor.patch` parses, and back to
/// that same triple, with no pre-release and no build metadata.
pub proof fn lemma_triple_round_trip(major: u64, minor: u64, patch: u64, w: VersionView)
    ensures
        is_version_text(spell(major, minor, patch, Seq::empty(), Seq::empty())),
        spells(w, spell(major, minor, patch, Seq::empty(), Seq::empty())) ==> w.major == major
            && w.minor == minor && w.patch == patch && w.pre.len() == 0 && w.build.len() == 0,
{
    let v = VersionView { major, minor, patch, pre: Seq::empty(), build: Seq::empty() };
    lemma_round_trip(v, w);
}

proof fn lemma_no_spelling(s: Seq<char>)
    requires
        !is_version_text(s),
    ensures
        forall|w: VersionView| !spells(w, s),
{
    assert forall|w: VersionView| !spells(w, s) by {
        if spells(w, s) {
            lemma_spells(s, w);
        }
    }
}

/// Whether the version text `ver` satisfies the range text `req`; `false` when
/// either of them does not parse.
pub fn is_match(req: &str, ver: &str) -> (r: bool)
    ensures
        r == (range_of(req@) is Some && exists|v: VersionView|
            spells(v, ver@) && range_matches(range_of(req@)->0, v)),
{
    let g = match parse_range(req) {
        Ok(g) => g,
        Err(_) => return false,
    };
    let v = match parse_version(ver) {
        Ok(v) => v,
        Err(_) => {
            proof {
                lemma_no_spelling(ver@);
            }
            return false;
        },
    };
    proof {
        assert(spells(v@, ver@));
        lemma_spells(ver@, v@);
    }
    let r = crate::range::matches(&g, &v);
    proof {
        assert(range_of(req@) == Some(g@));
        if r {
            assert(spells(v@, ver@) && range_matches(g@, v@));
            assert(exists|w: VersionView| spells(w, ver@) && range_matches(g@, w));
        } else {
            assert(!exists|w: VersionView| spells(w, ver@) && range_matches(g@, w));
        }
    }
    r
}

/// The precedence of two version texts as -1, 0 or 1; `Malformed` when either of
/// them does not parse.
pub fn cmp(ver1: &str, ver2: &str) -> (r: Result<i32, ParseError>)
    ensures
        r is Ok <==> is_version_text(ver1@) && is_version_text(ver2@),
        r matches Ok(x) ==> forall|a: VersionView, b: VersionView|
            spells(a, ver1@) && spells(b, ver2@) ==> x as int == sign(cmp_version(a, b)),
{
    let a = match parse_version(ver1) {
        Ok(a) => a,
        Err(e) => return Err(e),
    };
    let b = match parse_version(ver2) {
        Ok(b) => b,
        Err(e) => return Err(e),
    };
    proof {
        assert(spells(a@, ver1@));
        assert(spells(b@, ver2@));
        lemma_spells(ver1@, a@);
        lemma_spells(ver2@, b@);
    }
    match compare(&a, &b) {
        Ordering::Less => Ok(-1),
        Ordering::Equal => Ok(0),
        Ordering::Greater => Ok(1),
    }
}

/// Whether `ver` is a version text.
pub fn valid(ver: &str) -> (r: bool)
    ensures
        r == is_version_text(ver@),
{
    is_valid(ver)
}

} // verus!
