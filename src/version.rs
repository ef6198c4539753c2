//! Versions: the `major.minor.patch[-pre][+build]` grammar and its model.
use vstd::prelude::*;
use crate::text::{decimal, digit_char, is_digit, split_dots};

verus! {

/// The one way in which parsing fails: the text does not follow the grammar.
#[derive(Debug, Clone, Copy, PartialEq, Eq, Structural)]
pub enum ParseError {
    Malformed,
}

/// A character allowed in a pre-release or build identifier: `[0-9A-Za-z-]`.
pub open spec fn ident_char(c: char) -> bool {
    is_digit(c) || ('a' <= c && c <= 'z') || ('A' <= c && c <= 'Z') || c == '-'
}

/// An identifier made of digits only.
pub open spec fn is_numeric(x: Seq<char>) -> bool {
    forall|j: int| 0 <= j < x.len() ==> is_digit(#[trigger] x[j])
}

/// A non-empty identifier of allowed characters.
pub open spec fn ident_ok(x: Seq<char>) -> bool {
    x.len() > 0 && forall|j: int| 0 <= j < x.len() ==> ident_char(#[trigger] x[j])
}

/// A pre-release identifier: as `ident_ok`, and a numeric one has no leading zero.
pub open spec fn pre_ident_ok(x: Seq<char>) -> bool {
    ident_ok(x) && !(is_numeric(x) && x.len() > 1 && x[0] == '0')
}

/// Every character is an identifier character or a dot.
pub open spec fn dotted_chars(p: Seq<char>) -> bool {
    forall|j: int| 0 <= j < p.len() ==> ident_char(#[trigger] p[j]) || p[j] == '.'
}

/// A dotted pre-release text: empty (no pre-release) or well-formed identifiers.
pub open spec fn valid_pre(p: Seq<char>) -> bool {
    p.len() == 0 || dotted_chars(p) && forall|k: int|
        0 <= k < split_dots(p).len() ==> pre_ident_ok(#[trigger] split_dots(p)[k])
}

/// A dotted build-metadata text: empty (no build metadata) or well-formed identifiers.
pub open spec fn valid_build(b: Seq<char>) -> bool {
    b.len() == 0 || dotted_chars(b) && forall|k: int|
        0 <= k < split_dots(b).len() ==> ident_ok(#[trigger] split_dots(b)[k])
}

/// The text `major.minor.patch`, then `-pre` if `pre` is not empty, then `+build`
/// if `build` is not empty.
pub open spec fn spell(major: u64, minor: u64, patch: u64, pre: Seq<char>, build: Seq<char>) -> Seq<char> {
    decimal(major as nat) + (seq!['.'] + (decimal(minor as nat) + (seq!['.'] + (decimal(patch as nat)
        + (pre_part(pre) + build_part(build))))))
}

/// `s` is a version text: it spells some well-formed version whose numbers fit in 64 bits.
pub open spec fn is_version_text(s: Seq<char>) -> bool {
    exists|major: u64, minor: u64, patch: u64, pre: Seq<char>, build: Seq<char>|
        valid_pre(pre) && valid_build(build) && #[trigger] spell(major, minor, patch, pre, build) == s
}

/// A parsed version. The pre-release and build metadata are kept as their dotted
/// texts; `pre_identifiers` gives the identifiers of the pre-release.
#[derive(Debug, Clone)]
pub struct Version {
    pub major: u64,
    pub minor: u64,
    pub patch: u64,
    pub pre: Vec<char>,
    pub build: Vec<char>,
}

/// What a version holds, as plain values.
pub ghost struct VersionView {
    pub major: u64,
    pub minor: u64,
    pub patch: u64,
    pub pre: Seq<char>,
    pub build: Seq<char>,
}

impl View for Version {
    type V = VersionView;

    open spec fn view(&self) -> VersionView {
        VersionView {
            major: self.major,
            minor: self.minor,
            patch: self.patch,
            pre: self.pre@,
            build: self.build@,
        }
    }
}

impl Version {
    pub open spec fn spelling(&self) -> Seq<char> {
        spell(self.major, self.minor, self.patch, self.pre@, self.build@)
    }

    pub open spec fn well_formed(&self) -> bool {
        valid_pre(self.pre@) && valid_build(self.build@)
    }

    pub open spec fn pre_identifiers(&self) -> Seq<Seq<char>> {
        if self.pre@.len() == 0 {
            Seq::empty()
        } else {
            split_dots(self.pre@)
        }
    }
}

fn push_decimal(out: &mut Vec<char>, n: u64)
    ensures
        final(out)@ == old(out)@ + decimal(n as nat),
    decreases n,
{
    if n >= 10 {
        push_decimal(out, n / 10);
    }
    let d: u8 = (n % 10) as u8;
    out.push((48 + d) as char);
    proof {
        if n < 10 {
            assert(decimal(n as nat) =~= seq![digit_char(n as nat)]);
        }
        assert(old(out)@ + decimal(n as nat) =~= old(out)@ + (if n >= 10 { decimal((n / 10) as nat) } else { Seq::empty() }).push(digit_char((n % 10) as nat)));
    }
}

fn push_all(out: &mut Vec<char>, s: &Vec<char>)
    ensures
        final(out)@ == old(out)@ + s@,
{
    let mut i: usize = 0;
    while i < s.len()
        invariant
            i <= s.len(),
            out@ == old(out)@ + s@.take(i as int),
        decreases s.len() - i,
    {
        out.push(s[i]);
        i = i + 1;
        assert(s@.take(i as int) =~= s@.take(i - 1).push(s@[i - 1]));
    }
    assert(s@.take(i as int) =~= s@);
}

impl Version {
    /// The text of this version: `major.minor.patch`, then `-pre` and `+build`
    /// where they are present.
    pub fn text(&self) -> (r: Vec<char>)
        ensures
            r@ == self.spelling(),
    {
        let mut out: Vec<char> = Vec::new();
        push_decimal(&mut out, self.major);
        out.push('.');
        push_decimal(&mut out, self.minor);
        out.push('.');
        push_decimal(&mut out, self.patch);
        if self.pre.len() > 0 {
            out.push('-');
            push_all(&mut out, &self.pre);
        }
        if self.build.len() > 0 {
            out.push('+');
            push_all(&mut out, &self.build);
        }
        assert(out@ =~= self.spelling());
        out
    }
}

/// Relies on semver::Version::parse: it accepts exactly the texts that
/// `is_version_text` describes (no leading zeros, numbers within `u64`, non-empty
/// identifiers of `[0-9A-Za-z-]`, no leading zero in a numeric pre-release
/// identifier, nothing before or after), and keeps the numbers and the dotted
/// pre-release and build texts as written.
#[verifier::external_body]
fn semver_version(s: &str) -> (r: Option<Version>)
    ensures
        r is Some <==> is_version_text(s@),
        r matches Some(v) ==> v.well_formed() && v.spelling() == s@,
{
    match semver::Version::parse(s) {
        Ok(v) => Some(Version {
            major: v.major,
            minor: v.minor,
            patch: v.patch,
            pre: v.pre.as_str().chars().collect(),
            build: v.build.as_str().chars().collect(),
        }),
        Err(_) => None,
    }
}

/// Parses a version text.
pub fn parse_version(s: &str) -> (r: Result<Version, ParseError>)
    ensures
        r is Ok <==> is_version_text(s@),
        r matches Ok(v) ==> v.well_formed() && v.spelling() == s@,
{
    match semver_version(s) {
        Some(v) => Ok(v),
        None => Err(ParseError::Malformed),
    }
}

/// Whether `s` is a version text.
pub fn is_valid(s: &str) -> (r: bool)
    ensures
        r == is_version_text(s@),
{
    semver_version(s).is_some()
}

/// Where two texts `x + t` and `y + u` agree, `x` and `y` hold no `stop`
/// character and `t` and `u` are empty or begin with one, the split is the same.
proof fn lemma_split_at_stop(x: Seq<char>, t: Seq<char>, y: Seq<char>, u: Seq<char>, stop: spec_fn(char) -> bool)
    requires
        x + t == y + u,
        forall|j: int| 0 <= j < x.len() ==> !stop(#[trigger] x[j]),
        forall|j: int| 0 <= j < y.len() ==> !stop(#[trigger] y[j]),
        t.len() == 0 || stop(t[0]),
        u.len() == 0 || stop(u[0]),
    ensures
        x == y,
        t == u,
{
    if x.len() < y.len() {
        assert((x + t)[x.len() as int] == y[x.len() as int]);
        assert(false);
    } else if y.len() < x.len() {
        assert((y + u)[y.len() as int] == x[y.len() as int]);
        assert(false);
    }
    assert(x =~= (x + t).take(x.len() as int));
    assert(y =~= (y + u).take(y.len() as int));
    assert(t =~= (x + t).skip(x.len() as int));
    assert(u =~= (y + u).skip(y.len() as int));
}

proof fn lemma_decimal_digits(n: nat)
    ensures
        decimal(n).len() > 0,
        forall|j: int| 0 <= j < decimal(n).len() ==> is_digit(#[trigger] decimal(n)[j]),
    decreases n,
{
    if n >= 10 {
        lemma_decimal_digits(n / 10);
    }
}

proof fn lemma_decimal_injective(a: nat, b: nat)
    requires
        decimal(a) == decimal(b),
    ensures
        a == b,
    decreases a,
{
    lemma_decimal_digits(a / 10);
    lemma_decimal_digits(b / 10);
    if a < 10 && b < 10 {
        assert(decimal(a)[0] == digit_char(a));
    } else if a >= 10 && b >= 10 {
        assert(decimal(a).last() == digit_char(a % 10));
        assert(decimal(a).drop_last() =~= decimal(a / 10));
        assert(decimal(b).drop_last() =~= decimal(b / 10));
        lemma_decimal_injective(a / 10, b / 10);
    } else if a < 10 {
        assert(decimal(b).len() == decimal(b / 10).len() + 1);
    } else {
        assert(decimal(a).len() == decimal(a / 10).len() + 1);
    }
}

/// Two texts that begin with a numeral followed by a non-digit (or nothing)
/// agree on the numeral and on what follows it.
proof fn lemma_number_prefix(a: nat, t: Seq<char>, b: nat, u: Seq<char>)
    requires
        decimal(a) + t == decimal(b) + u,
        t.len() == 0 || !is_digit(t[0]),
        u.len() == 0 || !is_digit(u[0]),
    ensures
        a == b,
        t == u,
{
    lemma_decimal_digits(a);
    lemma_decimal_digits(b);
    let nondigit = |c: char| !is_digit(c);
    lemma_split_at_stop(decimal(a), t, decimal(b), u, nondigit);
    lemma_decimal_injective(a, b);
}

/// `-pre`, or nothing when there is no pre-release.
pub open spec fn pre_part(pre: Seq<char>) -> Seq<char> {
    if pre.len() == 0 {
        Seq::<char>::empty()
    } else {
        seq!['-'] + pre
    }
}

/// `+build`, or nothing when there is no build metadata.
pub open spec fn build_part(build: Seq<char>) -> Seq<char> {
    if build.len() == 0 {
        Seq::<char>::empty()
    } else {
        seq!['+'] + build
    }
}

proof fn lemma_tail_unique(pre1: Seq<char>, build1: Seq<char>, pre2: Seq<char>, build2: Seq<char>)
    requires
        valid_pre(pre1),
        valid_pre(pre2),
        pre_part(pre1) + build_part(build1) == pre_part(pre2) + build_part(build2),
    ensures
        pre1 == pre2,
        build1 == build2,
{
    let t1 = pre_part(pre1) + build_part(build1);
    let t2 = pre_part(pre2) + build_part(build2);
    if pre1.len() == 0 && pre2.len() > 0 {
        assert(t2[0] == '-');
        assert(t1 =~= build_part(build1));
        assert(false);
    } else if pre2.len() == 0 && pre1.len() > 0 {
        assert(t1[0] == '-');
        assert(t2 =~= build_part(build2));
        assert(false);
    } else if pre1.len() == 0 {
        assert(t1 =~= build_part(build1));
        assert(t2 =~= build_part(build2));
        assert(pre1 =~= pre2);
        if build1.len() > 0 {
            assert(build1 =~= build_part(build1).drop_first());
            assert(build2 =~= build_part(build2).drop_first());
        }
    } else {
        assert(t1.drop_first() =~= pre1 + build_part(build1));
        assert(t2.drop_first() =~= pre2 + build_part(build2));
        let stop = |c: char| c == '+';
        assert forall|j: int| 0 <= j < pre1.len() implies !stop(#[trigger] pre1[j]) by {
            assert(ident_char(pre1[j]) || pre1[j] == '.');
        }
        assert forall|j: int| 0 <= j < pre2.len() implies !stop(#[trigger] pre2[j]) by {
            assert(ident_char(pre2[j]) || pre2[j] == '.');
        }
        lemma_split_at_stop(pre1, build_part(build1), pre2, build_part(build2), stop);
        if build1.len() > 0 {
            assert(build1 =~= build_part(build1).drop_first());
            assert(build2 =~= build_part(build2).drop_first());
        }
    }
}

/// A well-formed version is determined by its text: two that are spelt alike
/// have the same numbers, pre-release and build metadata.
pub proof fn lemma_spelling_unique(
    major1: u64, minor1: u64, patch1: u64, pre1: Seq<char>, build1: Seq<char>,
    major2: u64, minor2: u64, patch2: u64, pre2: Seq<char>, build2: Seq<char>,
)
    requires
        valid_pre(pre1),
        valid_pre(pre2),
        spell(major1, minor1, patch1, pre1, build1) == spell(major2, minor2, patch2, pre2, build2),
    ensures
        major1 == major2,
        minor1 == minor2,
        patch1 == patch2,
        pre1 == pre2,
        build1 == build2,
{
    let tail1 = pre_part(pre1) + build_part(build1);
    let tail2 = pre_part(pre2) + build_part(build2);
    let s1 = seq!['.'] + (decimal(patch1 as nat) + tail1);
    let s2 = seq!['.'] + (decimal(patch2 as nat) + tail2);
    let r1 = seq!['.'] + (decimal(minor1 as nat) + s1);
    let r2 = seq!['.'] + (decimal(minor2 as nat) + s2);
    lemma_number_prefix(major1 as nat, r1, major2 as nat, r2);
    assert(r1.drop_first() =~= decimal(minor1 as nat) + s1);
    assert(r2.drop_first() =~= decimal(minor2 as nat) + s2);
    lemma_number_prefix(minor1 as nat, s1, minor2 as nat, s2);
    assert(s1.drop_first() =~= decimal(patch1 as nat) + tail1);
    assert(s2.drop_first() =~= decimal(patch2 as nat) + tail2);
    if tail1.len() > 0 {
        if pre1.len() > 0 {
            assert(tail1[0] == '-');
        } else {
            assert(tail1[0] == '+');
        }
    }
    if tail2.len() > 0 {
        if pre2.len() > 0 {
            assert(tail2[0] == '-');
        } else {
            assert(tail2[0] == '+');
        }
    }
    lemma_number_prefix(patch1 as nat, tail1, patch2 as nat, tail2);
    lemma_tail_unique(pre1, build1, pre2, build2);
}

} // verus!
