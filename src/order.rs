//! Precedence of versions.
use vstd::prelude::*;
use std::cmp::Ordering;
use crate::text::{is_digit, split_dots, split_dots_exec};
use crate::version::{Version, VersionView, is_numeric};

verus! {

/// Numeric three-way comparison.
pub open spec fn cmp_int(a: int, b: int) -> Ordering {
    if a < b {
        Ordering::Less
    } else if a > b {
        Ordering::Greater
    } else {
        Ordering::Equal
    }
}

/// Lexical order by code point; a proper prefix is less.
pub open spec fn cmp_chars(a: Seq<char>, b: Seq<char>) -> Ordering
    decreases a.len(),
{
    if a.len() == 0 {
        if b.len() == 0 {
            Ordering::Equal
        } else {
            Ordering::Less
        }
    } else if b.len() == 0 {
        Ordering::Greater
    } else if a[0] < b[0] {
        Ordering::Less
    } else if a[0] > b[0] {
        Ordering::Greater
    } else {
        cmp_chars(a.drop_first(), b.drop_first())
    }
}

/// Order of two pre-release identifiers. Numeric ones compare by length, then
/// lexically: without leading zeros that is their numeric order. A numeric one is
/// below an alphanumeric one; two alphanumeric ones compare lexically.
pub open spec fn cmp_ident(a: Seq<char>, b: Seq<char>) -> Ordering {
    if is_numeric(a) && is_numeric(b) {
        if a.len() != b.len() {
            cmp_int(a.len() as int, b.len() as int)
        } else {
            cmp_chars(a, b)
        }
    } else if is_numeric(a) {
        Ordering::Less
    } else if is_numeric(b) {
        Ordering::Greater
    } else {
        cmp_chars(a, b)
    }
}

/// Identifier by identifier; when one sequence is a proper prefix of the other,
/// the shorter is less.
pub open spec fn cmp_idents(a: Seq<Seq<char>>, b: Seq<Seq<char>>) -> Ordering
    decreases a.len(),
{
    if a.len() == 0 {
        if b.len() == 0 {
            Ordering::Equal
        } else {
            Ordering::Less
        }
    } else if b.len() == 0 {
        Ordering::Greater
    } else if cmp_ident(a[0], b[0]) != Ordering::Equal {
        cmp_ident(a[0], b[0])
    } else {
        cmp_idents(a.drop_first(), b.drop_first())
    }
}

/// Order of two dotted pre-release texts: no pre-release is above any pre-release.
pub open spec fn cmp_pre(a: Seq<char>, b: Seq<char>) -> Ordering {
    if a.len() == 0 && b.len() == 0 {
        Ordering::Equal
    } else if a.len() == 0 {
        Ordering::Greater
    } else if b.len() == 0 {
        Ordering::Less
    } else {
        cmp_idents(split_dots(a), split_dots(b))
    }
}

/// Precedence: major, minor and patch numerically, then the pre-release. Build
/// metadata takes no part.
pub open spec fn cmp_version(a: VersionView, b: VersionView) -> Ordering {
    if a.major != b.major {
        cmp_int(a.major as int, b.major as int)
    } else if a.minor != b.minor {
        cmp_int(a.minor as int, b.minor as int)
    } else if a.patch != b.patch {
        cmp_int(a.patch as int, b.patch as int)
    } else {
        cmp_pre(a.pre, b.pre)
    }
}

fn cmp_u64(a: u64, b: u64) -> (r: Ordering)
    ensures
        r == cmp_int(a as int, b as int),
{
    if a < b {
        Ordering::Less
    } else if a > b {
        Ordering::Greater
    } else {
        Ordering::Equal
    }
}

fn compare_chars(a: &Vec<char>, b: &Vec<char>) -> (r: Ordering)
    ensures
        r == cmp_chars(a@, b@),
{
    let mut i: usize = 0;
    assert(a@.skip(0) =~= a@);
    assert(b@.skip(0) =~= b@);
    while i < a.len() && i < b.len()
        invariant
            i <= a.len(),
            i <= b.len(),
            cmp_chars(a@, b@) == cmp_chars(a@.skip(i as int), b@.skip(i as int)),
        decreases a.len() - i,
    {
        assert(a@.skip(i as int)[0] == a@[i as int]);
        assert(b@.skip(i as int)[0] == b@[i as int]);
        if a[i] < b[i] {
            return Ordering::Less;
        } else if a[i] > b[i] {
            return Ordering::Greater;
        }
        assert(a@.skip(i as int).drop_first() =~= a@.skip(i + 1));
        assert(b@.skip(i as int).drop_first() =~= b@.skip(i + 1));
        i = i + 1;
    }
    assert(a@.skip(i as int).len() == a.len() - i);
    assert(b@.skip(i as int).len() == b.len() - i);
    cmp_u64(a.len() as u64, b.len() as u64)
}

fn numeric(x: &Vec<char>) -> (r: bool)
    ensures
        r == is_numeric(x@),
{
    let mut i: usize = 0;
    while i < x.len()
        invariant
            i <= x.len(),
            forall|j: int| 0 <= j < i ==> is_digit(#[trigger] x@[j]),
        decreases x.len() - i,
    {
        if !('0' <= x[i] && x[i] <= '9') {
            return false;
        }
        i = i + 1;
    }
    true
}

fn compare_ident(a: &Vec<char>, b: &Vec<char>) -> (r: Ordering)
    ensures
        r == cmp_ident(a@, b@),
{
    let na = numeric(a);
    let nb = numeric(b);
    if na && nb {
        if a.len() != b.len() {
            cmp_u64(a.len() as u64, b.len() as u64)
        } else {
            compare_chars(a, b)
        }
    } else if na {
        Ordering::Less
    } else if nb {
        Ordering::Greater
    } else {
        compare_chars(a, b)
    }
}

fn compare_idents(a: &Vec<Vec<char>>, b: &Vec<Vec<char>>) -> (r: Ordering)
    ensures
        r == cmp_idents(a@.map_values(|p: Vec<char>| p@), b@.map_values(|p: Vec<char>| p@)),
{
    let ghost av = a@.map_values(|p: Vec<char>| p@);
    let ghost bv = b@.map_values(|p: Vec<char>| p@);
    let mut i: usize = 0;
    assert(av.skip(0) =~= av);
    assert(bv.skip(0) =~= bv);
    while i < a.len() && i < b.len()
        invariant
            i <= a.len(),
            i <= b.len(),
            av == a@.map_values(|p: Vec<char>| p@),
            bv == b@.map_values(|p: Vec<char>| p@),
            cmp_idents(av, bv) == cmp_idents(av.skip(i as int), bv.skip(i as int)),
        decreases a.len() - i,
    {
        assert(av.skip(i as int)[0] == a@[i as int]@);
        assert(bv.skip(i as int)[0] == b@[i as int]@);
        let c = compare_ident(&a[i], &b[i]);
        assert(av.skip(i as int).len() > 0 && bv.skip(i as int).len() > 0);
        assert(c == cmp_ident(av.skip(i as int)[0], bv.skip(i as int)[0]));
        match c {
            Ordering::Equal => {},
            _ => {
                return c;
            },
        }
        assert(av.skip(i as int).drop_first() =~= av.skip(i + 1));
        assert(bv.skip(i as int).drop_first() =~= bv.skip(i + 1));
        i = i + 1;
    }
    assert(av.skip(i as int).len() == a.len() - i);
    assert(bv.skip(i as int).len() == b.len() - i);
    cmp_u64(a.len() as u64, b.len() as u64)
}

pub(crate) fn compare_pre(a: &Vec<char>, b: &Vec<char>) -> (r: Ordering)
    ensures
        r == cmp_pre(a@, b@),
{
    if a.len() == 0 && b.len() == 0 {
        Ordering::Equal
    } else if a.len() == 0 {
        Ordering::Greater
    } else if b.len() == 0 {
        Ordering::Less
    } else {
        let ia = split_dots_exec(a);
        let ib = split_dots_exec(b);
        compare_idents(&ia, &ib)
    }
}

/// Compares two versions by precedence.
pub fn compare(a: &Version, b: &Version) -> (r: Ordering)
    ensures
        r == cmp_version(a@, b@),
{
    if a.major != b.major {
        cmp_u64(a.major, b.major)
    } else if a.minor != b.minor {
        cmp_u64(a.minor, b.minor)
    } else if a.patch != b.patch {
        cmp_u64(a.patch, b.patch)
    } else {
        compare_pre(&a.pre, &b.pre)
    }
}

// ---------------------------------------------------------------------------
// Precedence is a total order

/// The reverse of an ordering.
pub open spec fn flip(o: Ordering) -> Ordering {
    match o {
        Ordering::Less => Ordering::Greater,
        Ordering::Equal => Ordering::Equal,
        Ordering::Greater => Ordering::Less,
    }
}

proof fn lemma_chars(a: Seq<char>, b: Seq<char>, c: Seq<char>)
    ensures
        cmp_chars(a, b) == flip(cmp_chars(b, a)),
        cmp_chars(a, b) == Ordering::Equal <==> a == b,
        cmp_chars(a, b) == Ordering::Less && cmp_chars(b, c) == Ordering::Less ==> cmp_chars(a, c)
            == Ordering::Less,
    decreases a.len(),
{
    if a.len() > 0 && b.len() > 0 && c.len() > 0 {
        lemma_chars(a.drop_first(), b.drop_first(), c.drop_first());
        assert(a =~= seq![a[0]] + a.drop_first());
        assert(b =~= seq![b[0]] + b.drop_first());
    } else if a.len() > 0 && b.len() > 0 {
        lemma_chars(a.drop_first(), b.drop_first(), c);
        assert(a =~= seq![a[0]] + a.drop_first());
        assert(b =~= seq![b[0]] + b.drop_first());
    }
    if a.len() == 0 && b.len() == 0 {
        assert(a =~= b);
    }
}

proof fn lemma_ident(a: Seq<char>, b: Seq<char>, c: Seq<char>)
    ensures
        cmp_ident(a, b) == flip(cmp_ident(b, a)),
        cmp_ident(a, b) == Ordering::Equal <==> a == b,
        cmp_ident(a, b) == Ordering::Less && cmp_ident(b, c) == Ordering::Less ==> cmp_ident(a, c)
            == Ordering::Less,
{
    lemma_chars(a, b, c);
    lemma_chars(b, a, c);
}

proof fn lemma_idents(a: Seq<Seq<char>>, b: Seq<Seq<char>>, c: Seq<Seq<char>>)
    ensures
        cmp_idents(a, b) == flip(cmp_idents(b, a)),
        cmp_idents(a, b) == Ordering::Equal <==> a == b,
        cmp_idents(a, b) == Ordering::Less && cmp_idents(b, c) == Ordering::Less ==> cmp_idents(a, c)
            == Ordering::Less,
    decreases a.len(),
{
    if a.len() > 0 && b.len() > 0 {
        lemma_ident(a[0], b[0], if c.len() > 0 { c[0] } else { b[0] });
        lemma_ident(b[0], a[0], b[0]);
        if c.len() > 0 {
            lemma_ident(b[0], c[0], a[0]);
            lemma_ident(a[0], c[0], b[0]);
            lemma_idents(a.drop_first(), b.drop_first(), c.drop_first());
        } else {
            lemma_idents(a.drop_first(), b.drop_first(), c);
        }
        assert(a =~= seq![a[0]] + a.drop_first());
        assert(b =~= seq![b[0]] + b.drop_first());
    }
    if a.len() == 0 && b.len() == 0 {
        assert(a =~= b);
    }
}

proof fn lemma_pre(a: Seq<char>, b: Seq<char>, c: Seq<char>)
    ensures
        cmp_pre(a, b) == flip(cmp_pre(b, a)),
        cmp_pre(a, a) == Ordering::Equal,
        cmp_pre(a, b) == Ordering::Less && cmp_pre(b, c) == Ordering::Less ==> cmp_pre(a, c) == Ordering::Less,
        cmp_pre(a, b) == Ordering::Equal ==> cmp_pre(a, c) == cmp_pre(b, c),
{
    lemma_idents(split_dots(a), split_dots(b), split_dots(c));
    lemma_idents(split_dots(a), split_dots(a), split_dots(c));
    lemma_idents(split_dots(a), split_dots(c), split_dots(b));
    lemma_idents(split_dots(b), split_dots(c), split_dots(a));
}

/// Precedence is a total order on versions: every version is equal to itself;
/// `a` is below `b` exactly when `b` is above `a`, so exactly one of below, equal
/// and above holds of any two; below is transitive; and versions of equal
/// precedence compare alike with every third one.
pub proof fn lemma_total_order(a: VersionView, b: VersionView, c: VersionView)
    ensures
        cmp_version(a, a) == Ordering::Equal,
        cmp_version(a, b) == flip(cmp_version(b, a)),
        cmp_version(a, b) == Ordering::Less && cmp_version(b, c) == Ordering::Less ==> cmp_version(a, c)
            == Ordering::Less,
        cmp_version(a, b) == Ordering::Equal ==> cmp_version(a, c) == cmp_version(b, c),
{
    lemma_pre(a.pre, b.pre, c.pre);
    lemma_pre(b.pre, a.pre, c.pre);
}

// ---------------------------------------------------------------------------
// Numeric identifiers compare by value

/// The value of a decimal digit.
pub open spec fn digit_value(c: char) -> nat {
    if c == '1' { 1 } else if c == '2' { 2 } else if c == '3' { 3 } else if c == '4' { 4 }
    else if c == '5' { 5 } else if c == '6' { 6 } else if c == '7' { 7 } else if c == '8' { 8 }
    else if c == '9' { 9 } else { 0 }
}

/// Ten to the power `n`.
pub open spec fn pow10(n: nat) -> nat
    decreases n,
{
    if n == 0 {
        1
    } else {
        10 * pow10((n - 1) as nat)
    }
}

/// The number that a numeral stands for.
pub open spec fn numeral_value(s: Seq<char>) -> nat
    decreases s.len(),
{
    if s.len() == 0 {
        0
    } else {
        digit_value(s[0]) * pow10((s.len() - 1) as nat) + numeral_value(s.drop_first())
    }
}

/// A numeral without a superfluous leading zero.
pub open spec fn canonical_numeral(s: Seq<char>) -> bool {
    s.len() > 0 && is_numeric(s) && (s.len() == 1 || s[0] != '0')
}

proof fn lemma_pow10_positive(n: nat)
    ensures
        pow10(n) >= 1,
    decreases n,
{
    if n > 0 {
        lemma_pow10_positive((n - 1) as nat);
    }
}

proof fn lemma_numeral_below(s: Seq<char>)
    requires
        is_numeric(s),
    ensures
        numeral_value(s) < pow10(s.len()),
    decreases s.len(),
{
    if s.len() > 0 {
        let t = s.drop_first();
        assert(is_numeric(t)) by {
            assert forall|j: int| 0 <= j < t.len() implies is_digit(#[trigger] t[j]) by {
                assert(t[j] == s[j + 1]);
            }
        }
        lemma_numeral_below(t);
        let p = pow10(t.len());
        let d = digit_value(s[0]);
        assert(d <= 9);
        assert(pow10(s.len()) == 10 * p);
        assert(d * p + numeral_value(t) < 10 * p) by (nonlinear_arith)
            requires
                d <= 9,
                numeral_value(t) < p,
        ;
    }
}

proof fn lemma_numeral_at_least(s: Seq<char>)
    requires
        canonical_numeral(s),
    ensures
        s.len() == 1 || numeral_value(s) >= pow10((s.len() - 1) as nat),
{
    if s.len() > 1 {
        let p = pow10((s.len() - 1) as nat);
        let d = digit_value(s[0]);
        assert(is_digit(s[0]));
        assert(d >= 1);
        lemma_pow10_positive((s.len() - 1) as nat);
        assert(d * p >= p) by (nonlinear_arith)
            requires
                d >= 1,
                p >= 1,
        ;
    }
}

proof fn lemma_same_length_numerals(a: Seq<char>, b: Seq<char>)
    requires
        is_numeric(a),
        is_numeric(b),
        a.len() == b.len(),
    ensures
        cmp_chars(a, b) == cmp_int(numeral_value(a) as int, numeral_value(b) as int),
    decreases a.len(),
{
    if a.len() > 0 {
        let ta = a.drop_first();
        let tb = b.drop_first();
        assert(is_numeric(ta)) by {
            assert forall|j: int| 0 <= j < ta.len() implies is_digit(#[trigger] ta[j]) by {
                assert(ta[j] == a[j + 1]);
            }
        }
        assert(is_numeric(tb)) by {
            assert forall|j: int| 0 <= j < tb.len() implies is_digit(#[trigger] tb[j]) by {
                assert(tb[j] == b[j + 1]);
            }
        }
        lemma_same_length_numerals(ta, tb);
        lemma_numeral_below(ta);
        lemma_numeral_below(tb);
        let p = pow10(ta.len());
        let da = digit_value(a[0]);
        let db = digit_value(b[0]);
        let ra = numeral_value(ta);
        let rb = numeral_value(tb);
        assert(is_digit(a[0]) && is_digit(b[0]));
        if a[0] < b[0] {
            assert(da < db);
            assert(da * p + ra < db * p + rb) by (nonlinear_arith)
                requires
                    da < db,
                    ra < p,
            ;
        } else if a[0] > b[0] {
            assert(da > db);
            assert(da * p + ra > db * p + rb) by (nonlinear_arith)
                requires
                    da > db,
                    rb < p,
            ;
        } else {
            assert(da == db);
        }
    }
}

/// Numeric identifiers without superfluous leading zeros compare by the numbers
/// they stand for.
pub proof fn lemma_numeric_identifiers_by_value(a: Seq<char>, b: Seq<char>)
    requires
        canonical_numeral(a),
        canonical_numeral(b),
    ensures
        cmp_ident(a, b) == cmp_int(numeral_value(a) as int, numeral_value(b) as int),
{
    if a.len() == b.len() {
        lemma_same_length_numerals(a, b);
    } else if a.len() < b.len() {
        lemma_numeral_below(a);
        lemma_numeral_at_least(b);
        lemma_pow10_monotone(a.len(), (b.len() - 1) as nat);
    } else {
        lemma_numeral_below(b);
        lemma_numeral_at_least(a);
        lemma_pow10_monotone(b.len(), (a.len() - 1) as nat);
    }
}

proof fn lemma_pow10_monotone(m: nat, n: nat)
    requires
        m <= n,
    ensures
        pow10(m) <= pow10(n),
    decreases n,
{
    if m < n {
        lemma_pow10_monotone(m, (n - 1) as nat);
        lemma_pow10_positive((n - 1) as nat);
    }
}

} // verus!
