//! Ranges: comparator sets joined by `||`, each a whitespace-separated list of
//! comparators, and whether a version satisfies them.
use vstd::prelude::*;
use std::cmp::Ordering;
use semver::Op as SemverOp;
use crate::text::chars_of;
use crate::version::{Version, VersionView, ParseError, valid_pre};
use crate::order::{cmp_pre, compare_pre};

verus! {

/// The operator of a comparator.
#[derive(Debug, Clone, Copy, PartialEq, Eq, Structural)]
pub enum Op {
    Exact,
    Greater,
    GreaterEq,
    Less,
    LessEq,
    Tilde,
    Caret,
    Wildcard,
}

/// What a comparator holds: an operator and a possibly partial version.
pub ghost struct ComparatorView {
    pub op: Op,
    pub major: u64,
    pub minor: Option<u64>,
    pub patch: Option<u64>,
    pub pre: Seq<char>,
}

/// One operator with a possibly partial version; an absent minor or patch
/// stands for any value of it.
#[derive(Debug, Clone)]
pub struct Comparator {
    pub op: Op,
    pub major: u64,
    pub minor: Option<u64>,
    pub patch: Option<u64>,
    pub pre: Vec<char>,
}

impl View for Comparator {
    type V = ComparatorView;

    open spec fn view(&self) -> ComparatorView {
        ComparatorView {
            op: self.op,
            major: self.major,
            minor: self.minor,
            patch: self.patch,
            pre: self.pre@,
        }
    }
}

/// A parsed range: the outer sequence is a disjunction of comparator sets, each
/// a conjunction of comparators.
#[derive(Debug, Clone)]
pub struct Range {
    pub sets: Vec<Vec<Comparator>>,
}

/// What the comparators of a set hold.
pub open spec fn set_view(s: Vec<Comparator>) -> Seq<ComparatorView> {
    s@.map_values(|c: Comparator| c@)
}

impl View for Range {
    type V = Seq<Seq<ComparatorView>>;

    open spec fn view(&self) -> Seq<Seq<ComparatorView>> {
        self.sets@.map_values(|s: Vec<Comparator>| set_view(s))
    }
}

/// What semver::Comparator::parse makes of one comparator text, if it accepts it.
pub uninterp spec fn semver_comparator(token: Seq<char>) -> Option<ComparatorView>;

/// Relies on semver::Comparator::parse: a comparator such as `>=1.2.3-pre`,
/// `~1.2`, `1.*` or `=1`; the result depends on the text alone, and a pre-release
/// is kept as its dotted text.
#[verifier::external_body]
fn parse_comparator_token(t: &Vec<char>) -> (r: Option<Comparator>)
    ensures
        r is Some <==> semver_comparator(t@) is Some,
        r matches Some(c) ==> semver_comparator(t@) == Some(c@) && valid_pre(c.pre@),
{
    let text: String = t.iter().collect();
    let c = match semver::Comparator::parse(&text) { Ok(c) => c, Err(_) => return None };
    let op = match c.op {
        SemverOp::Exact => Op::Exact, SemverOp::Greater => Op::Greater,
        SemverOp::GreaterEq => Op::GreaterEq, SemverOp::Less => Op::Less,
        SemverOp::LessEq => Op::LessEq, SemverOp::Tilde => Op::Tilde,
        SemverOp::Caret => Op::Caret, SemverOp::Wildcard => Op::Wildcard,
        _ => return None,
    };
    let pre = c.pre.as_str().chars().collect();
    Some(Comparator { op, major: c.major, minor: c.minor, patch: c.patch, pre })
}

// ---------------------------------------------------------------------------
// Splitting a range text

/// ASCII whitespace, which separates the comparators of a set.
pub open spec fn is_ws(c: char) -> bool {
    c == ' ' || c == '\t' || c == '\n' || c == '\r'
}

/// `seq![w]` if `w` is not empty, else nothing.
pub open spec fn word_if_any(w: Seq<char>) -> Seq<Seq<char>> {
    if w.len() == 0 {
        Seq::empty()
    } else {
        seq![w]
    }
}

/// The maximal runs of non-whitespace of `s` from position `i`, with `cur`
/// already collected for the current run.
pub open spec fn words_from(s: Seq<char>, i: int, cur: Seq<char>) -> Seq<Seq<char>>
    decreases s.len() - i,
{
    if i >= s.len() {
        word_if_any(cur)
    } else if is_ws(s[i]) {
        word_if_any(cur) + words_from(s, i + 1, Seq::empty())
    } else {
        words_from(s, i + 1, cur.push(s[i]))
    }
}

/// The whitespace-separated words of `s`.
pub open spec fn words(s: Seq<char>) -> Seq<Seq<char>> {
    words_from(s, 0, Seq::empty())
}

/// The pieces of `s` from position `i` between occurrences of `||`, with `cur`
/// already collected for the current piece.
pub open spec fn alternatives_from(s: Seq<char>, i: int, cur: Seq<char>) -> Seq<Seq<char>>
    decreases s.len() - i,
{
    if i >= s.len() {
        seq![cur]
    } else if i + 1 < s.len() && s[i] == '|' && s[i + 1] == '|' {
        seq![cur] + alternatives_from(s, i + 2, Seq::empty())
    } else {
        alternatives_from(s, i + 1, cur.push(s[i]))
    }
}

/// The pieces of `s` between occurrences of `||`, left to right.
pub open spec fn alternatives(s: Seq<char>) -> Seq<Seq<char>> {
    alternatives_from(s, 0, Seq::empty())
}

/// The character sequences of a list of texts.
pub open spec fn views_of(v: Seq<Vec<char>>) -> Seq<Seq<char>> {
    v.map_values(|p: Vec<char>| p@)
}

fn words_exec(s: &Vec<char>) -> (r: Vec<Vec<char>>)
    ensures
        views_of(r@) == words(s@),
{
    let mut r: Vec<Vec<char>> = Vec::new();
    let mut cur: Vec<char> = Vec::new();
    let mut i: usize = 0;
    while i < s.len()
        invariant
            i <= s.len(),
            views_of(r@) + words_from(s@, i as int, cur@) == words(s@),
        decreases s.len() - i,
    {
        let c = s[i];
        let ghost before = views_of(r@);
        let ghost cv = cur@;
        if c == ' ' || c == '\t' || c == '\n' || c == '\r' {
            assert(words_from(s@, i as int, cv) == word_if_any(cv) + words_from(s@, i + 1, seq![]));
            if cur.len() > 0 {
                r.push(cur);
                assert(views_of(r@) =~= before + word_if_any(cv));
            } else {
                assert(word_if_any(cv) =~= Seq::<Seq<char>>::empty());
                assert(views_of(r@) =~= before + word_if_any(cv));
            }
            assert((before + word_if_any(cv)) + words_from(s@, i + 1, seq![]) =~= before + (
            word_if_any(cv) + words_from(s@, i + 1, seq![])));
            cur = Vec::new();
            assert(cur@ =~= Seq::<char>::empty());
        } else {
            assert(words_from(s@, i as int, cv) == words_from(s@, i + 1, cv.push(c)));
            cur.push(c);
        }
        i = i + 1;
    }
    let ghost before = views_of(r@);
    let ghost cv = cur@;
    if cur.len() > 0 {
        r.push(cur);
    }
    assert(views_of(r@) =~= before + word_if_any(cv));
    r
}

fn alternatives_exec(s: &Vec<char>) -> (r: Vec<Vec<char>>)
    ensures
        views_of(r@) == alternatives(s@),
{
    let mut r: Vec<Vec<char>> = Vec::new();
    let mut cur: Vec<char> = Vec::new();
    let mut i: usize = 0;
    while i < s.len()
        invariant
            i <= s.len(),
            views_of(r@) + alternatives_from(s@, i as int, cur@) == alternatives(s@),
        decreases s.len() - i,
    {
        let ghost before = views_of(r@);
        let ghost cv = cur@;
        if i + 1 < s.len() && s[i] == '|' && s[i + 1] == '|' {
            assert(alternatives_from(s@, i as int, cv) == seq![cv] + alternatives_from(s@, i + 2, seq![]));
            r.push(cur);
            assert(views_of(r@) =~= before.push(cv));
            assert(before.push(cv) + alternatives_from(s@, i + 2, seq![]) =~= before + (seq![cv]
                + alternatives_from(s@, i + 2, seq![])));
            cur = Vec::new();
            assert(cur@ =~= Seq::<char>::empty());
            i = i + 2;
        } else {
            let c = s[i];
            assert(alternatives_from(s@, i as int, cv) == alternatives_from(s@, i + 1, cv.push(c)));
            cur.push(c);
            i = i + 1;
        }
    }
    let ghost before = views_of(r@);
    let ghost cv = cur@;
    r.push(cur);
    assert(views_of(r@) =~= before.push(cv));
    assert(before + alternatives_from(s@, i as int, cv) =~= before.push(cv));
    r
}

// ---------------------------------------------------------------------------
// Parsing a range

/// A lone wildcard word, which places no constraint.
pub open spec fn is_star(t: Seq<char>) -> bool {
    t == seq!['*'] || t == seq!['x'] || t == seq!['X']
}

/// The comparators that the words `ws` stand for, left to right (a lone wildcard
/// stands for none), or `None` if one of them is not a comparator.
pub open spec fn comparators_of(ws: Seq<Seq<char>>) -> Option<Seq<ComparatorView>>
    decreases ws.len(),
{
    if ws.len() == 0 {
        Some(Seq::empty())
    } else {
        match comparators_of(ws.drop_last()) {
            None => None,
            Some(cs) => if is_star(ws.last()) {
                Some(cs)
            } else {
                match semver_comparator(ws.last()) {
                    None => None,
                    Some(c) => Some(cs.push(c)),
                }
            },
        }
    }
}

/// The comparator set that `text` stands for; `None` if it has no word or a word
/// that is not a comparator.
pub open spec fn set_of(text: Seq<char>) -> Option<Seq<ComparatorView>> {
    if words(text).len() == 0 {
        None
    } else {
        comparators_of(words(text))
    }
}

/// The comparator sets that the texts `ts` stand for, or `None` if one is malformed.
pub open spec fn sets_of(ts: Seq<Seq<char>>) -> Option<Seq<Seq<ComparatorView>>>
    decreases ts.len(),
{
    if ts.len() == 0 {
        Some(Seq::empty())
    } else {
        match (sets_of(ts.drop_last()), set_of(ts.last())) {
            (Some(r), Some(c)) => Some(r.push(c)),
            _ => None,
        }
    }
}

/// The range that `s` stands for, or `None` if it is malformed.
pub open spec fn range_of(s: Seq<char>) -> Option<Seq<Seq<ComparatorView>>> {
    sets_of(alternatives(s))
}

fn star(t: &Vec<char>) -> (r: bool)
    ensures
        r == is_star(t@),
{
    if t.len() == 1 && (t[0] == '*' || t[0] == 'x' || t[0] == 'X') {
        assert(t@ =~= seq![t[0]]);
        true
    } else {
        assert(seq!['*'].len() == 1 && seq!['*'][0] == '*');
        assert(seq!['x'].len() == 1 && seq!['x'][0] == 'x');
        assert(seq!['X'].len() == 1 && seq!['X'][0] == 'X');
        false
    }
}

fn parse_set(text: &Vec<char>) -> (r: Option<Vec<Comparator>>)
    ensures
        r is Some <==> set_of(text@) is Some,
        r matches Some(v) ==> set_of(text@) == Some(set_view(v)),
{
    let ws = words_exec(text);
    if ws.len() == 0 {
        return None;
    }
    let ghost wv = views_of(ws@);
    let mut out: Vec<Comparator> = Vec::new();
    let mut j: usize = 0;
    assert(wv.take(0) =~= Seq::<Seq<char>>::empty());
    assert(set_view(out) =~= Seq::<ComparatorView>::empty());
    while j < ws.len()
        invariant
            j <= ws.len(),
            wv == views_of(ws@),
            wv == words(text@),
            comparators_of(wv.take(j as int)) == Some(set_view(out)),
        decreases ws.len() - j,
    {
        assert(wv.take(j + 1).drop_last() =~= wv.take(j as int));
        assert(wv.take(j + 1).last() == ws@[j as int]@);
        if !star(&ws[j]) {
            match parse_comparator_token(&ws[j]) {
                Some(c) => {
                    let ghost before = set_view(out);
                    out.push(c);
                    assert(set_view(out) =~= before.push(c@));
                },
                None => {
                    assert(comparators_of(wv.take(j + 1)) is None);
                    let mut k: usize = j + 1;
                    while k < ws.len()
                        invariant
                            j < k <= ws.len(),
                            wv == views_of(ws@),
                            comparators_of(wv.take(k as int)) is None,
                        decreases ws.len() - k,
                    {
                        assert(wv.take(k + 1).drop_last() =~= wv.take(k as int));
                        k = k + 1;
                    }
                    assert(wv.take(ws.len() as int) =~= wv);
                    return None;
                },
            }
        }
        j = j + 1;
    }
    assert(wv.take(ws.len() as int) =~= wv);
    Some(out)
}

/// Parses a range: comparator sets separated by `||`, the comparators of a set
/// separated by whitespace. A lone `*`, `x` or `X` places no constraint.
pub fn parse_range(s: &str) -> (r: Result<Range, ParseError>)
    ensures
        r is Ok <==> range_of(s@) is Some,
        r matches Ok(g) ==> range_of(s@) == Some(g@),
{
    let cs = chars_of(s);
    let texts = alternatives_exec(&cs);
    let ghost tv = views_of(texts@);
    let mut sets: Vec<Vec<Comparator>> = Vec::new();
    let mut j: usize = 0;
    assert(tv.take(0) =~= Seq::<Seq<char>>::empty());
    assert(sets@.map_values(|c: Vec<Comparator>| set_view(c)) =~= Seq::<Seq<ComparatorView>>::empty());
    while j < texts.len()
        invariant
            j <= texts.len(),
            tv == views_of(texts@),
            tv == alternatives(s@),
            sets_of(tv.take(j as int)) == Some(sets@.map_values(|c: Vec<Comparator>| set_view(c))),
        decreases texts.len() - j,
    {
        assert(tv.take(j + 1).drop_last() =~= tv.take(j as int));
        assert(tv.take(j + 1).last() == texts@[j as int]@);
        match parse_set(&texts[j]) {
            Some(set) => {
                let ghost before = sets@.map_values(|c: Vec<Comparator>| set_view(c));
                let ghost sv = set_view(set);
                sets.push(set);
                assert(sets@.map_values(|c: Vec<Comparator>| set_view(c)) =~= before.push(sv));
            },
            None => {
                assert(sets_of(tv.take(j + 1)) is None);
                let mut k: usize = j + 1;
                while k < texts.len()
                    invariant
                        j < k <= texts.len(),
                        tv == views_of(texts@),
                        sets_of(tv.take(k as int)) is None,
                    decreases texts.len() - k,
                {
                    assert(tv.take(k + 1).drop_last() =~= tv.take(k as int));
                    k = k + 1;
                }
                assert(tv.take(texts.len() as int) =~= tv);
                return Err(ParseError::Malformed);
            },
        }
        j = j + 1;
    }
    assert(tv.take(texts.len() as int) =~= tv);
    Ok(Range { sets })
}

// ---------------------------------------------------------------------------
// Matching

/// `v` has exactly the given numbers (an absent minor or patch matches any)
/// and the same pre-release.
pub open spec fn matches_exact(c: ComparatorView, v: VersionView) -> bool {
    &&& v.major == c.major
    &&& (c.minor matches Some(m) ==> v.minor == m)
    &&& (c.patch matches Some(p) ==> v.patch == p)
    &&& v.pre == c.pre
}

/// `v` is above every version that the partial version of `c` stands for.
pub open spec fn matches_greater(c: ComparatorView, v: VersionView) -> bool {
    if v.major != c.major {
        v.major > c.major
    } else {
        match c.minor {
            None => false,
            Some(m) => if v.minor != m {
                v.minor > m
            } else {
                match c.patch {
                    None => false,
                    Some(p) => if v.patch != p {
                        v.patch > p
                    } else {
                        cmp_pre(v.pre, c.pre) == Ordering::Greater
                    },
                }
            },
        }
    }
}

/// `v` is below every version that the partial version of `c` stands for.
pub open spec fn matches_less(c: ComparatorView, v: VersionView) -> bool {
    if v.major != c.major {
        v.major < c.major
    } else {
        match c.minor {
            None => false,
            Some(m) => if v.minor != m {
                v.minor < m
            } else {
                match c.patch {
                    None => false,
                    Some(p) => if v.patch != p {
                        v.patch < p
                    } else {
                        cmp_pre(v.pre, c.pre) == Ordering::Less
                    },
                }
            },
        }
    }
}

/// `~`: the same major (and minor, if given), at or above the given patch.
pub open spec fn matches_tilde(c: ComparatorView, v: VersionView) -> bool {
    &&& v.major == c.major
    &&& (c.minor matches Some(m) ==> v.minor == m)
    &&& match c.patch {
        Some(p) if v.patch != p => v.patch > p,
        _ => cmp_pre(v.pre, c.pre) != Ordering::Less,
    }
}

/// `^`: at or above the given version, without a change of its leftmost non-zero
/// number.
pub open spec fn matches_caret(c: ComparatorView, v: VersionView) -> bool {
    if v.major != c.major {
        false
    } else {
        match (c.minor, c.patch) {
            (None, _) => true,
            (Some(m), None) => if c.major > 0 {
                v.minor >= m
            } else {
                v.minor == m
            },
            (Some(m), Some(p)) => if c.major > 0 && v.minor != m {
                v.minor > m
            } else if c.major == 0 && v.minor != m {
                false
            } else if (c.major > 0 || m > 0) && v.patch != p {
                v.patch > p
            } else if c.major == 0 && m == 0 && v.patch != p {
                false
            } else {
                cmp_pre(v.pre, c.pre) != Ordering::Less
            },
        }
    }
}

/// What the operator of `c` asks of `v`, pre-release visibility aside.
pub open spec fn matches_op(c: ComparatorView, v: VersionView) -> bool {
    match c.op {
        Op::Exact | Op::Wildcard => matches_exact(c, v),
        Op::Greater => matches_greater(c, v),
        Op::GreaterEq => matches_exact(c, v) || matches_greater(c, v),
        Op::Less => matches_less(c, v),
        Op::LessEq => matches_exact(c, v) || matches_less(c, v),
        Op::Tilde => matches_tilde(c, v),
        Op::Caret => matches_caret(c, v),
    }
}

/// `c` names the numbers of `v` in full and carries a pre-release.
pub open spec fn pre_compatible(c: ComparatorView, v: VersionView) -> bool {
    &&& c.major == v.major
    &&& c.minor == Some(v.minor)
    &&& c.patch == Some(v.patch)
    &&& c.pre.len() > 0
}

/// `v` meets every comparator of the set; a pre-release `v` also needs a
/// comparator of the set with its numbers and a pre-release.
pub open spec fn set_matches(cs: Seq<ComparatorView>, v: VersionView) -> bool {
    &&& forall|i: int| 0 <= i < cs.len() ==> matches_op(#[trigger] cs[i], v)
    &&& (v.pre.len() == 0 || exists|i: int| 0 <= i < cs.len() && pre_compatible(#[trigger] cs[i], v))
}

/// `v` meets at least one comparator set of the range.
pub open spec fn range_matches(r: Seq<Seq<ComparatorView>>, v: VersionView) -> bool {
    exists|i: int| 0 <= i < r.len() && set_matches(#[trigger] r[i], v)
}

fn chars_eq(a: &Vec<char>, b: &Vec<char>) -> (r: bool)
    ensures
        r == (a@ == b@),
{
    if a.len() != b.len() {
        return false;
    }
    let mut i: usize = 0;
    while i < a.len()
        invariant
            i <= a.len(),
            a.len() == b.len(),
            forall|j: int| 0 <= j < i ==> a@[j] == b@[j],
        decreases a.len() - i,
    {
        if a[i] != b[i] {
            return false;
        }
        i = i + 1;
    }
    assert(a@ =~= b@);
    true
}

fn holds_exact(c: &Comparator, v: &Version) -> (r: bool)
    ensures
        r == matches_exact(c@, v@),
{
    if v.major != c.major {
        return false;
    }
    if let Some(m) = c.minor {
        if v.minor != m {
            return false;
        }
    }
    if let Some(p) = c.patch {
        if v.patch != p {
            return false;
        }
    }
    chars_eq(&v.pre, &c.pre)
}

fn holds_greater(c: &Comparator, v: &Version) -> (r: bool)
    ensures
        r == matches_greater(c@, v@),
{
    if v.major != c.major {
        return v.major > c.major;
    }
    match c.minor {
        None => return false,
        Some(m) => if v.minor != m {
            return v.minor > m;
        },
    }
    match c.patch {
        None => return false,
        Some(p) => if v.patch != p {
            return v.patch > p;
        },
    }
    match compare_pre(&v.pre, &c.pre) {
        Ordering::Greater => true,
        _ => false,
    }
}

fn holds_less(c: &Comparator, v: &Version) -> (r: bool)
    ensures
        r == matches_less(c@, v@),
{
    if v.major != c.major {
        return v.major < c.major;
    }
    match c.minor {
        None => return false,
        Some(m) => if v.minor != m {
            return v.minor < m;
        },
    }
    match c.patch {
        None => return false,
        Some(p) => if v.patch != p {
            return v.patch < p;
        },
    }
    match compare_pre(&v.pre, &c.pre) {
        Ordering::Less => true,
        _ => false,
    }
}

fn pre_at_least(v: &Version, c: &Comparator) -> (r: bool)
    ensures
        r == (cmp_pre(v.pre@, c.pre@) != Ordering::Less),
{
    match compare_pre(&v.pre, &c.pre) {
        Ordering::Less => false,
        _ => true,
    }
}

fn holds_tilde(c: &Comparator, v: &Version) -> (r: bool)
    ensures
        r == matches_tilde(c@, v@),
{
    if v.major != c.major {
        return false;
    }
    if let Some(m) = c.minor {
        if v.minor != m {
            return false;
        }
    }
    if let Some(p) = c.patch {
        if v.patch != p {
            return v.patch > p;
        }
    }
    pre_at_least(v, c)
}

fn holds_caret(c: &Comparator, v: &Version) -> (r: bool)
    ensures
        r == matches_caret(c@, v@),
{
    if v.major != c.major {
        return false;
    }
    let m = match c.minor {
        None => return true,
        Some(m) => m,
    };
    let p = match c.patch {
        None => return if c.major > 0 {
            v.minor >= m
        } else {
            v.minor == m
        },
        Some(p) => p,
    };
    if c.major > 0 {
        if v.minor != m {
            return v.minor > m;
        } else if v.patch != p {
            return v.patch > p;
        }
    } else if m > 0 {
        if v.minor != m {
            return false;
        } else if v.patch != p {
            return v.patch > p;
        }
    } else if v.minor != m || v.patch != p {
        return false;
    }
    pre_at_least(v, c)
}

/// Whether `v` meets what the operator of `c` asks, pre-release visibility aside.
pub fn comparator_holds(c: &Comparator, v: &Version) -> (r: bool)
    ensures
        r == matches_op(c@, v@),
{
    match c.op {
        Op::Exact | Op::Wildcard => holds_exact(c, v),
        Op::Greater => holds_greater(c, v),
        Op::GreaterEq => holds_exact(c, v) || holds_greater(c, v),
        Op::Less => holds_less(c, v),
        Op::LessEq => holds_exact(c, v) || holds_less(c, v),
        Op::Tilde => holds_tilde(c, v),
        Op::Caret => holds_caret(c, v),
    }
}

fn set_holds(cs: &Vec<Comparator>, v: &Version) -> (r: bool)
    ensures
        r == set_matches(set_view(*cs), v@),
{
    let ghost sv = set_view(*cs);
    let mut i: usize = 0;
    while i < cs.len()
        invariant
            i <= cs.len(),
            sv == set_view(*cs),
            forall|j: int| 0 <= j < i ==> matches_op(#[trigger] sv[j], v@),
        decreases cs.len() - i,
    {
        if !comparator_holds(&cs[i], v) {
            assert(!matches_op(sv[i as int], v@));
            return false;
        }
        i = i + 1;
    }
    if v.pre.len() == 0 {
        return true;
    }
    let mut k: usize = 0;
    while k < cs.len()
        invariant
            k <= cs.len(),
            sv == set_view(*cs),
            forall|j: int| 0 <= j < sv.len() ==> matches_op(#[trigger] sv[j], v@),
            forall|j: int| 0 <= j < k ==> !pre_compatible(#[trigger] sv[j], v@),
        decreases cs.len() - k,
    {
        let c = &cs[k];
        if c.major == v.major && c.minor == Some(v.minor) && c.patch == Some(v.patch) && c.pre.len() > 0 {
            assert(pre_compatible(sv[k as int], v@));
            return true;
        }
        k = k + 1;
    }
    false
}

/// Whether `v` satisfies the range `g`.
pub fn matches(g: &Range, v: &Version) -> (r: bool)
    ensures
        r == range_matches(g@, v@),
{
    let ghost gv = g@;
    let mut i: usize = 0;
    while i < g.sets.len()
        invariant
            i <= g.sets.len(),
            gv == g@,
            forall|j: int| 0 <= j < i ==> !set_matches(#[trigger] gv[j], v@),
        decreases g.sets.len() - i,
    {
        if set_holds(&g.sets[i], v) {
            assert(set_matches(gv[i as int], v@));
            return true;
        }
        i = i + 1;
    }
    false
}

} // verus!
