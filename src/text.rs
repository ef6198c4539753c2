//! Character-level helpers shared by the version and range parsers.
use vstd::prelude::*;

verus! {

/// `true` for the ASCII digits `0`..`9`.
pub open spec fn is_digit(c: char) -> bool {
    '0' <= c && c <= '9'
}

/// The character of one decimal digit.
pub open spec fn digit_char(d: nat) -> char
    recommends
        d < 10,
{
    ((48 + d) as u8) as char
}

/// The canonical decimal numeral of `n`: no leading zero, `"0"` for zero.
pub open spec fn decimal(n: nat) -> Seq<char>
    decreases n,
{
    if n < 10 {
        seq![digit_char(n)]
    } else {
        decimal(n / 10).push(digit_char(n % 10))
    }
}

/// The pieces of `s` between dots, continuing from position `i` with `cur`
/// already collected for the current piece.
pub open spec fn split_dots_from(s: Seq<char>, i: int, cur: Seq<char>) -> Seq<Seq<char>>
    decreases s.len() - i,
{
    if i >= s.len() {
        seq![cur]
    } else if s[i] == '.' {
        seq![cur] + split_dots_from(s, i + 1, seq![])
    } else {
        split_dots_from(s, i + 1, cur.push(s[i]))
    }
}

/// The dot-separated pieces of `s` (one empty piece for an empty `s`).
pub open spec fn split_dots(s: Seq<char>) -> Seq<Seq<char>> {
    split_dots_from(s, 0, seq![])
}

/// The characters of a string, in order.
pub fn chars_of(s: &str) -> (r: Vec<char>)
    ensures
        r@ == s@,
{
    let mut r: Vec<char> = Vec::new();
    for c in it: s.chars()
        invariant
            r@ == it.seq().take(it.index() as int),
    {
        r.push(c);
    }
    r
}

/// Splits `s` at every dot.
pub fn split_dots_exec(s: &Vec<char>) -> (r: Vec<Vec<char>>)
    ensures
        r@.map_values(|p: Vec<char>| p@) == split_dots(s@),
{
    let mut r: Vec<Vec<char>> = Vec::new();
    let mut cur: Vec<char> = Vec::new();
    let mut i: usize = 0;
    while i < s.len()
        invariant
            i <= s.len(),
            r@.map_values(|p: Vec<char>| p@) + split_dots_from(s@, i as int, cur@) == split_dots(s@),
        decreases s.len() - i,
    {
        let c = s[i];
        if c == '.' {
            let ghost before = r@.map_values(|p: Vec<char>| p@);
            let ghost cv = cur@;
            assert(split_dots_from(s@, i as int, cv) == seq![cv] + split_dots_from(s@, i + 1, seq![]));
            r.push(cur);
            assert(r@.map_values(|p: Vec<char>| p@) =~= before.push(cv));
            assert(before.push(cv) + split_dots_from(s@, i + 1, seq![]) =~= before + (seq![cv]
                + split_dots_from(s@, i + 1, seq![])));
            cur = Vec::new();
            assert(cur@ =~= Seq::<char>::empty());
        } else {
            assert(split_dots_from(s@, i as int, cur@) == split_dots_from(s@, i + 1, cur@.push(c)));
            cur.push(c);
        }
        i = i + 1;
    }
    let ghost before = r@.map_values(|p: Vec<char>| p@);
    let ghost cv = cur@;
    r.push(cur);
    assert(r@.map_values(|p: Vec<char>| p@) =~= before.push(cv));
    assert(before + split_dots_from(s@, i as int, cv) =~= before.push(cv));
    r
}

} // verus!
