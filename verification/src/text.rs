//! Character-level helpers shared by the router and the JSON codec.

use vstd::prelude::*;

verus! {

/// Does `s` match `lit` exactly at position `i`?
pub open spec fn spec_match_at(s: Seq<char>, i: int, lit: Seq<char>) -> bool {
    0 <= i && i + lit.len() <= s.len() && s.subrange(i, i + lit.len()) =~= lit
}

/// Compares `s` against `lit` at position `i`, character by character.
pub fn match_at(s: &str, i: usize, lit: &str) -> (r: bool)
    ensures
        r == spec_match_at(s@, i as int, lit@),
{
    let n = lit.unicode_len();
    let sn = s.unicode_len();
    if sn < n || i > sn - n {
        assert(!spec_match_at(s@, i as int, lit@));
        return false;
    }
    let mut j: usize = 0;
    while j < n
        invariant
            j <= n,
            n == lit@.len(),
            sn == s@.len(),
            i + n <= sn,
            forall|k: int| 0 <= k < j ==> s@[i + k] == lit@[k],
        decreases n - j,
    {
        if s.get_char(i + j) != lit.get_char(j) {
            assert(s@.subrange(i as int, i + lit@.len())[j as int] != lit@[j as int]);
            return false;
        }
        j += 1;
    }
    assert(s@.subrange(i as int, i + lit@.len()) =~= lit@);
    true
}

/// Relies on std's String::push: appends exactly the one character `c`
/// to the end of `s`.
#[verifier::external_body]
pub fn push_char(s: &mut String, c: char)
    ensures
        final(s)@ == old(s)@.push(c),
{
    s.push(c)
}

/// Does `s` begin with `p`?
pub open spec fn spec_starts_with(s: Seq<char>, p: Seq<char>) -> bool {
    spec_match_at(s, 0, p)
}

/// Prefix test over the character sequences.
pub fn starts_with(s: &str, p: &str) -> (r: bool)
    ensures
        r == spec_starts_with(s@, p@),
{
    match_at(s, 0, p)
}

} // verus!
