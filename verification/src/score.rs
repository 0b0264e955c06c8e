use vstd::prelude::*;

verus! {

/// Similarity key of an exact match: the greatest value `score` can return.
pub const SCORE_ONE: u64 = 0x3FF0_0000_0000_0000;

/// The similarity of a query to a candidate name, as a totally ordered
/// 64-bit key. The metric is the Jaro-Winkler similarity computed by the
/// `strsim` crate; its exact value is not restated here, only named.
pub uninterp spec fn similarity_of(query: Seq<char>, name: Seq<char>) -> u64;

/// Relies on strsim::jaro_winkler: the result is a similarity in [0.0, 1.0]
/// that depends on the two strings alone; equal strings score exactly 1.0,
/// and when exactly one of the strings is empty the score is exactly 0.0.
/// IEEE-754 bit patterns of non-negative doubles order as the doubles do,
/// so `f64::to_bits` carries a score in [0.0, 1.0] to a `u64` key in
/// [0, SCORE_ONE] with the same order and the same ties.
#[verifier::external_body]
fn jaro_winkler_bits(query: &Vec<char>, name: &str) -> (r: u64)
    ensures
        r == similarity_of(query@, name@),
        r <= SCORE_ONE,
        query@ == name@ ==> r == SCORE_ONE,
        query@.len() == 0 && name@.len() > 0 ==> r == 0,
        query@.len() > 0 && name@.len() == 0 ==> r == 0,
{
    let q: String = query.iter().collect();
    strsim::jaro_winkler(&q, name).to_bits()
}

/// Similarity of `query` to `name`: a key that orders exactly as the
/// Jaro-Winkler similarity does, `SCORE_ONE` for an exact match and `0`
/// when exactly one of the two strings is empty.
pub fn score(query: &Vec<char>, name: &str) -> (r: u64)
    ensures
        r == similarity_of(query@, name@),
        r <= SCORE_ONE,
        query@ == name@ ==> r == SCORE_ONE,
        query@.len() == 0 && name@.len() > 0 ==> r == 0,
{
    jaro_winkler_bits(query, name)
}

} // verus!
