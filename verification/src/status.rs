//! Deciding, from the version-control tool's status output, whether
//! nothing is staged yet and the session should offer to stage the
//! working tree. The decision is a plain substring test against three
//! fixed phrases.

use crate::codec::{match_at, matches_at};
use vstd::prelude::*;
use vstd::string::StrSliceExecFns;

verus! {

/// True when `pat` occurs somewhere in `s`.
pub open spec fn contains_seq(s: Seq<char>, pat: Seq<char>) -> bool {
    exists|i: int| matches_at(s, i, pat)
}

/// Status phrase: changes exist but none are staged.
pub open spec fn phrase_no_changes() -> Seq<char> {
    "no changes added to commit"@
}

/// Status phrase: the working tree is clean.
pub open spec fn phrase_clean() -> Seq<char> {
    "nothing to commit, working tree clean"@
}

/// Status phrase: only untracked files are present.
pub open spec fn phrase_untracked() -> Seq<char> {
    "nothing added to commit but untracked files present"@
}

/// Decides whether `pat` occurs somewhere in `s`.
pub fn contains_sub(s: &str, pat: &str) -> (r: bool)
    ensures
        r == contains_seq(s@, pat@),
{
    let n = s.unicode_len();
    let m = pat.unicode_len();
    if m > n {
        proof {
            assert(!contains_seq(s@, pat@)) by {
                if contains_seq(s@, pat@) {
                    let q = choose|q: int| matches_at(s@, q, pat@);
                }
            }
        }
        return false;
    }
    if m == 0 {
        proof {
            assert(s@.subrange(0, 0) =~= pat@);
            assert(matches_at(s@, 0, pat@));
        }
        return true;
    }
    let mut i: usize = 0;
    while i <= n - m
        invariant
            1 <= m <= n,
            n == s@.len(),
            m == pat@.len(),
            i <= n - m + 1,
            forall|q: int| 0 <= q < i ==> !matches_at(s@, q, pat@),
        decreases n - m - i + 1,
    {
        if match_at(s, i, pat) {
            proof {
                assert(matches_at(s@, i as int, pat@));
            }
            return true;
        }
        i = i + 1;
    }
    proof {
        assert(!contains_seq(s@, pat@)) by {
            if contains_seq(s@, pat@) {
                let q = choose|q: int| matches_at(s@, q, pat@);
            }
        }
    }
    false
}

/// Decides whether the status output means nothing is staged yet, so
/// the session should ask the user about staging the working tree: it
/// does exactly when the output holds one of the three phrases.
pub fn should_offer_staging(status: &str) -> (r: bool)
    ensures
        r == (contains_seq(status@, phrase_no_changes()) || contains_seq(
            status@,
            phrase_clean(),
        ) || contains_seq(status@, phrase_untracked())),
{
    contains_sub(status, "no changes added to commit") || contains_sub(
        status,
        "nothing to commit, working tree clean",
    ) || contains_sub(status, "nothing added to commit but untracked files present")
}

} // verus!
