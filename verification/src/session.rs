//! The session's own small decisions: which menu entry to pre-select
//! from the cached defaults, and how the chosen answers are assembled
//! into the final conventional-commit message.

use vstd::prelude::*;
use vstd::string::StringExecFns;

verus! {

/// The assembled message: `type(project): message`, taken verbatim,
/// with no trimming and no length limit.
pub open spec fn message_view(t: Seq<char>, p: Seq<char>, m: Seq<char>) -> Seq<char> {
    t + "("@ + p + "): "@ + m
}

/// Builds the commit message `type(project): message` from the three
/// chosen answers.
pub fn assemble_commit_message(
    commit_type: &str,
    commit_project: &str,
    commit_message: &str,
) -> (r: String)
    ensures
        r@ == message_view(commit_type@, commit_project@, commit_message@),
{
    let mut out = commit_type.to_owned();
    out.append("(");
    out.append(commit_project);
    out.append("): ");
    out.append(commit_message);
    proof {
        assert(out@ =~= message_view(commit_type@, commit_project@, commit_message@));
    }
    out
}

/// The menu entry to pre-select: the first option equal to the cached
/// value, or the first entry when no option matches.
pub fn default_item_position(options: &Vec<String>, cached: &String) -> (r: usize)
    ensures
        (exists|q: int| 0 <= q < options@.len() && options@[q]@ == cached@) ==> r
            < options@.len() && options@[r as int]@ == cached@ && (forall|q: int|
            0 <= q < r ==> options@[q]@ != cached@),
        !(exists|q: int| 0 <= q < options@.len() && options@[q]@ == cached@) ==> r == 0,
{
    let n = options.len();
    let mut i: usize = 0;
    while i < n
        invariant
            i <= n,
            n == options@.len(),
            forall|q: int| 0 <= q < i ==> options@[q]@ != cached@,
        decreases n - i,
    {
        if options[i] == *cached {
            return i;
        }
        i = i + 1;
    }
    0
}

} // verus!
