//! An interactive fuzzy finder core: a subsequence scorer, a bounded
//! top-K selector, and a stateful search session with exact backspace undo,
//! together with the terminal plumbing around them.

pub mod score;
pub mod sorted_result_set;
pub mod search;
pub mod configuration;
pub mod digits;
pub mod tty;
pub mod fake_tty;
pub mod ansi;
pub mod text;
pub mod renderer;
pub mod screen;

use vstd::prelude::*;

verus! {

/// Clones a list of lines, keeping every line equal.
pub(crate) fn clone_strings(v: &Vec<String>) -> (r: Vec<String>)
    ensures
        r@ == v@,
{
    let mut r: Vec<String> = Vec::new();
    let mut i: usize = 0;
    while i < v.len()
        invariant
            i <= v@.len(),
            r@ == v@.take(i as int),
        decreases v@.len() - i,
    {
        r.push(v[i].clone());
        i = i + 1;
        proof {
            assert(r@ =~= v@.take(i as int));
        }
    }
    proof {
        assert(r@ =~= v@);
    }
    r
}

} // verus!
