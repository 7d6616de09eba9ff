//! An interpreter for single-tape deterministic Turing machines.
//!
//! A machine is given by a transition table mapping (state, symbol under the
//! head) to (next state, symbol to write, head movement). The interpreter owns
//! a sparse tape, starts in state `"0"` with the head at cell 0, and runs the
//! fetch-decide-apply loop until it reaches the accepting state `"f"`, finds
//! no transition (rejection), or observes a cancellation request. Each step
//! can emit a trace of the instantaneous description.

use vstd::prelude::*;

pub mod machine;
pub mod parse;
pub mod render;
pub mod table;
pub mod tape;

verus! {

use vstd::string::StrSliceExecFns;

/// Whether two state identifiers hold the same characters.
pub fn str_eq(a: &str, b: &str) -> (r: bool)
    ensures
        r == (a@ == b@),
{
    let na = a.unicode_len();
    let nb = b.unicode_len();
    if na != nb {
        return false;
    }
    let mut i: usize = 0;
    while i < na
        invariant
            na == a@.len(),
            na == b@.len(),
            i <= na,
            forall|j: int| 0 <= j < i ==> a@[j] == b@[j],
        decreases na - i,
    {
        if a.get_char(i) != b.get_char(i) {
            return false;
        }
        i += 1;
    }
    proof {
        assert(a@ =~= b@);
    }
    true
}

} // verus!
