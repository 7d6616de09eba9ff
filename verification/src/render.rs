//! Rendering of the instantaneous description: the contiguous tape window
//! from the leftmost to the rightmost cell of interest, with the cell under
//! the head shown as `|q<state>=><symbol>|`.

use vstd::prelude::*;

use crate::tape::{get_from_tape, is_max_key, is_min_key, tape_read, Tape};
use vstd::math::{max, min};
use vstd::string::StringExecFns;

verus! {

/// How one cell is rendered: the raw symbol, or the head marker around the
/// symbol when the head sits on the cell.
pub open spec fn render_cell(t: Map<int, char>, state: Seq<char>, head: int, i: int) -> Seq<
    char,
> {
    if i == head {
        seq!['|', 'q'] + state + seq!['=', '>'] + seq![tape_read(t, i)] + seq!['|']
    } else {
        seq![tape_read(t, i)]
    }
}

/// The rendering of the cells in `[lo, hi)`, left to right.
pub open spec fn render_window(
    t: Map<int, char>,
    state: Seq<char>,
    head: int,
    lo: int,
    hi: int,
) -> Seq<char>
    decreases hi - lo,
{
    if lo >= hi {
        Seq::empty()
    } else {
        render_cell(t, state, head, lo) + render_window(t, state, head, lo + 1, hi)
    }
}

proof fn lemma_render_window_snoc(t: Map<int, char>, state: Seq<char>, head: int, lo: int, hi: int)
    requires
        lo <= hi,
    ensures
        render_window(t, state, head, lo, hi + 1) == render_window(t, state, head, lo, hi)
            + render_cell(t, state, head, hi),
    decreases hi - lo,
{
    if lo == hi {
        assert(render_window(t, state, head, lo + 1, hi + 1) =~= Seq::<char>::empty());
        assert(render_window(t, state, head, lo, hi) =~= Seq::<char>::empty());
        assert(render_window(t, state, head, lo, hi + 1) =~= render_window(t, state, head, lo, hi)
            + render_cell(t, state, head, hi));
    } else {
        lemma_render_window_snoc(t, state, head, lo + 1, hi);
        assert(render_window(t, state, head, lo, hi + 1) =~= render_window(t, state, head, lo, hi)
            + render_cell(t, state, head, hi));
    }
}

/// Relies on String::push: it appends the given character to the end of the
/// string.
#[verifier::external_body]
fn push_char(s: &mut String, c: char)
    ensures
        final(s)@ == old(s)@.push(c),
{
    s.push(c);
}

/// The trace line for the instantaneous description of a machine in `state`
/// with its head at `location`: the window from the leftmost to the rightmost
/// cell of interest, where the written cells and the head cell are of
/// interest. An entirely blank tape produces no line.
pub fn render_id(tape: &Tape, state: &str, location: i64) -> (r: Option<String>)
    requires
        tape.wf(),
    ensures
        match r {
            None => tape@.dom() == Set::<int>::empty(),
            Some(line) => exists|mn: int, mx: int|
                (#[trigger] is_min_key(tape@, mn)) && (#[trigger] is_max_key(tape@, mx)) && line@
                    == render_window(
                    tape@,
                    state@,
                    location as int,
                    min(mn, location as int),
                    max(mx, location as int) + 1,
                ),
        },
{
    let bounds = tape.key_bounds();
    match bounds {
        None => None,
        Some((mn, mx)) => {
            let lo = if location < mn {
                location
            } else {
                mn
            };
            let hi = if location > mx {
                location
            } else {
                mx
            };
            let mut line = String::new();
            let mut i = lo;
            loop
                invariant_except_break
                    line@ == render_window(tape@, state@, location as int, lo as int, i as int),
                invariant
                    tape.wf(),
                    is_min_key(tape@, mn as int),
                    is_max_key(tape@, mx as int),
                    lo as int == min(mn as int, location as int),
                    hi as int == max(mx as int, location as int),
                    lo <= i <= hi,
                ensures
                    line@ == render_window(
                        tape@,
                        state@,
                        location as int,
                        lo as int,
                        hi as int + 1,
                    ),
                decreases hi - i,
            {
                let ghost before = line@;
                let c = get_from_tape(tape, i);
                if i == location {
                    line.append("|q");
                    line.append(state);
                    line.append("=>");
                    push_char(&mut line, c);
                    line.append("|");
                } else {
                    push_char(&mut line, c);
                }
                proof {
                    reveal_strlit("|q");
                    reveal_strlit("=>");
                    reveal_strlit("|");
                    assert(line@ =~= before + render_cell(
                        tape@,
                        state@,
                        location as int,
                        i as int,
                    ));
                    lemma_render_window_snoc(
                        tape@,
                        state@,
                        location as int,
                        lo as int,
                        i as int,
                    );
                    assert(line@ == render_window(
                        tape@,
                        state@,
                        location as int,
                        lo as int,
                        i as int + 1,
                    ));
                }
                if i == hi {
                    break ;
                }
                i += 1;
            }
            Some(line)
        },
    }
}

} // verus!
