//! The machine executor: one run state per input word, driven by the
//! fetch-decide-apply loop until the machine accepts, rejects, or a
//! cancellation is observed.

use vstd::prelude::*;

use crate::render::render_id;
use crate::str_eq;
use crate::table::{Direction, ResultModel, Table};
use crate::tape::{get_from_tape, tape_read, Tape};
use vstd::string::StrSliceExecFns;

verus! {

/// The run state of one machine invocation: the current state identifier, the
/// head position, and the written tape cells.
pub ghost struct Config {
    pub state: Seq<char>,
    pub head: int,
    pub tape: Map<int, char>,
}

/// The reserved initial state identifier, `"0"`.
pub open spec fn init_state() -> Seq<char> {
    seq!['0']
}

/// The reserved accepting state identifier, `"f"`.
pub open spec fn accept_state() -> Seq<char> {
    seq!['f']
}

/// The run state at the start of an invocation on input word `w`: state
/// `"0"`, head at cell 0, and the word written at cells `0..w.len()`.
pub open spec fn init_config(w: Seq<char>) -> Config {
    Config {
        state: init_state(),
        head: 0,
        tape: Map::new(|k: int| 0 <= k < w.len(), |k: int| w[k]),
    }
}

/// How far a run has come: still running in some configuration, halted
/// accepting, or halted rejecting. A rejecting run remembers the
/// configuration it entered the undefined pair in; the offending pair is its
/// state and the symbol under its head.
pub ghost enum RunStatus {
    Running(Config),
    Accepted(Config),
    Rejected(Config),
}

/// The configuration after taking the matched transition `res` in `c`: enter
/// the prescribed state, write the prescribed symbol at the head, move the
/// head one cell left or right.
pub open spec fn apply_rule(res: ResultModel, c: Config) -> Config {
    Config {
        state: res.new_state,
        head: match res.direction {
            Direction::Left => c.head - 1,
            Direction::Right => c.head + 1,
        },
        tape: c.tape.insert(c.head, res.new_tape_symbol),
    }
}

/// One step of the abstract machine: a halted run stays halted; a running one
/// accepts in state `"f"`, rejects when its (state, symbol) pair is absent
/// from the table, and otherwise takes the matched transition. The accepting
/// check comes strictly before the lookup, so state `"f"` never consults the
/// table.
pub open spec fn step_status(
    t: Map<(Seq<char>, char), ResultModel>,
    s: RunStatus,
) -> RunStatus {
    match s {
        RunStatus::Running(c) => {
            if c.state == accept_state() {
                RunStatus::Accepted(c)
            } else {
                let key = (c.state, tape_read(c.tape, c.head));
                if t.dom().contains(key) {
                    RunStatus::Running(apply_rule(t[key], c))
                } else {
                    RunStatus::Rejected(c)
                }
            }
        },
        _ => s,
    }
}

/// The status of the abstract run from `c0` after `n` steps.
pub open spec fn run_to(
    t: Map<(Seq<char>, char), ResultModel>,
    c0: Config,
    n: nat,
) -> RunStatus
    decreases n,
{
    if n == 0 {
        RunStatus::Running(c0)
    } else {
        step_status(t, run_to(t, c0, (n - 1) as nat))
    }
}

/// A halted run stays exactly as it is: once a run has accepted or rejected,
/// no later step changes its status or its configuration — in particular, no
/// further cell is ever written.
pub proof fn lemma_halted_runs_stay(
    t: Map<(Seq<char>, char), ResultModel>,
    c0: Config,
    n: nat,
    m: nat,
)
    requires
        n <= m,
        !(run_to(t, c0, n) is Running),
    ensures
        run_to(t, c0, m) == run_to(t, c0, n),
    decreases m,
{
    if n < m {
        lemma_halted_runs_stay(t, c0, n, (m - 1) as nat);
    }
}

/// A running machine whose (state, symbol) pair is absent from the table
/// halts rejecting on the very next step, naming that state and symbol, and
/// its tape is never written again.
pub proof fn lemma_missing_pair_rejects(
    t: Map<(Seq<char>, char), ResultModel>,
    c0: Config,
    n: nat,
    c: Config,
)
    requires
        run_to(t, c0, n) == RunStatus::Running(c),
        c.state != accept_state(),
        !t.dom().contains((c.state, tape_read(c.tape, c.head))),
    ensures
        forall|m: nat| m > n ==> run_to(t, c0, m) == RunStatus::Rejected(c),
{
    assert(run_to(t, c0, n + 1) == RunStatus::Rejected(c));
    assert forall|m: nat| m > n implies run_to(t, c0, m) == RunStatus::Rejected(c) by {
        lemma_halted_runs_stay(t, c0, n + 1, m);
    }
}

/// The outcome of one machine invocation. Rejection and interruption are
/// first-class outcomes, not faults.
#[derive(Debug)]
pub enum Outcome {
    Accepted,
    Rejected { state: String, symbol: char },
    Interrupted,
}

/// The mathematical content of an [`Outcome`].
pub ghost enum SpecOutcome {
    Accepted,
    Rejected { state: Seq<char>, symbol: char },
    Interrupted,
}

impl View for Outcome {
    type V = SpecOutcome;

    open spec fn view(&self) -> SpecOutcome {
        match self {
            Outcome::Accepted => SpecOutcome::Accepted,
            Outcome::Rejected { state, symbol } => SpecOutcome::Rejected {
                state: state@,
                symbol: *symbol,
            },
            Outcome::Interrupted => SpecOutcome::Interrupted,
        }
    }
}

impl PartialEq for Outcome {
    fn eq(&self, other: &Outcome) -> (r: bool) {
        match (self, other) {
            (Outcome::Accepted, Outcome::Accepted) => true,
            (
                Outcome::Rejected { state: s1, symbol: y1 },
                Outcome::Rejected { state: s2, symbol: y2 },
            ) => *y1 == *y2 && str_eq(s1.as_str(), s2.as_str()),
            (Outcome::Interrupted, Outcome::Interrupted) => true,
            _ => false,
        }
    }
}

impl vstd::std_specs::cmp::PartialEqSpecImpl for Outcome {
    open spec fn obeys_eq_spec() -> bool {
        true
    }

    open spec fn eq_spec(&self, other: &Outcome) -> bool {
        self@ == other@
    }
}

/// What one invocation of the step function returns and leaves behind, given
/// whether a cancellation was observed at its start: `None` and the follower
/// configuration when the machine took a transition, otherwise the halting
/// outcome beside the unchanged configuration. A follower whose head index
/// would not be representable stops the run as an interruption.
pub open spec fn spec_run_step(
    t: Map<(Seq<char>, char), ResultModel>,
    c: Config,
    cancelled: bool,
) -> (Option<SpecOutcome>, Config) {
    if cancelled {
        (Some(SpecOutcome::Interrupted), c)
    } else {
        match step_status(t, RunStatus::Running(c)) {
            RunStatus::Accepted(_) => (Some(SpecOutcome::Accepted), c),
            RunStatus::Rejected(_) => (
                Some(
                    SpecOutcome::Rejected {
                        state: c.state,
                        symbol: tape_read(c.tape, c.head),
                    },
                ),
                c,
            ),
            RunStatus::Running(c2) => if i64::MIN <= c2.head <= i64::MAX {
                (None, c2)
            } else {
                (Some(SpecOutcome::Interrupted), c)
            },
        }
    }
}

/// The view of a step function result.
pub open spec fn opt_outcome_view(r: Option<Outcome>) -> Option<SpecOutcome> {
    match r {
        Some(o) => Some(o@),
        None => None,
    }
}

/// The run state a machine invocation owns, discarded when the invocation
/// returns.
pub struct Machine {
    pub state: String,
    pub head: i64,
    pub tape: Tape,
}

impl View for Machine {
    type V = Config;

    open spec fn view(&self) -> Config {
        Config { state: self.state@, head: self.head as int, tape: self.tape@ }
    }
}

impl Machine {
    /// The tape representation holds one entry per written cell.
    pub open spec fn wf(&self) -> bool {
        self.tape.wf()
    }

    /// The run state at the start of an invocation on `input`: state `"0"`,
    /// head at cell 0, the input word written at cells `0..len`.
    pub fn new(input: &str) -> (m: Machine)
        requires
            input@.len() <= 0x7fff_ffff_ffff_ffff,
        ensures
            m.wf(),
            m@ == init_config(input@),
    {
        let mut tape = Tape::new();
        proof {
            assert(tape@ =~= Map::new(|k: int| 0 <= k < 0, |k: int| input@[k]));
        }
        let n = input.unicode_len();
        let mut i: usize = 0;
        while i < n
            invariant
                n == input@.len(),
                i <= n,
                n <= 0x7fff_ffff_ffff_ffff,
                tape.wf(),
                tape@ == Map::new(|k: int| 0 <= k < i, |k: int| input@[k]),
            decreases n - i,
        {
            let c = input.get_char(i);
            tape.write(i as i64, c);
            proof {
                assert(tape@ =~= Map::new(|k: int| 0 <= k < i + 1, |k: int| input@[k]));
            }
            i += 1;
        }
        let m = Machine { state: "0".to_owned(), head: 0, tape };
        proof {
            reveal_strlit("0");
            assert(m@.state =~= init_state());
            assert(m@.tape =~= init_config(input@).tape);
        }
        m
    }
}

/// One step of the executor. A cancellation observed at the start of the step
/// halts it before anything else: the run state, the tape included, is left
/// exactly as it was. The same holds when the machine accepts or rejects; the
/// run state changes only when a transition is taken.
pub fn run_step(m: &mut Machine, table: &Table, cancelled: bool) -> (r: Option<Outcome>)
    requires
        old(m).wf(),
    ensures
        final(m).wf(),
        final(m)@ == spec_run_step(table@, old(m)@, cancelled).1,
        opt_outcome_view(r) == spec_run_step(table@, old(m)@, cancelled).0,
{
    if cancelled {
        return Some(Outcome::Interrupted);
    }
    proof {
        reveal_strlit("f");
        assert("f"@ =~= accept_state());
    }
    if str_eq(m.state.as_str(), "f") {
        return Some(Outcome::Accepted);
    }
    let sym = get_from_tape(&m.tape, m.head);
    match table.lookup(m.state.as_str(), sym) {
        None => Some(Outcome::Rejected { state: m.state.clone(), symbol: sym }),
        Some(res) => {
            match res.direction {
                Direction::Left => {
                    if m.head == i64::MIN {
                        return Some(Outcome::Interrupted);
                    }
                },
                Direction::Right => {
                    if m.head == i64::MAX {
                        return Some(Outcome::Interrupted);
                    }
                },
            }
            m.state = res.new_state.clone();
            m.tape.write(m.head, res.new_tape_symbol);
            match res.direction {
                Direction::Left => m.head = m.head - 1,
                Direction::Right => m.head = m.head + 1,
            }
            None
        },
    }
}

/// Where the executor sends each trace line.
pub trait TraceSink {
    fn emit(&mut self, line: &str);
}

/// Where the executor polls for cancellation, once per step. `poll` must read
/// and clear: a signalled cancellation is consumed by the poll that observes
/// it and does not leak into a later run.
pub trait CancelSource {
    fn poll(&mut self) -> bool;
}

/// A sink that keeps every line it is handed.
pub struct CollectingSink {
    pub lines: Vec<String>,
}

impl CollectingSink {
    /// An empty sink.
    pub fn new() -> (s: CollectingSink)
        ensures
            s.lines@.len() == 0,
    {
        CollectingSink { lines: Vec::new() }
    }
}

impl TraceSink for CollectingSink {
    fn emit(&mut self, line: &str) {
        self.lines.push(line.to_owned());
    }
}

/// A source that never reports a cancellation.
pub struct NeverCancel;

impl CancelSource for NeverCancel {
    fn poll(&mut self) -> bool {
        false
    }
}

/// A source that reports a cancellation on exactly one poll: the one after
/// `polls_before` earlier polls.
pub struct ScriptedCancel {
    pub polls_before: u64,
    pub spent: bool,
}

impl ScriptedCancel {
    /// A source whose single cancellation arrives on poll `polls_before + 1`.
    pub fn new(polls_before: u64) -> (s: ScriptedCancel)
        ensures
            s.polls_before == polls_before,
            !s.spent,
    {
        ScriptedCancel { polls_before, spent: false }
    }
}

impl CancelSource for ScriptedCancel {
    fn poll(&mut self) -> bool {
        if self.spent {
            false
        } else if self.polls_before == 0 {
            self.spent = true;
            true
        } else {
            self.polls_before = self.polls_before - 1;
            false
        }
    }
}

/// Run one machine invocation on `input` against `table` to completion,
/// halting, or cancellation, emitting one trace line per step (none for an
/// entirely blank tape). An accepted or rejected outcome is a halt of the
/// abstract run from the initial configuration; an interruption leaves a run
/// that was still going.
pub fn execute<S: TraceSink, C: CancelSource>(
    input: &str,
    table: &Table,
    sink: &mut S,
    cancel: &mut C,
) -> (r: Outcome)
    requires
        input@.len() <= 0x7fff_ffff_ffff_ffff,
    ensures
        r@ is Accepted ==> exists|n: nat| #[trigger] run_to(table@, init_config(input@), n)
            is Accepted,
        r@ matches SpecOutcome::Rejected { state, symbol } ==> exists|n: nat|
            #[trigger] run_to(table@, init_config(input@), n) matches RunStatus::Rejected(c)
                && state == c.state && symbol == tape_read(c.tape, c.head),
        r@ is Interrupted ==> exists|n: nat| #[trigger] run_to(table@, init_config(input@), n)
            is Running,
{
    let mut m = Machine::new(input);
    let ghost c0 = init_config(input@);
    let ghost mut steps: nat = 0;
    let mut budget: u64 = u64::MAX;
    loop
        invariant
            m.wf(),
            c0 == init_config(input@),
            run_to(table@, c0, steps) == RunStatus::Running(m@),
        decreases budget,
    {
        if budget == 0 {
            // The step budget outlasts any physically possible run; giving up
            // when it is spent keeps every loop of the library terminating.
            return Outcome::Interrupted;
        }
        budget = budget - 1;
        let fired = cancel.poll();
        if !fired {
            if let Some(line) = render_id(&m.tape, m.state.as_str(), m.head) {
                sink.emit(line.as_str());
            }
        }
        let ghost prev = m@;
        match run_step(&mut m, table, fired) {
            None => {
                proof {
                    assert(run_to(table@, c0, steps + 1) == RunStatus::Running(m@));
                    steps = steps + 1;
                }
            },
            Some(o) => {
                proof {
                    if !fired {
                        match step_status(table@, RunStatus::Running(prev)) {
                            RunStatus::Accepted(_) => {
                                assert(run_to(table@, c0, steps + 1) is Accepted);
                            },
                            RunStatus::Rejected(c) => {
                                assert(run_to(table@, c0, steps + 1) == RunStatus::Rejected(c));
                            },
                            RunStatus::Running(_) => {
                                assert(run_to(table@, c0, steps) is Running);
                            },
                        }
                    }
                }
                return o;
            },
        }
    }
}

/// Run one machine invocation on `input` against `table` without tracing or
/// cancellation, for at most `max_steps` steps of the abstract run: the
/// result is exactly the status of the abstract run after `max_steps` steps —
/// the halting outcome it has reached, or nothing when it is still going.
pub fn execute_bounded(input: &str, table: &Table, max_steps: u64) -> (r: Option<Outcome>)
    requires
        input@.len() <= 0x7fff_ffff_ffff_ffff,
        max_steps <= 0x7fff_ffff_ffff_ffff,
    ensures
        match r {
            Some(o) => match o@ {
                SpecOutcome::Accepted => run_to(table@, init_config(input@), max_steps as nat)
                    is Accepted,
                SpecOutcome::Rejected { state, symbol } => run_to(
                    table@,
                    init_config(input@),
                    max_steps as nat,
                ) matches RunStatus::Rejected(c) && state == c.state && symbol == tape_read(
                    c.tape,
                    c.head,
                ),
                SpecOutcome::Interrupted => false,
            },
            None => run_to(table@, init_config(input@), max_steps as nat) is Running,
        },
{
    let mut m = Machine::new(input);
    let ghost c0 = init_config(input@);
    let mut k: u64 = 0;
    while k < max_steps
        invariant
            m.wf(),
            c0 == init_config(input@),
            k <= max_steps,
            max_steps <= 0x7fff_ffff_ffff_ffff,
            run_to(table@, c0, k as nat) == RunStatus::Running(m@),
            -(k as int) <= m@.head <= k as int,
        decreases max_steps - k,
    {
        let ghost prev = m@;
        match run_step(&mut m, table, false) {
            None => {
                proof {
                    assert(run_to(table@, c0, k as nat + 1) == RunStatus::Running(m@));
                }
                k = k + 1;
            },
            Some(o) => {
                proof {
                    let st = step_status(table@, RunStatus::Running(prev));
                    if st is Running {
                        // The head has moved at most one cell per step, so the
                        // follower's index is representable and the step could
                        // not have halted.
                        assert(spec_run_step(table@, prev, false).0 is None);
                        assert(false);
                    }
                    assert(run_to(table@, c0, k as nat + 1) == st);
                    lemma_halted_runs_stay(table@, c0, k as nat + 1, max_steps as nat);
                }
                return Some(o);
            },
        }
    }
    None
}

} // verus!
