use turing::machine::{
    execute, execute_bounded, run_step, CancelSource, CollectingSink, Machine, NeverCancel,
    Outcome, ScriptedCancel,
};
use turing::table::{Direction, Rule, Table, TransitionResult, TransitionSource};
use turing::tape::get_from_tape;

fn rule(state: &str, sym: char, new_state: &str, new_sym: char, dir: Direction) -> Rule {
    Rule {
        source: TransitionSource {
            state_number: state.to_string(),
            tape_symbol: sym,
        },
        result: TransitionResult {
            new_state: new_state.to_string(),
            new_tape_symbol: new_sym,
            direction: dir,
        },
    }
}

#[test]
fn single_rule_accepts_with_trace() {
    let table = Table::build(vec![rule("0", '1', "f", '1', Direction::Right)]);
    let mut sink = CollectingSink::new();
    let mut cancel = NeverCancel;
    let outcome = execute("1", &table, &mut sink, &mut cancel);
    assert_eq!(outcome, Outcome::Accepted);
    assert_eq!(sink.lines.len(), 2);
    assert_eq!(sink.lines[0], "|q0=>1|");
    assert_eq!(sink.lines[1], "1|qf=>B|");
}

#[test]
fn single_rule_final_configuration() {
    let table = Table::build(vec![rule("0", '1', "f", '1', Direction::Right)]);
    let mut m = Machine::new("1");
    assert_eq!(m.head, 0);
    assert_eq!(m.state, "0");
    let first = run_step(&mut m, &table, false);
    assert!(first.is_none());
    assert_eq!(m.head, 1);
    assert_eq!(m.state, "f");
    assert_eq!(get_from_tape(&m.tape, 0), '1');
    assert_eq!(get_from_tape(&m.tape, 1), 'B');
    let second = run_step(&mut m, &table, false);
    assert_eq!(second, Some(Outcome::Accepted));
    assert_eq!(m.head, 1);
}

#[test]
fn empty_table_rejects_immediately() {
    let table = Table::build(vec![]);
    let mut sink = CollectingSink::new();
    let mut cancel = NeverCancel;
    let outcome = execute("0", &table, &mut sink, &mut cancel);
    assert_eq!(
        outcome,
        Outcome::Rejected {
            state: "0".to_string(),
            symbol: '0',
        }
    );
    assert_eq!(sink.lines, vec!["|q0=>0|".to_string()]);
}

#[test]
fn empty_word_blank_rule_accepts() {
    let table = Table::build(vec![rule("0", 'B', "f", 'B', Direction::Right)]);
    let mut sink = CollectingSink::new();
    let mut cancel = NeverCancel;
    let outcome = execute("", &table, &mut sink, &mut cancel);
    assert_eq!(outcome, Outcome::Accepted);
    // The first step sees an entirely blank tape, so it emits no line.
    assert_eq!(sink.lines, vec!["B|qf=>B|".to_string()]);

    let mut m = Machine::new("");
    assert!(run_step(&mut m, &table, false).is_none());
    assert_eq!(m.head, 1);
    assert_eq!(m.state, "f");
}

#[test]
fn cancellation_interrupts_looping_machine() {
    let table = Table::build(vec![
        rule("0", '0', "0", '0', Direction::Right),
        rule("0", 'B', "0", 'B', Direction::Right),
    ]);
    let mut sink = CollectingSink::new();
    let mut cancel = ScriptedCancel::new(5);
    let outcome = execute("0", &table, &mut sink, &mut cancel);
    assert_eq!(outcome, Outcome::Interrupted);
    // Five steps ran before the cancellation was observed; the cancelled
    // iteration emits no trace.
    assert_eq!(sink.lines.len(), 5);
}

#[test]
fn cancelled_step_leaves_run_state_unchanged() {
    let table = Table::build(vec![rule("0", '1', "f", '1', Direction::Right)]);
    let mut m = Machine::new("1");
    let r = run_step(&mut m, &table, true);
    assert_eq!(r, Some(Outcome::Interrupted));
    assert_eq!(m.head, 0);
    assert_eq!(m.state, "0");
    assert_eq!(get_from_tape(&m.tape, 0), '1');
}

#[test]
fn missing_pair_rejects_and_stops_writing() {
    let table = Table::build(vec![rule("0", '1', "2", 'x', Direction::Right)]);
    let mut m = Machine::new("1");
    assert!(run_step(&mut m, &table, false).is_none());
    let r = run_step(&mut m, &table, false);
    assert_eq!(
        r,
        Some(Outcome::Rejected {
            state: "2".to_string(),
            symbol: 'B',
        })
    );
    assert_eq!(m.head, 1);
    assert_eq!(m.state, "2");
    assert_eq!(get_from_tape(&m.tape, 0), 'x');
    assert_eq!(get_from_tape(&m.tape, 1), 'B');
}

#[test]
fn bounded_run_detects_acceptance() {
    let table = Table::build(vec![rule("0", '1', "f", '1', Direction::Right)]);
    assert_eq!(execute_bounded("1", &table, 2), Some(Outcome::Accepted));
    assert_eq!(execute_bounded("1", &table, 1), None);
}

#[test]
fn bounded_run_detects_rejection() {
    let table = Table::build(vec![]);
    assert_eq!(
        execute_bounded("0", &table, 1),
        Some(Outcome::Rejected {
            state: "0".to_string(),
            symbol: '0',
        })
    );
    assert_eq!(execute_bounded("0", &table, 0), None);
}

#[test]
fn bounded_run_reports_still_running() {
    let table = Table::build(vec![
        rule("0", '0', "0", '0', Direction::Right),
        rule("0", 'B', "0", 'B', Direction::Right),
    ]);
    assert_eq!(execute_bounded("0", &table, 1000), None);
}

#[test]
fn machine_moves_left_of_origin() {
    let table = Table::build(vec![
        rule("0", '1', "1", 'a', Direction::Left),
        rule("1", 'B', "f", 'b', Direction::Left),
    ]);
    let mut m = Machine::new("1");
    assert!(run_step(&mut m, &table, false).is_none());
    assert_eq!(m.head, -1);
    assert!(run_step(&mut m, &table, false).is_none());
    assert_eq!(m.head, -2);
    assert_eq!(m.state, "f");
    assert_eq!(get_from_tape(&m.tape, 0), 'a');
    assert_eq!(get_from_tape(&m.tape, -1), 'b');
}

#[test]
fn outcome_equality_compares_contents() {
    assert_eq!(
        Outcome::Rejected {
            state: "q".to_string(),
            symbol: 'a',
        },
        Outcome::Rejected {
            state: "q".to_string(),
            symbol: 'a',
        }
    );
    assert_ne!(Outcome::Accepted, Outcome::Interrupted);
    assert_ne!(
        Outcome::Rejected {
            state: "q".to_string(),
            symbol: 'a',
        },
        Outcome::Rejected {
            state: "q".to_string(),
            symbol: 'b',
        }
    );
}

#[test]
fn scripted_cancel_fires_exactly_once() {
    let mut c = ScriptedCancel::new(2);
    assert!(!c.poll());
    assert!(!c.poll());
    assert!(c.poll());
    assert!(!c.poll());
    assert!(!c.poll());
}
