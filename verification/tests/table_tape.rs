use turing::render::render_id;
use turing::str_eq;
use turing::table::{Direction, Rule, Table, TransitionResult, TransitionSource};
use turing::tape::{blank_symbol, get_from_tape, Tape};

fn rule(state: &str, sym: char, new_state: &str, new_sym: char, dir: Direction) -> Rule {
    Rule {
        source: TransitionSource {
            state_number: state.to_string(),
            tape_symbol: sym,
        },
        result: TransitionResult {
            new_state: new_state.to_string(),
            new_tape_symbol: new_sym,
            direction: dir,
        },
    }
}

#[test]
fn lookup_finds_matching_rule() {
    let table = Table::build(vec![
        rule("0", '1', "f", '1', Direction::Right),
        rule("0", '0', "1", 'x', Direction::Left),
    ]);
    let r = table.lookup("0", '0').unwrap();
    assert_eq!(r.new_state, "1");
    assert_eq!(r.new_tape_symbol, 'x');
    assert_eq!(r.direction, Direction::Left);
    assert!(table.lookup("0", '2').is_none());
    assert!(table.lookup("1", '1').is_none());
}

#[test]
fn duplicate_keys_last_rule_wins() {
    let table = Table::build(vec![
        rule("0", '1', "a", 'x', Direction::Left),
        rule("0", '1', "f", '1', Direction::Right),
    ]);
    let r = table.lookup("0", '1').unwrap();
    assert_eq!(r.new_state, "f");
    assert_eq!(r.new_tape_symbol, '1');
    assert_eq!(r.direction, Direction::Right);
}

#[test]
fn unwritten_cells_read_blank() {
    let t = Tape::new();
    assert_eq!(get_from_tape(&t, 0), 'B');
    assert_eq!(get_from_tape(&t, -17), 'B');
    assert_eq!(blank_symbol(), 'B');
    assert_eq!(t.key_bounds(), None);
}

#[test]
fn writes_read_back_and_overwrite() {
    let mut t = Tape::new();
    t.write(3, 'a');
    t.write(-2, 'b');
    assert_eq!(get_from_tape(&t, 3), 'a');
    assert_eq!(get_from_tape(&t, -2), 'b');
    assert_eq!(get_from_tape(&t, 0), 'B');
    t.write(3, 'c');
    assert_eq!(get_from_tape(&t, 3), 'c');
    assert_eq!(t.key_bounds(), Some((-2, 3)));
}

#[test]
fn explicit_blank_counts_toward_window_bounds() {
    let mut t = Tape::new();
    t.write(2, 'B');
    assert_eq!(get_from_tape(&t, 2), 'B');
    assert_eq!(t.key_bounds(), Some((2, 2)));
    let line = render_id(&t, "0", 0).unwrap();
    assert_eq!(line, "|q0=>B|BB");
}

#[test]
fn render_skips_entirely_blank_tape() {
    let t = Tape::new();
    assert!(render_id(&t, "0", 3).is_none());
}

#[test]
fn render_marks_head_cell() {
    let mut t = Tape::new();
    t.write(0, 'a');
    t.write(1, 'b');
    t.write(2, 'c');
    let line = render_id(&t, "5", 1).unwrap();
    assert_eq!(line, "a|q5=>b|c");
}

#[test]
fn render_extends_window_to_head() {
    let mut t = Tape::new();
    t.write(0, 'a');
    let line = render_id(&t, "0", 2).unwrap();
    assert_eq!(line, "aB|q0=>B|");
    let left = render_id(&t, "0", -1).unwrap();
    assert_eq!(left, "|q0=>B|a");
}

#[test]
fn str_eq_compares_contents() {
    assert!(str_eq("abc", "abc"));
    assert!(!str_eq("abc", "abd"));
    assert!(!str_eq("abc", "ab"));
    assert!(str_eq("", ""));
}
