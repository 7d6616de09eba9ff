//! The transition table: an immutable partial function from (current state,
//! symbol under the head) to (next state, symbol to write, head movement),
//! built once from a list of rules. When two rules share a source key, the
//! later rule wins.

use vstd::prelude::*;

use crate::str_eq;

verus! {

/// Which way the head moves after a transition.
#[derive(Clone, Copy, Debug, PartialEq, Eq, Structural)]
pub enum Direction {
    Left,
    Right,
}

/// The source key of a transition rule: the state the machine is in and the
/// symbol under its head.
#[derive(Debug)]
pub struct TransitionSource {
    pub state_number: String,
    pub tape_symbol: char,
}

/// What a matched transition prescribes: the state to enter, the symbol to
/// write at the head, and the direction to move.
#[derive(Debug)]
pub struct TransitionResult {
    pub new_state: String,
    pub new_tape_symbol: char,
    pub direction: Direction,
}

/// The mathematical content of a [`TransitionResult`].
pub ghost struct ResultModel {
    pub new_state: Seq<char>,
    pub new_tape_symbol: char,
    pub direction: Direction,
}

impl View for TransitionResult {
    type V = ResultModel;

    open spec fn view(&self) -> ResultModel {
        ResultModel {
            new_state: self.new_state@,
            new_tape_symbol: self.new_tape_symbol,
            direction: self.direction,
        }
    }
}

/// One transition rule, as the table builder consumes it.
#[derive(Debug)]
pub struct Rule {
    pub source: TransitionSource,
    pub result: TransitionResult,
}

/// The source key of a rule, over the mathematical view of its state.
pub open spec fn rule_key(r: Rule) -> (Seq<char>, char) {
    (r.source.state_number@, r.source.tape_symbol)
}

/// The partial function that a list of rules denotes: each source key maps to
/// the result of the last rule that carries it.
pub open spec fn table_of(rules: Seq<Rule>) -> Map<(Seq<char>, char), ResultModel>
    decreases rules.len(),
{
    if rules.len() == 0 {
        Map::empty()
    } else {
        table_of(rules.drop_last()).insert(rule_key(rules.last()), rules.last().result@)
    }
}

/// Appending a rule replaces whatever its source key was mapped to: the last
/// occurrence of a key decides its entry, so appending duplicates of already
/// listed keys is the same as overwriting those entries in place.
pub proof fn lemma_table_last_write_wins(rules: Seq<Rule>, r: Rule)
    ensures
        table_of(rules.push(r)) == table_of(rules).insert(rule_key(r), r.result@),
{
    assert(rules.push(r).drop_last() =~= rules);
    assert(rules.push(r).last() == r);
}

/// Building a table from a rule list followed by further rules — duplicated
/// keys among them — yields the table of the first list with every entry of a
/// duplicated key replaced by the last occurrence's result: the appended
/// rules simply override the earlier ones.
pub proof fn lemma_table_append_overrides(rules: Seq<Rule>, more: Seq<Rule>)
    ensures
        table_of(rules + more) == table_of(rules).union_prefer_right(table_of(more)),
    decreases more.len(),
{
    if more.len() == 0 {
        assert(rules + more =~= rules);
        assert(table_of(rules).union_prefer_right(table_of(more)) =~= table_of(rules));
    } else {
        let r = more.last();
        lemma_table_append_overrides(rules, more.drop_last());
        assert(rules + more =~= (rules + more.drop_last()).push(r));
        lemma_table_last_write_wins(rules + more.drop_last(), r);
        lemma_table_last_write_wins(more.drop_last(), r);
        assert(more.drop_last().push(r) =~= more);
        assert(table_of(rules).union_prefer_right(table_of(more.drop_last())).insert(
            rule_key(r),
            r.result@,
        ) =~= table_of(rules).union_prefer_right(
            table_of(more.drop_last()).insert(rule_key(r), r.result@),
        ));
    }
}

proof fn lemma_table_of_dom(rules: Seq<Rule>, k: (Seq<char>, char))
    ensures
        table_of(rules).dom().contains(k) <==> exists|i: int|
            0 <= i < rules.len() && rule_key(#[trigger] rules[i]) == k,
    decreases rules.len(),
{
    if rules.len() > 0 {
        lemma_table_of_dom(rules.drop_last(), k);
        if rule_key(rules.last()) == k {
            assert(rule_key(rules[rules.len() - 1]) == k);
        } else if exists|i: int| 0 <= i < rules.len() && rule_key(#[trigger] rules[i]) == k {
            let i = choose|i: int| 0 <= i < rules.len() && rule_key(#[trigger] rules[i]) == k;
            assert(i < rules.len() - 1);
            assert(rules.drop_last()[i] == rules[i]);
        } else {
            if table_of(rules).dom().contains(k) {
                let i = choose|i: int|
                    0 <= i < rules.drop_last().len() && rule_key(
                        #[trigger] rules.drop_last()[i],
                    ) == k;
                assert(rules[i] == rules.drop_last()[i]);
            }
        }
    }
}

proof fn lemma_table_of_at(rules: Seq<Rule>, i: int)
    requires
        0 <= i < rules.len(),
        forall|j: int| i < j < rules.len() ==> rule_key(#[trigger] rules[j]) != rule_key(rules[i]),
    ensures
        table_of(rules).dom().contains(rule_key(rules[i])),
        table_of(rules)[rule_key(rules[i])] == rules[i].result@,
    decreases rules.len(),
{
    if i < rules.len() - 1 {
        assert(forall|j: int|
            i < j < rules.drop_last().len() ==> rule_key(#[trigger] rules.drop_last()[j])
                != rule_key(rules.drop_last()[i]));
        lemma_table_of_at(rules.drop_last(), i);
        assert(rules.drop_last()[i] == rules[i]);
        assert(rule_key(rules.last()) != rule_key(rules[i]));
    }
}

/// The transition table. Lookups honor the last rule listed for a key, so a
/// duplicated source key silently overrides the earlier rule rather than
/// being reported as an error.
pub struct Table {
    rules: Vec<Rule>,
}

impl View for Table {
    type V = Map<(Seq<char>, char), ResultModel>;

    /// The partial function the table computes.
    closed spec fn view(&self) -> Map<(Seq<char>, char), ResultModel> {
        table_of(self.rules@)
    }
}

impl Table {
    /// Build the table from parsed rules, later rules overriding earlier ones
    /// with the same source key.
    pub fn build(rules: Vec<Rule>) -> (t: Table)
        ensures
            t@ == table_of(rules@),
    {
        Table { rules }
    }

    /// The transition defined for `(state, symbol)`, if any. No match is the
    /// signal for rejection, not a fault.
    pub fn lookup(&self, state: &str, symbol: char) -> (r: Option<&TransitionResult>)
        ensures
            match r {
                Some(res) => self@.dom().contains((state@, symbol)) && res@ == self@[
                    (state@, symbol)
                ],
                None => !self@.dom().contains((state@, symbol)),
            },
    {
        let n = self.rules.len();
        let mut i: usize = n;
        while i > 0
            invariant
                n == self.rules@.len(),
                i <= n,
                forall|j: int|
                    i <= j < n ==> rule_key(#[trigger] self.rules@[j]) != (state@, symbol),
            decreases i,
        {
            i -= 1;
            let r = &self.rules[i];
            if r.source.tape_symbol == symbol && str_eq(r.source.state_number.as_str(), state) {
                proof {
                    lemma_table_of_at(self.rules@, i as int);
                }
                return Some(&r.result);
            }
        }
        proof {
            lemma_table_of_dom(self.rules@, (state@, symbol));
        }
        None
    }
}

} // verus!
