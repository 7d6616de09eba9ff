//! The sparse tape: a finite set of explicitly written cells over signed,
//! unbounded cell indices; every index never written holds the blank symbol.

use vstd::prelude::*;

verus! {

/// The reserved blank symbol, the implicit content of every cell never written.
pub open spec fn blank() -> char {
    'B'
}

/// What a cell of tape `t` holds at index `k`: the symbol written there, or
/// the blank symbol for an index absent from the written cells.
pub open spec fn tape_read(t: Map<int, char>, k: int) -> char {
    if t.dom().contains(k) {
        t[k]
    } else {
        blank()
    }
}

/// The written cells of a sequence of entries, later entries overriding
/// earlier ones with the same index.
pub open spec fn cells_map(s: Seq<(i64, char)>) -> Map<int, char>
    decreases s.len(),
{
    if s.len() == 0 {
        Map::empty()
    } else {
        cells_map(s.drop_last()).insert(s.last().0 as int, s.last().1)
    }
}

/// No two entries share a cell index.
pub open spec fn unique_keys(s: Seq<(i64, char)>) -> bool {
    forall|i: int, j: int|
        0 <= i < j < s.len() ==> (#[trigger] s[i]).0 != (#[trigger] s[j]).0
}

/// A sparse tape, holding only the cells that were explicitly written.
pub struct Tape {
    cells: Vec<(i64, char)>,
}

impl View for Tape {
    type V = Map<int, char>;

    /// The written cells, as a map from cell index to symbol.
    closed spec fn view(&self) -> Map<int, char> {
        cells_map(self.cells@)
    }
}

proof fn lemma_cells_map_dom(s: Seq<(i64, char)>, k: int)
    ensures
        cells_map(s).dom().contains(k) <==> exists|i: int|
            0 <= i < s.len() && (#[trigger] s[i]).0 as int == k,
    decreases s.len(),
{
    if s.len() > 0 {
        lemma_cells_map_dom(s.drop_last(), k);
        if s.last().0 as int == k {
            assert(s[s.len() - 1].0 as int == k);
        } else if cells_map(s).dom().contains(k) {
            let i = choose|i: int|
                0 <= i < s.drop_last().len() && (#[trigger] s.drop_last()[i]).0 as int == k;
            assert(s[i].0 as int == k);
        } else if exists|i: int| 0 <= i < s.len() && (#[trigger] s[i]).0 as int == k {
            let i = choose|i: int| 0 <= i < s.len() && (#[trigger] s[i]).0 as int == k;
            assert(i < s.len() - 1);
            assert(s.drop_last()[i] == s[i]);
        }
    }
}

proof fn lemma_cells_map_at(s: Seq<(i64, char)>, i: int)
    requires
        unique_keys(s),
        0 <= i < s.len(),
    ensures
        cells_map(s).dom().contains(s[i].0 as int),
        cells_map(s)[s[i].0 as int] == s[i].1,
    decreases s.len(),
{
    if i < s.len() - 1 {
        lemma_cells_map_at(s.drop_last(), i);
        assert(s.drop_last()[i] == s[i]);
        assert(s[i].0 != s.last().0);
    }
}

impl Tape {
    /// Every written cell has one entry: the representation never holds two
    /// entries for the same index.
    pub closed spec fn wf(&self) -> bool {
        unique_keys(self.cells@)
    }

    /// A fresh, entirely blank tape.
    pub fn new() -> (t: Tape)
        ensures
            t.wf(),
            t@ == Map::<int, char>::empty(),
    {
        Tape { cells: Vec::new() }
    }

    /// Write `symbol` at cell `location`, replacing what was written there or
    /// adding the cell. Writing the blank symbol still records the cell.
    pub fn write(&mut self, location: i64, symbol: char)
        requires
            old(self).wf(),
        ensures
            final(self).wf(),
            final(self)@ == old(self)@.insert(location as int, symbol),
    {
        let n = self.cells.len();
        let mut i: usize = 0;
        while i < n
            invariant
                n == self.cells@.len(),
                i <= n,
                self == old(self),
                self.wf(),
                forall|j: int| 0 <= j < i ==> (#[trigger] self.cells@[j]).0 != location,
            decreases n - i,
        {
            if self.cells[i].0 == location {
                proof {
                    lemma_update_entry(self.cells@, i as int, symbol);
                }
                self.cells.set(i, (location, symbol));
                return;
            }
            i += 1;
        }
        proof {
            lemma_push_entry(self.cells@, location, symbol);
        }
        self.cells.push((location, symbol));
    }

    /// The least and greatest written cell index, or nothing when no cell was
    /// ever written.
    pub fn key_bounds(&self) -> (r: Option<(i64, i64)>)
        ensures
            match r {
                None => self@.dom() == Set::<int>::empty(),
                Some((mn, mx)) => is_min_key(self@, mn as int) && is_max_key(self@, mx as int),
            },
    {
        let n = self.cells.len();
        if n == 0 {
            proof {
                assert forall|k: int| !self@.dom().contains(k) by {
                    lemma_cells_map_dom(self.cells@, k);
                }
                assert(self@.dom() =~= Set::<int>::empty());
            }
            return None;
        }
        let mut mn = self.cells[0].0;
        let mut mx = self.cells[0].0;
        let mut i: usize = 1;
        while i < n
            invariant
                n == self.cells@.len(),
                1 <= i <= n,
                exists|j: int| 0 <= j < i && (#[trigger] self.cells@[j]).0 == mn,
                exists|j: int| 0 <= j < i && (#[trigger] self.cells@[j]).0 == mx,
                forall|j: int| 0 <= j < i ==> mn <= (#[trigger] self.cells@[j]).0 <= mx,
            decreases n - i,
        {
            let k = self.cells[i].0;
            if k < mn {
                mn = k;
            }
            if k > mx {
                mx = k;
            }
            i += 1;
        }
        proof {
            assert forall|k: int| self@.dom().contains(k) implies mn as int <= k <= mx as int by {
                lemma_cells_map_dom(self.cells@, k);
            }
            lemma_cells_map_dom(self.cells@, mn as int);
            lemma_cells_map_dom(self.cells@, mx as int);
        }
        Some((mn, mx))
    }
}

/// `k` is a written cell index and no written cell lies left of it.
pub open spec fn is_min_key(t: Map<int, char>, k: int) -> bool {
    t.dom().contains(k) && forall|j: int| t.dom().contains(j) ==> k <= j
}

/// `k` is a written cell index and no written cell lies right of it.
pub open spec fn is_max_key(t: Map<int, char>, k: int) -> bool {
    t.dom().contains(k) && forall|j: int| t.dom().contains(j) ==> j <= k
}

proof fn lemma_update_entry(s: Seq<(i64, char)>, i: int, symbol: char)
    requires
        unique_keys(s),
        0 <= i < s.len(),
    ensures
        unique_keys(s.update(i, (s[i].0, symbol))),
        cells_map(s.update(i, (s[i].0, symbol))) == cells_map(s).insert(s[i].0 as int, symbol),
    decreases s.len(),
{
    let t = s.update(i, (s[i].0, symbol));
    assert(unique_keys(t)) by {
        assert(forall|j: int| 0 <= j < s.len() ==> (#[trigger] t[j]).0 == s[j].0);
    }
    if i == s.len() - 1 {
        assert(t.drop_last() =~= s.drop_last());
        assert(t.last() == (s[i].0, symbol));
    } else {
        assert(t.drop_last() =~= s.drop_last().update(i, (s[i].0, symbol)));
        assert(s.drop_last()[i] == s[i]);
        lemma_update_entry(s.drop_last(), i, symbol);
        // The two written cells have distinct indices, so the inserts commute.
        assert(s[i].0 != s.last().0);
        assert(cells_map(s.drop_last()).insert(s[i].0 as int, symbol).insert(
            s.last().0 as int,
            s.last().1,
        ) =~= cells_map(s.drop_last()).insert(s.last().0 as int, s.last().1).insert(
            s[i].0 as int,
            symbol,
        ));
        assert(t.last() == s.last());
    }
}

proof fn lemma_push_entry(s: Seq<(i64, char)>, location: i64, symbol: char)
    requires
        unique_keys(s),
        forall|j: int| 0 <= j < s.len() ==> (#[trigger] s[j]).0 != location,
    ensures
        unique_keys(s.push((location, symbol))),
        cells_map(s.push((location, symbol))) == cells_map(s).insert(location as int, symbol),
{
    let t = s.push((location, symbol));
    assert(unique_keys(t)) by {
        assert(forall|j: int| 0 <= j < s.len() ==> (#[trigger] t[j]).0 == s[j].0);
        assert(t[s.len() as int].0 == location);
    }
    assert(t.drop_last() =~= s);
    assert(t.last() == (location, symbol));
}

/// The symbol at cell `location` of `input`: what was written there, or the
/// blank symbol for a cell never written.
pub fn get_from_tape(input: &Tape, location: i64) -> (c: char)
    requires
        input.wf(),
    ensures
        c == tape_read(input@, location as int),
{
    let n = input.cells.len();
    let mut i: usize = 0;
    while i < n
        invariant
            n == input.cells@.len(),
            i <= n,
            input.wf(),
            forall|j: int| 0 <= j < i ==> (#[trigger] input.cells@[j]).0 != location,
        decreases n - i,
    {
        let (k, v) = input.cells[i];
        if k == location {
            proof {
                lemma_cells_map_at(input.cells@, i as int);
            }
            return v;
        }
        i += 1;
    }
    proof {
        lemma_cells_map_dom(input.cells@, location as int);
    }
    blank_symbol()
}

/// The blank symbol as a runtime value.
pub fn blank_symbol() -> (c: char)
    ensures
        c == blank(),
{
    'B'
}

/// A cell never written reads as the blank symbol; writing the blank symbol
/// explicitly leaves every read unchanged, yet records the cell among the
/// written ones (which the trace window bounds are computed from).
pub proof fn lemma_blank_cells(t: Map<int, char>, k: int)
    requires
        !t.dom().contains(k),
    ensures
        tape_read(t, k) == blank(),
        tape_read(t.insert(k, blank()), k) == blank(),
        t.insert(k, blank()).dom().contains(k),
        forall|j: int| tape_read(t.insert(k, blank()), j) == tape_read(t, j),
{
    assert forall|j: int| tape_read(t.insert(k, blank()), j) == tape_read(t, j) by {
        if j != k {
            assert(t.insert(k, blank()).dom().contains(j) <==> t.dom().contains(j));
        }
    }
}

} // verus!
