//! The skeleton of the subset construction from an NFA to a DFA: the
//! ε-closure keeps the set it is given, a move on a symbol gives the empty
//! set, and the table built has one row, for the empty set, with the empty
//! set under each symbol of the alphabet.
use vstd::prelude::*;
use crate::text::str_equal;

verus! {

/// A state of the automaton: its number and whether it accepts.
#[derive(Clone, Copy, PartialEq, Eq, Structural)]
pub struct State {
    pub id: usize,
    pub is_end: bool,
}

impl State {
    /// A state numbered `id` that does not accept.
    pub fn new(id: usize) -> (r: Self)
        ensures
            r.id == id,
            !r.is_end,
    {
        State { id, is_end: false }
    }
}

/// The symbols of `alphabet` without repeats, in order of first appearance.
pub open spec fn distinct_symbols(alphabet: Seq<Seq<char>>) -> Seq<Seq<char>>
    decreases alphabet.len(),
{
    if alphabet.len() == 0 {
        Seq::empty()
    } else {
        let prev = distinct_symbols(alphabet.drop_last());
        if prev.contains(alphabet.last()) { prev } else { prev.push(alphabet.last()) }
    }
}

/// The transition table as mathematical values: rows of a state set and,
/// for each symbol, the state set it leads to.
pub open spec fn table_view(t: Seq<(Vec<State>, Vec<(String, Vec<State>)>)>) -> Seq<(Seq<State>, Seq<(Seq<char>, Seq<State>)>)> {
    t.map_values(|row: (Vec<State>, Vec<(String, Vec<State>)>)| (row.0@, row_view(row.1@)))
}

/// The table built for `alphabet`: nothing for an empty alphabet, else one
/// row for the empty set with the empty set under each symbol.
pub open spec fn subset_table(alphabet: Seq<Seq<char>>) -> Seq<(Seq<State>, Seq<(Seq<char>, Seq<State>)>)> {
    if alphabet.len() == 0 {
        Seq::empty()
    } else {
        seq![(Seq::empty(), distinct_symbols(alphabet).map_values(|s: Seq<char>| empty_entry(s)))]
    }
}

/// One row's entries as mathematical values.
pub open spec fn row_view(r: Seq<(String, Vec<State>)>) -> Seq<(Seq<char>, Seq<State>)> {
    r.map_values(|e: (String, Vec<State>)| (e.0@, e.1@))
}

/// The symbols of an alphabet as mathematical values.
pub open spec fn alpha_view(a: Seq<&str>) -> Seq<Seq<char>> {
    a.map_values(|s: &str| s@)
}

/// The entry of symbol `s` leading to the empty set.
pub open spec fn empty_entry(s: Seq<char>) -> (Seq<char>, Seq<State>) {
    (s, Seq::<State>::empty())
}

/// The subset construction.
pub struct SubsetConstruction;

impl SubsetConstruction {
    /// The ε-closure of `states`, which here is `states` itself.
    pub fn epsilon_closure(states: &Vec<State>) -> (r: Vec<State>)
        ensures
            r@ == states@,
    {
        let mut stack: Vec<State> = Vec::new();
        let mut i: usize = 0;
        while i < states.len()
            invariant
                i <= states@.len(),
            decreases states@.len() - i,
        {
            stack.push(states[i]);
            i = i + 1;
        }
        let mut closure: Vec<State> = Vec::new();
        let mut i: usize = 0;
        while i < states.len()
            invariant
                i <= states@.len(),
                closure@ == states@.take(i as int),
            decreases states@.len() - i,
        {
            closure.push(states[i]);
            i = i + 1;
            assert(closure@ =~= states@.take(i as int));
        }
        while stack.len() > 0
            decreases stack@.len(),
        {
            stack.pop();
        }
        assert(states@.take(i as int) =~= states@);
        closure
    }

    /// The states reached from `states` on `symbol`, which here are none.
    pub fn move_states(states: &Vec<State>, symbol: &str) -> (r: Vec<State>)
        ensures
            r@.len() == 0,
    {
        Vec::new()
    }

    /// The transition table for `alphabet`.
    pub fn convert(start_id: usize, alphabet: &Vec<&str>) -> (r: Vec<(Vec<State>, Vec<(String, Vec<State>)>)>)
        ensures
            table_view(r@) == subset_table(alpha_view(alphabet@)),
    {
        let ghost av = alpha_view(alphabet@);
        let mut row: Vec<(String, Vec<State>)> = Vec::new();
        let mut i: usize = 0;
        while i < alphabet.len()
            invariant
                av == alpha_view(alphabet@),
                i <= av.len(),
                row_view(row@)
                    == distinct_symbols(av.take(i as int)).map_values(|s: Seq<char>| empty_entry(s)),
            decreases av.len() - i,
        {
            let ghost rv = row_view(row@);
            let ghost prev = distinct_symbols(av.take(i as int));
            assert(av.take(i + 1).drop_last() =~= av.take(i as int));
            let mut k: usize = 0;
            let mut found = false;
            while k < row.len()
                invariant
                    rv == row_view(row@),
                    rv == prev.map_values(|s: Seq<char>| empty_entry(s)),
                    av == alpha_view(alphabet@),
                    i < av.len(),
                    k <= rv.len(),
                    found == exists|j: int| 0 <= j < k && prev[j] == av[i as int],
                decreases rv.len() - k,
            {
                assert(rv[k as int].0 == prev[k as int]);
                if str_equal(row[k].0.as_str(), alphabet[i]) {
                    found = true;
                }
                k = k + 1;
            }
            assert(found == prev.contains(av[i as int]));
            if !found {
                let ghost r0 = row_view(row@);
                row.push((String::from_str(alphabet[i]), Vec::new()));
                assert(row_view(row@) =~= r0.push(empty_entry(av[i as int])));
                assert(row_view(row@)
                    =~= prev.push(av[i as int]).map_values(|s: Seq<char>| empty_entry(s)));
            }
            i = i + 1;
        }
        assert(av.take(i as int) =~= av);
        let mut table: Vec<(Vec<State>, Vec<(String, Vec<State>)>)> = Vec::new();
        if alphabet.len() > 0 {
            table.push((Vec::new(), row));
        }
        assert(table_view(table@) =~= subset_table(av));
        table
    }
}

} // verus!
