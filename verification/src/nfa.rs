//! Thompson's construction of NFAs: basic automata for single symbols, and
//! their concatenation, union and Kleene star, joined by ε-transitions.
//!
//! States are numbered from 1 by a counter, and state `n` is expected at
//! position `n - 1` of the state lists that the operations combine.
use vstd::prelude::*;
use crate::text::str_equal;

verus! {

/// A state: its number, whether it accepts, its transitions by symbol, and
/// its ε-transitions.
pub struct State {
    pub id: usize,
    pub is_end: bool,
    pub transitions: Vec<(String, Vec<usize>)>,
    pub epsilon_transitions: Vec<usize>,
}

/// A state as mathematical values.
pub type StateView = (nat, bool, Seq<(Seq<char>, Seq<usize>)>, Seq<usize>);

impl View for State {
    type V = StateView;

    open spec fn view(&self) -> StateView {
        (self.id as nat, self.is_end, trans_view(self.transitions@), self.epsilon_transitions@)
    }
}

/// The transitions of a state as mathematical values.
pub open spec fn trans_view(t: Seq<(String, Vec<usize>)>) -> Seq<(Seq<char>, Seq<usize>)> {
    t.map_values(|e: (String, Vec<usize>)| (e.0@, e.1@))
}

/// The views of a list of states.
pub open spec fn states_view(v: Seq<State>) -> Seq<StateView> {
    v.map_values(|s: State| s@)
}

/// A fresh state numbered `id`.
pub open spec fn fresh_state(id: nat) -> StateView {
    (id, false, Seq::empty(), Seq::empty())
}

/// State `i` with the ε-transitions `more` appended.
pub open spec fn add_eps(sv: Seq<StateView>, i: int, more: Seq<usize>) -> Seq<StateView> {
    sv.update(i, (sv[i].0, sv[i].1, sv[i].2, sv[i].3 + more))
}

/// The position of the first transition on `symbol`, from position `k` on.
pub open spec fn trans_index(t: Seq<(Seq<char>, Seq<usize>)>, symbol: Seq<char>, k: int) -> Option<int>
    decreases t.len() - k,
{
    if k < 0 || k >= t.len() {
        None
    } else if t[k].0 == symbol {
        Some(k)
    } else {
        trans_index(t, symbol, k + 1)
    }
}

/// State `i` with its transitions on `symbol` set to `targets`.
pub open spec fn set_transition(sv: Seq<StateView>, i: int, symbol: Seq<char>, targets: Seq<usize>) -> Seq<StateView> {
    let t = sv[i].2;
    let t2 = match trans_index(t, symbol, 0) {
        Some(k) => t.update(k, (symbol, targets)),
        None => t.push((symbol, targets)),
    };
    sv.update(i, (sv[i].0, sv[i].1, t2, sv[i].3))
}

impl State {
    /// A state numbered `id` with no transitions.
    pub fn new(id: usize) -> (r: Self)
        ensures
            r@ == fresh_state(id as nat),
    {
        let r = State { id, is_end: false, transitions: Vec::new(), epsilon_transitions: Vec::new() };
        assert(r@.2 =~= Seq::<(Seq<char>, Seq<usize>)>::empty());
        r
    }

    /// A copy of the state.
    pub fn copy(&self) -> (r: Self)
        ensures
            r@ == self@,
    {
        let mut transitions: Vec<(String, Vec<usize>)> = Vec::new();
        let mut i: usize = 0;
        while i < self.transitions.len()
            invariant
                i <= self.transitions@.len(),
                trans_view(transitions@)
                    == trans_view(self.transitions@).take(i as int),
            decreases self.transitions@.len() - i,
        {
            let ghost t0 = trans_view(transitions@);
            transitions.push((self.transitions[i].0.clone(), copy_targets(&self.transitions[i].1)));
            assert(trans_view(transitions@) =~= t0.push(trans_view(self.transitions@)[i as int]));
            i = i + 1;
            assert(trans_view(transitions@)
                =~= trans_view(self.transitions@).take(i as int));
        }
        assert(trans_view(self.transitions@).take(i as int)
            =~= trans_view(self.transitions@));
        State { id: self.id, is_end: self.is_end, transitions, epsilon_transitions: copy_targets(&self.epsilon_transitions) }
    }
}

/// A copy of a list of state numbers.
fn copy_targets(v: &Vec<usize>) -> (r: Vec<usize>)
    ensures
        r@ == v@,
{
    let mut r: Vec<usize> = Vec::new();
    let mut i: usize = 0;
    while i < v.len()
        invariant
            i <= v@.len(),
            r@ == v@.take(i as int),
        decreases v@.len() - i,
    {
        r.push(v[i]);
        i = i + 1;
        assert(r@ =~= v@.take(i as int));
    }
    assert(v@.take(i as int) =~= v@);
    r
}

/// A copy of a list of states.
fn copy_states(v: &Vec<State>) -> (r: Vec<State>)
    ensures
        r@.len() == v@.len(),
        states_view(r@) == states_view(v@),
{
    let mut r: Vec<State> = Vec::new();
    let mut i: usize = 0;
    while i < v.len()
        invariant
            i <= v@.len(),
            states_view(r@) == states_view(v@).take(i as int),
        decreases v@.len() - i,
    {
        let ghost r0 = states_view(r@);
        let c = v[i].copy();
        assert(c@ == v@[i as int]@);
        r.push(c);
        assert(states_view(r@) =~= r0.push(v@[i as int]@));
        i = i + 1;
        assert(states_view(r@) =~= states_view(v@).take(i as int));
    }
    assert(states_view(v@).take(i as int) =~= states_view(v@));
    r
}

/// Appends `more` to the ε-transitions of state `i`.
fn push_eps(v: &mut Vec<State>, i: usize, more: &Vec<usize>)
    requires
        i < old(v)@.len(),
    ensures
        final(v)@.len() == old(v)@.len(),
        states_view(final(v)@) == add_eps(states_view(old(v)@), i as int, more@),
{
    let ghost sv = states_view(v@);
    let mut st = v[i].copy();
    let mut k: usize = 0;
    while k < more.len()
        invariant
            k <= more@.len(),
            st@ == (sv[i as int].0, sv[i as int].1, sv[i as int].2, sv[i as int].3 + more@.take(k as int)),
        decreases more@.len() - k,
    {
        st.epsilon_transitions.push(more[k]);
        k = k + 1;
        assert(sv[i as int].3 + more@.take(k as int) =~= (sv[i as int].3 + more@.take(k - 1)).push(more@[k - 1]));
    }
    assert(more@.take(k as int) =~= more@);
    v.set(i, st);
    assert(states_view(v@) =~= add_eps(sv, i as int, more@));
}

/// An automaton: start and accepting state numbers and its states.
pub struct NFA {
    pub start: usize,
    pub end: usize,
    pub states: Vec<State>,
}

/// The builder: the last state number given and the states made so far.
pub struct ThompsonNFA {
    pub state_counter: usize,
    pub states: Vec<State>,
}

impl ThompsonNFA {
    /// No states yet.
    pub fn new() -> (r: Self)
        ensures
            r.state_counter == 0,
            r.states@.len() == 0,
    {
        ThompsonNFA { state_counter: 0, states: Vec::new() }
    }

    /// A fresh state, numbered one past the last, added to the states.
    pub fn new_state(&mut self) -> (id: usize)
        requires
            old(self).state_counter < usize::MAX,
        ensures
            id == old(self).state_counter + 1,
            final(self).state_counter == id,
            final(self).states@.len() == old(self).states@.len() + 1,
            states_view(final(self).states@) == states_view(old(self).states@).push(fresh_state(id as nat)),
    {
        self.state_counter = self.state_counter + 1;
        let id = self.state_counter;
        let ghost s0 = states_view(self.states@);
        self.states.push(State::new(id));
        assert(states_view(self.states@) =~= s0.push(fresh_state(id as nat)));
        id
    }

    /// The automaton of one symbol: two fresh states and a transition on
    /// `symbol` from the first to the second, set in the state at position
    /// `start - 1`; the automaton takes a copy of all states made so far.
    pub fn create_basic_nfa(&mut self, symbol: &str) -> (r: NFA)
        requires
            old(self).state_counter + 2 <= usize::MAX,
            old(self).state_counter < old(self).states@.len() + 2,
        ensures
            r.start == old(self).state_counter + 1,
            r.end == old(self).state_counter + 2,
            final(self).state_counter == old(self).state_counter + 2,
            states_view(final(self).states@) == set_transition(
                states_view(old(self).states@).push(fresh_state(r.start as nat)).push(fresh_state(r.end as nat)),
                r.start - 1, symbol@, seq![r.end]),
            states_view(r.states@) == states_view(final(self).states@),
    {
        let start = self.new_state();
        let end = self.new_state();
        let ghost sv = states_view(self.states@);
        assert(self.states@.len() == sv.len());
        let mut st = self.states[start - 1].copy();
        assert(st@ == sv[start - 1]);
        let ghost t = sv[start - 1].2;
        let mut k: usize = 0;
        while k < st.transitions.len()
            invariant
                1 <= start,
                start - 1 < sv.len(),
                st@ == sv[start - 1],
                t == sv[start - 1].2,
                k <= t.len(),
                trans_index(t, symbol@, 0) == trans_index(t, symbol@, k as int),
            ensures
                k <= t.len(),
                trans_index(t, symbol@, 0) == trans_index(t, symbol@, k as int),
                k < t.len() ==> t[k as int].0 == symbol@,
            decreases t.len() - k,
        {
            if str_equal(st.transitions[k].0.as_str(), symbol) {
                break;
            }
            k = k + 1;
        }
        let targets: Vec<usize> = vec![end];
        assert(targets@ =~= seq![end]);
        let ghost tv0 = trans_view(st.transitions@);
        assert(tv0 == t);
        if k < st.transitions.len() {
            st.transitions.set(k, (String::from_str(symbol), targets));
            assert(trans_view(st.transitions@) =~= t.update(k as int, (symbol@, seq![end])));
        } else {
            st.transitions.push((String::from_str(symbol), targets));
            assert(trans_view(st.transitions@) =~= t.push((symbol@, seq![end])));
        }
        self.states.set(start - 1, st);
        proof {
            let want = set_transition(sv, start - 1, symbol@, seq![end]);
            assert(states_view(self.states@)[start - 1].2 =~= want[start - 1].2);
            assert(states_view(self.states@) =~= want);
        }
        let states = copy_states(&self.states);
        NFA { start, end, states }
    }

    /// `nfa1` followed by `nfa2`: their states side by side, with an
    /// ε-transition from the state at position `nfa1.end - 1` to the start of
    /// `nfa2`.
    pub fn concat(&mut self, nfa1: NFA, nfa2: NFA) -> (r: NFA)
        requires
            1 <= nfa1.end <= nfa1.states@.len() + nfa2.states@.len(),
        ensures
            r.start == nfa1.start,
            r.end == nfa2.end,
            states_view(r.states@) == add_eps(states_view(nfa1.states@) + states_view(nfa2.states@), nfa1.end - 1, seq![nfa2.start]),
            states_view(final(self).states@) == states_view(r.states@),
            final(self).state_counter == old(self).state_counter,
    {
        let mut combined = copy_states(&nfa1.states);
        let ghost a = states_view(combined@);
        let mut others = nfa2.states;
        combined.append(&mut others);
        assert(states_view(combined@) =~= states_view(nfa1.states@) + states_view(nfa2.states@));
        let more: Vec<usize> = vec![nfa2.start];
        assert(more@ =~= seq![nfa2.start]);
        push_eps(&mut combined, nfa1.end - 1, &more);
        self.states = copy_states(&combined);
        NFA { start: nfa1.start, end: nfa2.end, states: combined }
    }

    /// `nfa1` or `nfa2`: two fresh states; the states of both side by side,
    /// with ε-transitions from the state at position `start - 1` to both
    /// starts and from the states at their ends' positions to `end`.
    pub fn union(&mut self, nfa1: NFA, nfa2: NFA) -> (r: NFA)
        requires
            old(self).state_counter + 2 <= usize::MAX,
            old(self).state_counter < nfa1.states@.len() + nfa2.states@.len(),
            1 <= nfa1.end <= nfa1.states@.len() + nfa2.states@.len(),
            1 <= nfa2.end <= nfa1.states@.len() + nfa2.states@.len(),
        ensures
            r.start == old(self).state_counter + 1,
            r.end == old(self).state_counter + 2,
            final(self).state_counter == old(self).state_counter + 2,
            states_view(r.states@) == add_eps(add_eps(add_eps(states_view(nfa1.states@) + states_view(nfa2.states@),
                r.start - 1, seq![nfa1.start, nfa2.start]), nfa1.end - 1, seq![r.end]), nfa2.end - 1, seq![r.end]),
            states_view(final(self).states@) == states_view(r.states@),
    {
        let start = self.new_state();
        let end = self.new_state();
        let mut combined = copy_states(&nfa1.states);
        let mut others = nfa2.states;
        combined.append(&mut others);
        assert(states_view(combined@) =~= states_view(nfa1.states@) + states_view(nfa2.states@));
        let starts: Vec<usize> = vec![nfa1.start, nfa2.start];
        assert(starts@ =~= seq![nfa1.start, nfa2.start]);
        push_eps(&mut combined, start - 1, &starts);
        let to_end: Vec<usize> = vec![end];
        assert(to_end@ =~= seq![end]);
        push_eps(&mut combined, nfa1.end - 1, &to_end);
        push_eps(&mut combined, nfa2.end - 1, &to_end);
        self.states = copy_states(&combined);
        NFA { start, end, states: combined }
    }

    /// Zero or more of `nfa`: two fresh states, with ε-transitions from the
    /// state at position `start - 1` and from the one at `nfa.end - 1` to the
    /// start of `nfa` and to `end`.
    pub fn kleene_star(&mut self, nfa: NFA) -> (r: NFA)
        requires
            old(self).state_counter + 2 <= usize::MAX,
            old(self).state_counter < nfa.states@.len(),
            1 <= nfa.end <= nfa.states@.len(),
        ensures
            r.start == old(self).state_counter + 1,
            r.end == old(self).state_counter + 2,
            final(self).state_counter == old(self).state_counter + 2,
            states_view(r.states@) == add_eps(add_eps(states_view(nfa.states@), r.start - 1, seq![nfa.start, r.end]),
                nfa.end - 1, seq![nfa.start, r.end]),
            states_view(final(self).states@) == states_view(r.states@),
    {
        let start = self.new_state();
        let end = self.new_state();
        let mut combined = copy_states(&nfa.states);
        let both: Vec<usize> = vec![nfa.start, end];
        assert(both@ =~= seq![nfa.start, end]);
        push_eps(&mut combined, start - 1, &both);
        push_eps(&mut combined, nfa.end - 1, &both);
        self.states = copy_states(&combined);
        NFA { start, end, states: combined }
    }
}

} // verus!
