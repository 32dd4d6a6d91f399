//! A shift-reduce parser driven by a list of rules `lhs -> rhs`.
//!
//! At each step the parser reduces by the first rule whose right-hand side
//! ends the text of the stack: it pops as many stack entries as the
//! right-hand side has bytes and pushes the left-hand side. When no rule
//! applies it shifts the next token, or, at the end marker `"$"`, accepts
//! when the stack holds only the left-hand side of the first rule and
//! rejects otherwise.
use vstd::prelude::*;
use vstd::utf8::encode_utf8;
use crate::text::{chars_of, char_string, str_equal, push_str};

verus! {

/// What the parser does at a step.
pub enum SrAction {
    Shift,
    Reduce(String, String),
    Accept,
    Reject,
}

/// A step as mathematical values.
pub enum SrActionView {
    Shift,
    Reduce(Seq<char>, Seq<char>),
    Accept,
    Reject,
}

/// One row of the parse: the text of the stack, the text of the remaining
/// input, and the action taken.
pub struct SrStep {
    pub stack: String,
    pub buffer: String,
    pub action: SrAction,
}

/// A step row as mathematical values.
pub type SrStepView = (Seq<char>, Seq<char>, SrActionView);

impl View for SrStep {
    type V = SrStepView;

    open spec fn view(&self) -> SrStepView {
        (self.stack@, self.buffer@, match self.action {
            SrAction::Shift => SrActionView::Shift,
            SrAction::Reduce(l, r) => SrActionView::Reduce(l@, r@),
            SrAction::Accept => SrActionView::Accept,
            SrAction::Reject => SrActionView::Reject,
        })
    }
}

/// The views of a list of step rows.
pub open spec fn steps_view(v: Seq<SrStep>) -> Seq<SrStepView> {
    v.map_values(|s: SrStep| s@)
}

/// The parts joined into one string.
pub open spec fn concat(parts: Seq<Seq<char>>) -> Seq<char>
    decreases parts.len(),
{
    if parts.len() == 0 {
        Seq::empty()
    } else {
        concat(parts.drop_last()) + parts.last()
    }
}

/// The number of bytes of `s` in UTF-8, as `str::len` reports it.
pub open spec fn utf8_len(s: Seq<char>) -> int {
    (encode_utf8(s).len() as usize) as int
}

/// The first rule, from position `i` on, whose right-hand side ends `s`.
pub open spec fn first_reducible(rules: Seq<(Seq<char>, Seq<char>)>, s: Seq<char>, i: int) -> Option<int>
    decreases rules.len() - i,
{
    if i < 0 || i >= rules.len() {
        None
    } else if rules[i].1.is_suffix_of(s) {
        Some(i)
    } else {
        first_reducible(rules, s, i + 1)
    }
}

/// `st` with `n` entries popped, or empty when it has fewer.
pub open spec fn pop_n(st: Seq<Seq<char>>, n: int) -> Seq<Seq<char>> {
    if n >= st.len() { Seq::empty() } else { st.take(st.len() - n) }
}

/// The rows of a parse from stack `stack` and input `buffer` that ends
/// within `fuel` steps, or `None` when it does not.
pub open spec fn sr_run(rules: Seq<(Seq<char>, Seq<char>)>, stack: Seq<Seq<char>>, buffer: Seq<Seq<char>>, fuel: nat) -> Option<Seq<SrStepView>>
    decreases fuel,
{
    if fuel == 0 || rules.len() == 0 {
        None
    } else {
        let s = concat(stack);
        let b = concat(buffer);
        match first_reducible(rules, s, 0) {
            Some(r) => {
                let next = pop_n(stack, utf8_len(rules[r].1)).push(rules[r].0);
                match sr_run(rules, next, buffer, (fuel - 1) as nat) {
                    Some(rest) => Some(seq![(s, b, SrActionView::Reduce(rules[r].0, rules[r].1))] + rest),
                    None => None,
                }
            },
            None => {
                if buffer.len() == 0 {
                    None
                } else if buffer[0] == seq!['$'] {
                    let act = if stack.len() == 1 && stack[0] == rules[0].0 { SrActionView::Accept } else { SrActionView::Reject };
                    Some(seq![(s, b, act)])
                } else {
                    match sr_run(rules, stack.push(buffer[0]), buffer.drop_first(), (fuel - 1) as nat) {
                        Some(rest) => Some(seq![(s, b, SrActionView::Shift)] + rest),
                        None => None,
                    }
                }
            },
        }
    }
}

/// The input with the end marker appended.
pub open spec fn with_end(tokens: Seq<Seq<char>>) -> Seq<Seq<char>> {
    tokens.push(seq!['$'])
}

/// The parse of `tokens` ends.
pub open spec fn sr_halts(rules: Seq<(Seq<char>, Seq<char>)>, tokens: Seq<Seq<char>>) -> bool {
    exists|f: nat| #[trigger] sr_run(rules, Seq::empty(), with_end(tokens), f) is Some
}

/// The rows of the parse of `tokens`, when it ends.
pub open spec fn sr_trace(rules: Seq<(Seq<char>, Seq<char>)>, tokens: Seq<Seq<char>>) -> Seq<SrStepView> {
    sr_run(rules, Seq::empty(), with_end(tokens), choose|f: nat| #[trigger] sr_run(rules, Seq::empty(), with_end(tokens), f) is Some).unwrap()
}

/// The rules as mathematical values.
pub open spec fn rules_view(rules: Seq<(String, String)>) -> Seq<(Seq<char>, Seq<char>)> {
    rules.map_values(|r: (String, String)| (r.0@, r.1@))
}

/// The views of a list of string slices.
pub open spec fn tokens_view(v: Seq<&str>) -> Seq<Seq<char>> {
    v.map_values(|t: &str| t@)
}

/// The views of a list of strings.
pub open spec fn parts_view(v: Seq<String>) -> Seq<Seq<char>> {
    v.map_values(|s: String| s@)
}

/// The strings of `parts` joined.
fn join(parts: &Vec<String>) -> (r: String)
    ensures
        r@ == concat(parts_view(parts@)),
{
    let mut r = String::new();
    let mut i: usize = 0;
    while i < parts.len()
        invariant
            i <= parts@.len(),
            r@ == concat(parts_view(parts@).take(i as int)),
        decreases parts@.len() - i,
    {
        push_str(&mut r, parts[i].as_str());
        assert(parts_view(parts@).take(i + 1).drop_last() =~= parts_view(parts@).take(i as int));
        i = i + 1;
    }
    assert(parts_view(parts@).take(i as int) =~= parts_view(parts@));
    r
}

/// Whether `t` ends `s`.
fn ends_with(s: &Vec<char>, t: &Vec<char>) -> (r: bool)
    ensures
        r == t@.is_suffix_of(s@),
{
    if t.len() > s.len() {
        return false;
    }
    let off = s.len() - t.len();
    let mut i: usize = 0;
    while i < t.len()
        invariant
            off + t@.len() == s@.len(),
            s@.len() <= usize::MAX,
            i <= t@.len(),
            forall|j: int| 0 <= j < i ==> t@[j] == s@[off + j],
        decreases t@.len() - i,
    {
        if t[i] != s[off + i] {
            assert(t@ != s@.subrange(off as int, s@.len() as int)) by {
                assert(s@.subrange(off as int, s@.len() as int)[i as int] == s@[off + i]);
            }
            return false;
        }
        i = i + 1;
    }
    assert(t@ =~= s@.subrange(off as int, s@.len() as int));
    true
}

/// A shift-reduce parser for a list of rules.
pub struct ShiftReduceParser {
    pub rules: Vec<(String, String)>,
}

impl ShiftReduceParser {
    /// A parser for `rules`, the first of which names the start symbol.
    pub fn new(rules: Vec<(String, String)>) -> (r: Self)
        ensures
            r.rules == rules,
    {
        ShiftReduceParser { rules }
    }

    /// The first rule whose right-hand side ends `s`.
    fn find_reducible(&self, s: &Vec<char>) -> (r: Option<usize>)
        ensures
            match r {
                Some(i) => first_reducible(rules_view(self.rules@), s@, 0) == Some(i as int) && i < self.rules@.len(),
                None => first_reducible(rules_view(self.rules@), s@, 0) is None,
            },
    {
        let ghost rv = rules_view(self.rules@);
        let mut i: usize = 0;
        while i < self.rules.len()
            invariant
                rv == rules_view(self.rules@),
                i <= rv.len(),
                first_reducible(rv, s@, 0) == first_reducible(rv, s@, i as int),
            decreases rv.len() - i,
        {
            let rhs = chars_of(self.rules[i].1.as_str());
            if ends_with(s, &rhs) {
                return Some(i);
            }
            i = i + 1;
        }
        None
    }

    /// The input `tokens` followed by the end marker, one entry per token.
    fn initial_buffer(tokens: &Vec<&str>) -> (b: Vec<String>)
        ensures
            parts_view(b@) == with_end(tokens_view(tokens@)),
    {
        let ghost tv = tokens_view(tokens@);
        let mut buffer: Vec<String> = Vec::new();
        let mut i: usize = 0;
        while i < tokens.len()
            invariant
                i <= tokens@.len(),
                tv == tokens_view(tokens@),
                parts_view(buffer@) == tv.take(i as int),
            decreases tokens@.len() - i,
        {
            let ghost b0 = buffer@;
            let item = String::from_str(tokens[i]);
            buffer.push(item);
            assert(parts_view(buffer@) =~= parts_view(b0).push(tv[i as int]));
            assert(tv.take(i + 1) =~= tv.take(i as int).push(tv[i as int]));
            i = i + 1;
        }
        assert(tv.take(i as int) =~= tv);
        let ghost b0 = buffer@;
        buffer.push(char_string('$'));
        assert(parts_view(buffer@) =~= parts_view(b0).push(seq!['$']));
        buffer
    }

    /// Takes one step from `stack` and `buffer`, adding its row to `trace`:
    /// a reduction or a shift (`Stepped`), an accept or a reject at the end
    /// marker (`Finished`), or nothing when the input is used up without an
    /// end marker (`Stuck`).
    fn advance(&self, stack: &mut Vec<String>, buffer: &mut Vec<String>, trace: &mut Vec<SrStep>) -> (p: Progress)
        requires
            rules_view(self.rules@).len() > 0,
        ensures
            p is Stuck ==> steps_view(final(trace)@) == steps_view(old(trace)@),
            !(p is Stuck) ==> steps_view(final(trace)@) == steps_view(old(trace)@).push(steps_view(final(trace)@).last()),
            forall|f: nat| f > 0 ==> #[trigger] sr_run(rules_view(self.rules@), parts_view(old(stack)@), parts_view(old(buffer)@), f) == match p {
                Progress::Stepped => match sr_run(rules_view(self.rules@), parts_view(final(stack)@), parts_view(final(buffer)@), (f - 1) as nat) {
                    Some(rest) => Some(seq![steps_view(final(trace)@).last()] + rest),
                    None => None::<Seq<SrStepView>>,
                },
                Progress::Finished => Some(seq![steps_view(final(trace)@).last()]),
                Progress::Stuck => None::<Seq<SrStepView>>,
            },
    {
        let ghost rv = rules_view(self.rules@);
        let ghost sv = parts_view(stack@);
        let ghost bv = parts_view(buffer@);
        let ghost t0 = steps_view(trace@);
        let stack_str = join(stack);
        let buffer_str = join(buffer);
        let sc = chars_of(stack_str.as_str());
        match self.find_reducible(&sc) {
            Some(r) => {
                let n = self.rules[r].1.as_str().len();
                let mut j: usize = 0;
                while j < n
                    invariant
                        j <= n,
                        parts_view(stack@) == pop_n(sv, j as int),
                    decreases n - j,
                {
                    let ghost before = parts_view(stack@);
                    stack.pop();
                    proof {
                        if before.len() > 0 {
                            assert(parts_view(stack@) =~= before.drop_last());
                            assert(pop_n(sv, j + 1) =~= before.drop_last());
                        } else {
                            assert(parts_view(stack@) =~= before);
                            assert(pop_n(sv, j + 1) =~= before);
                        }
                    }
                    j = j + 1;
                }
                stack.push(self.rules[r].0.clone());
                assert(parts_view(stack@) =~= pop_n(sv, utf8_len(rv[r as int].1)).push(rv[r as int].0));
                let step = SrStep {
                    stack: stack_str,
                    buffer: buffer_str,
                    action: SrAction::Reduce(self.rules[r].0.clone(), self.rules[r].1.clone()),
                };
                trace.push(step);
                assert(steps_view(trace@) =~= t0.push((concat(sv), concat(bv), SrActionView::Reduce(rv[r as int].0, rv[r as int].1))));
                Progress::Stepped
            }
            None => {
                if buffer.len() == 0 {
                    return Progress::Stuck;
                }
                let dollar = char_string('$');
                if str_equal(buffer[0].as_str(), dollar.as_str()) {
                    let accept = stack.len() == 1 && str_equal(stack[0].as_str(), self.rules[0].0.as_str());
                    let step = SrStep {
                        stack: stack_str,
                        buffer: buffer_str,
                        action: if accept { SrAction::Accept } else { SrAction::Reject },
                    };
                    trace.push(step);
                    assert(steps_view(trace@) =~= t0.push(steps_view(trace@).last()));
                    return Progress::Finished;
                }
                let tok = buffer.remove(0);
                stack.push(tok);
                assert(parts_view(stack@) =~= sv.push(bv[0]));
                assert(parts_view(buffer@) =~= bv.drop_first());
                let step = SrStep { stack: stack_str, buffer: buffer_str, action: SrAction::Shift };
                trace.push(step);
                assert(steps_view(trace@) =~= t0.push((concat(sv), concat(bv), SrActionView::Shift)));
                Progress::Stepped
            }
        }
    }

    /// Parses `tokens` and gives the rows of the parse, one per step.
    pub fn parse(&self, tokens: Vec<&str>) -> (r: Vec<SrStep>)
        requires
            self.rules@.len() > 0,
            sr_halts(rules_view(self.rules@), tokens_view(tokens@)),
        ensures
            steps_view(r@) == sr_trace(rules_view(self.rules@), tokens_view(tokens@)),
    {
        let ghost rv = rules_view(self.rules@);
        let ghost tv = tokens_view(tokens@);
        let ghost f0 = choose|f: nat| #[trigger] sr_run(rv, Seq::empty(), with_end(tv), f) is Some;
        let ghost total = sr_run(rv, Seq::empty(), with_end(tv), f0).unwrap();
        let mut stack: Vec<String> = Vec::new();
        let mut buffer = Self::initial_buffer(&tokens);
        assert(parts_view(stack@) =~= Seq::<Seq<char>>::empty());
        let mut trace: Vec<SrStep> = Vec::new();
        assert(steps_view(trace@) + total =~= total);
        let ghost mut fuel: nat = f0;
        loop
            invariant
                rv == rules_view(self.rules@),
                rv.len() > 0,
                sr_run(rv, parts_view(stack@), parts_view(buffer@), fuel) is Some,
                steps_view(trace@) + sr_run(rv, parts_view(stack@), parts_view(buffer@), fuel).unwrap() == total,
                total == sr_trace(rv, tv),
                tv == tokens_view(tokens@),
            decreases fuel,
        {
            let ghost sv = parts_view(stack@);
            let ghost bv = parts_view(buffer@);
            let ghost t0 = steps_view(trace@);
            let ghost before = sr_run(rv, sv, bv, fuel);
            let p = self.advance(&mut stack, &mut buffer, &mut trace);
            match p {
                Progress::Stepped => {
                    proof {
                        let tail = sr_run(rv, parts_view(stack@), parts_view(buffer@), (fuel - 1) as nat).unwrap();
                        assert(before.unwrap() == seq![steps_view(trace@).last()] + tail);
                        assert(steps_view(trace@) + tail =~= t0 + before.unwrap());
                        fuel = (fuel - 1) as nat;
                    }
                }
                Progress::Finished => {
                    assert(steps_view(trace@) =~= t0 + before.unwrap());
                    return trace;
                }
                Progress::Stuck => {
                    return trace;
                }
            }
        }
    }

    /// Parses `tokens` for at most `limit` steps: the rows of the parse
    /// when it ends within them, `None` when it does not.
    pub fn parse_within(&self, tokens: Vec<&str>, limit: usize) -> (r: Option<Vec<SrStep>>)
        ensures
            match r {
                Some(t) => sr_run(rules_view(self.rules@), Seq::empty(), with_end(tokens_view(tokens@)), limit as nat)
                    == Some(steps_view(t@)),
                None => sr_run(rules_view(self.rules@), Seq::empty(), with_end(tokens_view(tokens@)), limit as nat) is None,
            },
            r matches Some(t) ==> sr_halts(rules_view(self.rules@), tokens_view(tokens@))
                && steps_view(t@) == sr_trace(rules_view(self.rules@), tokens_view(tokens@)),
    {
        let ghost rv = rules_view(self.rules@);
        let ghost tv = tokens_view(tokens@);
        let ghost total = sr_run(rv, Seq::empty(), with_end(tv), limit as nat);
        if self.rules.len() == 0 {
            return None;
        }
        let mut stack: Vec<String> = Vec::new();
        let mut buffer = Self::initial_buffer(&tokens);
        assert(parts_view(stack@) =~= Seq::<Seq<char>>::empty());
        let mut trace: Vec<SrStep> = Vec::new();
        proof {
            if total is Some {
                assert(steps_view(trace@) + total.unwrap() =~= total.unwrap());
            }
        }
        let mut fuel: usize = limit;
        loop
            invariant
                rv == rules_view(self.rules@),
                rv.len() > 0,
                tv == tokens_view(tokens@),
                total == sr_run(rv, Seq::empty(), with_end(tv), limit as nat),
                total == match sr_run(rv, parts_view(stack@), parts_view(buffer@), fuel as nat) {
                    Some(rest) => Some(steps_view(trace@) + rest),
                    None => None::<Seq<SrStepView>>,
                },
            decreases fuel,
        {
            if fuel == 0 {
                return None;
            }
            let ghost sv = parts_view(stack@);
            let ghost bv = parts_view(buffer@);
            let ghost t0 = steps_view(trace@);
            let ghost before = sr_run(rv, sv, bv, fuel as nat);
            let p = self.advance(&mut stack, &mut buffer, &mut trace);
            match p {
                Progress::Stepped => {
                    proof {
                        let after = sr_run(rv, parts_view(stack@), parts_view(buffer@), (fuel - 1) as nat);
                        if after is Some {
                            assert(t0 + (seq![steps_view(trace@).last()] + after.unwrap())
                                =~= steps_view(trace@) + after.unwrap());
                        }
                    }
                    fuel = fuel - 1;
                }
                Progress::Finished => {
                    assert(t0 + seq![steps_view(trace@).last()] =~= steps_view(trace@));
                    proof {
                        law_fuel_agrees(rv, Seq::empty(), with_end(tv), limit as nat,
                            choose|f: nat| #[trigger] sr_run(rv, Seq::empty(), with_end(tv), f) is Some);
                    }
                    return Some(trace);
                }
                Progress::Stuck => {
                    return None;
                }
            }
        }
    }
}

/// What one step of the parser came to.
enum Progress {
    Stepped,
    Finished,
    Stuck,
}

/// Two bounds under which a parse ends give the same rows: the rows of a
/// parse do not depend on the bound on its steps.
pub proof fn law_fuel_agrees(rules: Seq<(Seq<char>, Seq<char>)>, stack: Seq<Seq<char>>, buffer: Seq<Seq<char>>, f1: nat, f2: nat)
    requires
        sr_run(rules, stack, buffer, f1) is Some,
        sr_run(rules, stack, buffer, f2) is Some,
    ensures
        sr_run(rules, stack, buffer, f1) == sr_run(rules, stack, buffer, f2),
    decreases f1,
{
    let s = concat(stack);
    match first_reducible(rules, s, 0) {
        Some(r) => {
            let next = pop_n(stack, utf8_len(rules[r].1)).push(rules[r].0);
            law_fuel_agrees(rules, next, buffer, (f1 - 1) as nat, (f2 - 1) as nat);
        },
        None => {
            if buffer[0] != seq!['$'] {
                law_fuel_agrees(rules, stack.push(buffer[0]), buffer.drop_first(), (f1 - 1) as nat, (f2 - 1) as nat);
            }
        },
    }
}

} // verus!

verus! {

/// The action of a row is final: accept or reject.
pub open spec fn is_final(a: SrActionView) -> bool {
    a is Accept || a is Reject
}

/// A parse that ends has rows that end with an accept or a reject, and no
/// row before the last one accepts or rejects.
pub proof fn law_parse_ends_in_verdict(rules: Seq<(Seq<char>, Seq<char>)>, stack: Seq<Seq<char>>, buffer: Seq<Seq<char>>, fuel: nat)
    requires
        sr_run(rules, stack, buffer, fuel) is Some,
    ensures
        ({
            let rows = sr_run(rules, stack, buffer, fuel).unwrap();
            &&& rows.len() > 0
            &&& is_final(rows.last().2)
            &&& forall|i: int| 0 <= i < rows.len() - 1 ==> !is_final(#[trigger] rows[i].2)
        }),
    decreases fuel,
{
    let s = concat(stack);
    let b = concat(buffer);
    match first_reducible(rules, s, 0) {
        Some(r) => {
            let next = pop_n(stack, utf8_len(rules[r].1)).push(rules[r].0);
            law_parse_ends_in_verdict(rules, next, buffer, (fuel - 1) as nat);
            let rest = sr_run(rules, next, buffer, (fuel - 1) as nat).unwrap();
            let rows = seq![(s, b, SrActionView::Reduce(rules[r].0, rules[r].1))] + rest;
            assert(sr_run(rules, stack, buffer, fuel).unwrap() == rows);
            assert forall|i: int| 0 <= i < rows.len() - 1 implies !is_final(#[trigger] rows[i].2) by {
                if i > 0 {
                    assert(rows[i] == rest[i - 1]);
                }
            }
        },
        None => {
            if buffer[0] != seq!['$'] {
                law_parse_ends_in_verdict(rules, stack.push(buffer[0]), buffer.drop_first(), (fuel - 1) as nat);
                let rest = sr_run(rules, stack.push(buffer[0]), buffer.drop_first(), (fuel - 1) as nat).unwrap();
                let rows = seq![(s, b, SrActionView::Shift)] + rest;
                assert(sr_run(rules, stack, buffer, fuel).unwrap() == rows);
                assert forall|i: int| 0 <= i < rows.len() - 1 implies !is_final(#[trigger] rows[i].2) by {
                    if i > 0 {
                        assert(rows[i] == rest[i - 1]);
                    }
                }
            }
        },
    }
}

} // verus!

verus! {

/// The first reducible rule is in range and its right-hand side ends `s`.
proof fn lemma_first_reducible(rules: Seq<(Seq<char>, Seq<char>)>, s: Seq<char>, i: int)
    requires
        0 <= i,
    ensures
        first_reducible(rules, s, i) matches Some(r) ==> i <= r < rules.len() && rules[r].1.is_suffix_of(s),
    decreases rules.len() - i,
{
    if i < rules.len() && !rules[i].1.is_suffix_of(s) {
        lemma_first_reducible(rules, s, i + 1);
    }
}

/// Every rule has a non-empty left-hand side shorter than its right-hand
/// side, whose UTF-8 length fits in `usize` (as that of any `String`).
pub open spec fn growing_rules(rules: Seq<(Seq<char>, Seq<char>)>) -> bool {
    forall|i: int| 0 <= i < rules.len() ==>
        1 <= (#[trigger] rules[i]).0.len() < rules[i].1.len() && encode_utf8(rules[i].1).len() <= usize::MAX
}

/// From any stack, on input that ends with the end marker, a parse with
/// growing rules ends: each reduction pops at least two entries and pushes
/// one, or shortens the text of a one-entry stack, and each shift moves one
/// token from the input to the stack.
proof fn lemma_growing_rules_end(rules: Seq<(Seq<char>, Seq<char>)>, stack: Seq<Seq<char>>, buffer: Seq<Seq<char>>)
    requires
        rules.len() > 0,
        growing_rules(rules),
        buffer.len() > 0,
        buffer.last() == seq!['$'],
    ensures
        exists|f: nat| #[trigger] sr_run(rules, stack, buffer, f) is Some,
    decreases stack.len() + 2 * buffer.len(), concat(stack).len(),
{
    let s = concat(stack);
    let b = concat(buffer);
    lemma_first_reducible(rules, s, 0);
    match first_reducible(rules, s, 0) {
        Some(r) => {
            let rhs = rules[r].1;
            let n = utf8_len(rhs);
            crate::lexer::lemma_encode_len(rhs);
            assert(n >= rhs.len());
            let next = pop_n(stack, n).push(rules[r].0);
            if stack.len() == 0 {
                assert(s.len() == 0);
                assert(false);
            } else if stack.len() == 1 {
                assert(pop_n(stack, n) =~= Seq::<Seq<char>>::empty());
                assert(stack.drop_last() =~= Seq::<Seq<char>>::empty());
                assert(concat(stack.drop_last()) == Seq::<char>::empty());
                assert(stack.last() == stack[0]);
                assert(s =~= stack[0]);
                assert(concat(next) == concat(next.drop_last()) + next.last());
                assert(next.drop_last() =~= Seq::<Seq<char>>::empty());
                assert(concat(next.drop_last()) == Seq::<char>::empty());
                assert(concat(next) =~= rules[r].0);
            } else {
                assert(next.len() < stack.len());
            }
            lemma_growing_rules_end(rules, next, buffer);
            let f = choose|f: nat| #[trigger] sr_run(rules, next, buffer, f) is Some;
            assert(sr_run(rules, stack, buffer, f + 1) is Some);
        },
        None => {
            if buffer[0] != seq!['$'] {
                let nb = buffer.drop_first();
                assert(buffer.len() >= 2);
                assert(nb.last() == buffer.last());
                lemma_growing_rules_end(rules, stack.push(buffer[0]), nb);
                let f = choose|f: nat| #[trigger] sr_run(rules, stack.push(buffer[0]), nb, f) is Some;
                assert(sr_run(rules, stack, buffer, f + 1) is Some);
            } else {
                assert(sr_run(rules, stack, buffer, 1) is Some);
            }
        },
    }
}

/// A parse ends whenever every rule grows: with at least one rule, and
/// every rule's left-hand side non-empty and shorter than its right-hand
/// side, the parse of any tokens ends, so `parse` may be called on them.
pub proof fn law_growing_rules_halt(rules: Seq<(Seq<char>, Seq<char>)>, tokens: Seq<Seq<char>>)
    requires
        rules.len() > 0,
        growing_rules(rules),
    ensures
        sr_halts(rules, tokens),
{
    lemma_growing_rules_end(rules, Seq::empty(), with_end(tokens));
}

} // verus!
