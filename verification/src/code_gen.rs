//! Three-address code for an arithmetic expression, by operator precedence
//! with an operator stack and an operand stack.
//!
//! The expression, optionally `x = ...`, is cut into numbers, names,
//! operators and parentheses. Each reduction pops an operator and two
//! operands and emits `tN = left op right` for a fresh temporary `tN`.
//! A reduction with fewer than two operands does nothing, and the loop that
//! asked for it asks again forever: such expressions have no code.
use vstd::prelude::*;
use crate::text::{
    chars_of, str_equal, push_str, decimal, u128_to_string, trim, trim_chars, has_char, find_char,
    position_of, chars_range, string_of_range, alphanumeric, is_alphanumeric,
};
use crate::pattern::{regex_all_matches, all_matches};

verus! {

/// The state of the generator as mathematical values: the operator stack,
/// the operand stack, the number of the last temporary, and the code
/// emitted so far.
#[verifier::ext_equal]
pub struct GenView {
    pub ops: Seq<Seq<char>>,
    pub operands: Seq<Seq<char>>,
    pub temp: nat,
    pub lines: Seq<Seq<char>>,
}

/// The precedence of operator `k` in the table `t`, from position `i` on.
pub open spec fn prec_lookup(t: Seq<(Seq<char>, int)>, k: Seq<char>, i: int) -> Option<int>
    decreases t.len() - i,
{
    if i < 0 || i >= t.len() {
        None
    } else if t[i].0 == k {
        Some(t[i].1)
    } else {
        prec_lookup(t, k, i + 1)
    }
}

/// One reduction: pop an operator and two operands, emit the instruction,
/// push the new temporary. `None` when there are fewer than two operands.
pub open spec fn gen_process(st: GenView) -> Option<GenView> {
    if st.operands.len() < 2 || st.ops.len() == 0 {
        None
    } else {
        let op = st.ops.last();
        let right = st.operands.last();
        let left = st.operands[st.operands.len() - 2];
        let name = "t"@ + decimal(st.temp + 1);
        Some(GenView {
            ops: st.ops.drop_last(),
            operands: st.operands.drop_last().drop_last().push(name),
            temp: st.temp + 1,
            lines: st.lines.push(name + " = "@ + left + " "@ + op + " "@ + right),
        })
    }
}

/// Reduces until an opening parenthesis is on top or no operator is left.
pub open spec fn close_paren(st: GenView) -> Option<GenView>
    decreases st.ops.len(),
{
    if st.ops.len() == 0 || st.ops.last() == "("@ {
        Some(st)
    } else if st.operands.len() < 2 {
        None
    } else {
        close_paren(gen_process(st).unwrap())
    }
}

/// Reduces while the operator on top has a precedence of at least `p`.
pub open spec fn reduce_before(prec: Seq<(Seq<char>, int)>, st: GenView, p: int) -> Option<GenView>
    decreases st.ops.len(),
{
    if st.ops.len() == 0 {
        Some(st)
    } else {
        match prec_lookup(prec, st.ops.last(), 0) {
            Some(q) => {
                if q >= p {
                    if st.operands.len() < 2 {
                        None
                    } else {
                        reduce_before(prec, gen_process(st).unwrap(), p)
                    }
                } else {
                    Some(st)
                }
            },
            None => Some(st),
        }
    }
}

/// Reduces until no operator is left.
pub open spec fn finish(st: GenView) -> Option<GenView>
    decreases st.ops.len(),
{
    if st.ops.len() == 0 {
        Some(st)
    } else if st.operands.len() < 2 {
        None
    } else {
        finish(gen_process(st).unwrap())
    }
}

/// Every character of `tok` is alphanumeric or `_`: an operand.
pub open spec fn is_operand(tok: Seq<char>) -> bool {
    forall|i: int| 0 <= i < tok.len() ==> alphanumeric(#[trigger] tok[i]) || tok[i] == '_'
}

/// The state after token `tok`.
pub open spec fn gen_token(prec: Seq<(Seq<char>, int)>, st: GenView, tok: Seq<char>) -> Option<GenView> {
    if is_operand(tok) {
        Some(GenView { operands: st.operands.push(tok), ..st })
    } else if tok == "("@ {
        Some(GenView { ops: st.ops.push(tok), ..st })
    } else if tok == ")"@ {
        match close_paren(st) {
            Some(s2) => Some(if s2.ops.len() > 0 { GenView { ops: s2.ops.drop_last(), ..s2 } } else { s2 }),
            None => None,
        }
    } else {
        match prec_lookup(prec, tok, 0) {
            Some(p) => match reduce_before(prec, st, p) {
                Some(s2) => Some(GenView { ops: s2.ops.push(tok), ..s2 }),
                None => None,
            },
            None => Some(st),
        }
    }
}

/// The state after the first `n` tokens of `toks`.
pub open spec fn gen_tokens(prec: Seq<(Seq<char>, int)>, st: GenView, toks: Seq<Seq<char>>, n: int) -> Option<GenView>
    decreases n,
{
    if n <= 0 {
        Some(st)
    } else {
        match gen_tokens(prec, st, toks, n - 1) {
            Some(s1) => gen_token(prec, s1, toks[n - 1]),
            None => None,
        }
    }
}

/// The pattern that cuts an expression into tokens.
pub open spec fn token_pattern() -> Seq<char> {
    "\\d+|[a-zA-Z_]\\w*|[-+*/^()]"@
}

/// The target and the expression of `e`: the parts around the first `=`,
/// trimmed, or no target and all of `e`.
pub open spec fn split_assignment(e: Seq<char>) -> (Option<Seq<char>>, Seq<char>) {
    if has_char(e, '=') {
        let i = find_char(e, '=', 0).unwrap();
        (Some(trim(e.take(i))), trim(e.skip(i + 1)))
    } else {
        (None, e)
    }
}

/// The state after generating code for `expression` from state `st`, or
/// `None` when generation does not end.
pub open spec fn generation(prec: Seq<(Seq<char>, int)>, st: GenView, expression: Seq<char>) -> Option<GenView> {
    let (lhs, expr) = split_assignment(expression);
    let toks = regex_all_matches(token_pattern(), expr);
    match gen_tokens(prec, st, toks, toks.len() as int) {
        Some(s1) => match finish(s1) {
            Some(s2) => match lhs {
                Some(l) => if s2.operands.len() > 0 {
                    Some(GenView {
                        operands: s2.operands.drop_last(),
                        lines: s2.lines.push(l + " = "@ + s2.operands.last()),
                        ..s2
                    })
                } else {
                    Some(s2)
                },
                None => Some(s2),
            },
            None => None,
        },
        None => None,
    }
}

/// Once a token leaves generation stuck, the tokens after it change nothing.
proof fn lemma_gen_tokens_stuck(prec: Seq<(Seq<char>, int)>, st: GenView, tv: Seq<Seq<char>>, i: int, n: int)
    requires
        0 <= i < n,
        gen_tokens(prec, st, tv, i) is Some,
        gen_token(prec, gen_tokens(prec, st, tv, i).unwrap(), tv[i]) is None,
    ensures
        gen_tokens(prec, st, tv, n) is None,
    decreases n,
{
    if n > i + 1 {
        lemma_gen_tokens_stuck(prec, st, tv, i, n - 1);
    }
}

/// The views of a list of strings.
pub open spec fn strs(v: Seq<String>) -> Seq<Seq<char>> {
    v.map_values(|s: String| s@)
}

/// A generator: its two stacks, the number of the last temporary, and the
/// precedence of each operator.
pub struct CodeGenerator {
    pub operator_stack: Vec<String>,
    pub operand_stack: Vec<String>,
    pub temp_count: u128,
    pub precedence: Vec<(String, i32)>,
}

impl CodeGenerator {
    /// The precedence table as mathematical values.
    pub open spec fn prec_view(&self) -> Seq<(Seq<char>, int)> {
        self.precedence@.map_values(|e: (String, i32)| (e.0@, e.1 as int))
    }

    /// The state as mathematical values, with no code emitted yet.
    pub open spec fn state(&self) -> GenView {
        GenView { ops: strs(self.operator_stack@), operands: strs(self.operand_stack@), temp: self.temp_count as nat, lines: Seq::empty() }
    }

    /// A generator with empty stacks, no temporaries, and the precedences
    /// `+ -` 1, `* /` 2, `^` 3.
    pub fn new() -> (r: Self)
        ensures
            r.operator_stack@.len() == 0,
            r.operand_stack@.len() == 0,
            r.temp_count == 0,
            r.prec_view() == seq![("+"@, 1int), ("-"@, 1int), ("*"@, 2int), ("/"@, 2int), ("^"@, 3int)],
    {
        let mut precedence: Vec<(String, i32)> = Vec::new();
        precedence.push((String::from_str("+"), 1));
        precedence.push((String::from_str("-"), 1));
        precedence.push((String::from_str("*"), 2));
        precedence.push((String::from_str("/"), 2));
        precedence.push((String::from_str("^"), 3));
        let r = CodeGenerator { operator_stack: Vec::new(), operand_stack: Vec::new(), temp_count: 0, precedence };
        assert(r.prec_view() =~= seq![("+"@, 1int), ("-"@, 1int), ("*"@, 2int), ("/"@, 2int), ("^"@, 3int)]);
        r
    }

    /// The name of a fresh temporary.
    pub fn new_temp(&mut self) -> (r: String)
        requires
            old(self).temp_count < u128::MAX,
        ensures
            final(self).temp_count == old(self).temp_count + 1,
            final(self).operator_stack == old(self).operator_stack,
            final(self).operand_stack == old(self).operand_stack,
            final(self).precedence == old(self).precedence,
            r@ == "t"@ + decimal(final(self).temp_count as nat),
    {
        self.temp_count = self.temp_count + 1;
        let mut r = String::from_str("t");
        let num = u128_to_string(self.temp_count);
        push_str(&mut r, num.as_str());
        r
    }

    /// Emits `t = arg1 op arg2` for a fresh temporary `t`: gives the
    /// temporary and the instruction.
    pub fn generate_instruction(&mut self, op: &str, arg1: &str, arg2: &str) -> (r: (String, String))
        requires
            old(self).temp_count < u128::MAX,
        ensures
            final(self).temp_count == old(self).temp_count + 1,
            final(self).operator_stack == old(self).operator_stack,
            final(self).operand_stack == old(self).operand_stack,
            final(self).precedence == old(self).precedence,
            r.0@ == "t"@ + decimal(final(self).temp_count as nat),
            r.1@ == r.0@ + " = "@ + arg1@ + " "@ + op@ + " "@ + arg2@,
    {
        let temp_var = self.new_temp();
        let mut line = String::from_str(temp_var.as_str());
        push_str(&mut line, " = ");
        push_str(&mut line, arg1);
        push_str(&mut line, " ");
        push_str(&mut line, op);
        push_str(&mut line, " ");
        push_str(&mut line, arg2);
        (temp_var, line)
    }

    /// One reduction: pops an operator and two operands and pushes a fresh
    /// temporary, giving the instruction; does nothing and gives `None`
    /// with fewer than two operands.
    pub fn process_operator(&mut self) -> (r: Option<String>)
        requires
            old(self).operand_stack@.len() >= 2 ==> old(self).temp_count < u128::MAX,
            old(self).operand_stack@.len() < 2 || old(self).operator_stack@.len() > 0,
        ensures
            final(self).precedence == old(self).precedence,
            r is Some <==> old(self).operand_stack@.len() >= 2,
            match r {
                Some(line) => gen_process(old(self).state()) == Some(GenView { lines: seq![line@], ..final(self).state() }),
                None => old(self).operand_stack@.len() < 2 && *final(self) == *old(self),
            },
    {
        if self.operand_stack.len() < 2 {
            return None;
        }
        let ghost s0 = self.state();
        let op = self.operator_stack.pop().unwrap();
        let right = self.operand_stack.pop().unwrap();
        let left = self.operand_stack.pop().unwrap();
        let (result_temp, line) = self.generate_instruction(op.as_str(), left.as_str(), right.as_str());
        self.operand_stack.push(result_temp);
        proof {
            assert(strs(self.operator_stack@) =~= s0.ops.drop_last());
            assert(strs(self.operand_stack@) =~= s0.operands.drop_last().drop_last().push(
                "t"@ + decimal(s0.temp + 1)));
            assert(seq![line@] =~= Seq::<Seq<char>>::empty().push(line@));
        }
        Some(line)
    }

    /// Clears both stacks and restarts the temporaries.
    pub fn reset(&mut self)
        ensures
            final(self).temp_count == 0,
            final(self).operator_stack@.len() == 0,
            final(self).operand_stack@.len() == 0,
            final(self).precedence == old(self).precedence,
    {
        self.temp_count = 0;
        self.operator_stack.clear();
        self.operand_stack.clear();
    }

    /// The state as mathematical values, with `lines` emitted.
    pub open spec fn state_with(&self, lines: Seq<String>) -> GenView {
        GenView { ops: strs(self.operator_stack@), operands: strs(self.operand_stack@), temp: self.temp_count as nat, lines: strs(lines) }
    }

    /// The precedence of operator `op`, if it is one.
    fn precedence_of(&self, op: &str) -> (r: Option<i32>)
        ensures
            match r {
                Some(q) => prec_lookup(self.prec_view(), op@, 0) == Some(q as int),
                None => prec_lookup(self.prec_view(), op@, 0) is None,
            },
    {
        let ghost pv = self.prec_view();
        let mut i: usize = 0;
        while i < self.precedence.len()
            invariant
                pv == self.prec_view(),
                i <= pv.len(),
                prec_lookup(pv, op@, 0) == prec_lookup(pv, op@, i as int),
            decreases pv.len() - i,
        {
            if str_equal(self.precedence[i].0.as_str(), op) {
                return Some(self.precedence[i].1);
            }
            i = i + 1;
        }
        None
    }

    /// One reduction, recording its instruction in `lines`.
    fn reduce_into(&mut self, lines: &mut Vec<String>, Ghost(bound): Ghost<nat>)
        requires
            old(self).operator_stack@.len() > 0,
            old(self).operand_stack@.len() >= 2,
            old(self).temp_count + old(self).operator_stack@.len() <= bound,
            bound < u128::MAX,
        ensures
            final(self).precedence == old(self).precedence,
            gen_process(old(self).state_with(old(lines)@)) == Some(final(self).state_with(final(lines)@)),
            final(self).temp_count + final(self).operator_stack@.len() <= bound,
    {
        let ghost l0 = strs(lines@);
        let ghost sw0 = self.state_with(lines@);
        let ghost s0 = self.state();
        let line = self.process_operator().unwrap();
        let ghost lv = line@;
        lines.push(line);
        assert(strs(lines@) =~= l0.push(lv));
        proof {
            assert(sw0.ops == s0.ops && sw0.operands == s0.operands && sw0.temp == s0.temp);
            let g = gen_process(s0).unwrap();
            let gw = gen_process(sw0).unwrap();
            assert(g == GenView { lines: seq![lv], ..self.state() });
            assert(g.lines[0] == lv);
            assert(gw.lines =~= l0.push(lv));
            assert(gw.ops == g.ops && gw.operands == g.operands && gw.temp == g.temp);
            assert(strs(self.operator_stack@).len() == self.operator_stack@.len());
            assert(gw =~= self.state_with(lines@));
        }
    }

    /// Generates code for `expression`: gives the instructions, and the
    /// final assignment to the target when there is one, or `None` when
    /// generation would not end.
    pub fn parse_and_generate(&mut self, expression: &str) -> (r: Option<Vec<String>>)
        requires
            old(self).temp_count <= u64::MAX,
        ensures
            match r {
                Some(lines) => generation(old(self).prec_view(), old(self).state(), expression@)
                    == Some(final(self).state_with(lines@)),
                None => generation(old(self).prec_view(), old(self).state(), expression@) is None,
            },
    {
        let ghost prec = self.prec_view();
        let ghost st0 = self.state();
        let ghost split = split_assignment(expression@);
        let ec = chars_of(expression);
        let mut lhs: Option<String> = None;
        let expr: String;
        match position_of(&ec, '=') {
            Some(e) => {
                let l = trim_chars(&chars_range(&ec, 0, e));
                let el = ec.len();
                let x = trim_chars(&chars_range(&ec, e + 1, el));
                assert(ec@.subrange(e + 1, ec@.len() as int) =~= ec@.skip(e + 1));
                lhs = Some(string_of_range(&l, 0, l.len()));
                expr = string_of_range(&x, 0, x.len());
                assert(l@.subrange(0, l@.len() as int) =~= l@);
                assert(x@.subrange(0, x@.len() as int) =~= x@);
            }
            None => {
                expr = String::from_str(expression);
            }
        }
        assert(expr@ == split.1);
        assert(match lhs { Some(l) => split.0 == Some(l@), None => split.0 is None });
        let toks = all_matches("\\d+|[a-zA-Z_]\\w*|[-+*/^()]", expr.as_str());
        let ghost tv = strs(toks@);
        assert(tv == regex_all_matches(token_pattern(), split.1));
        let n_ops = self.operator_stack.len();
        let n_toks = toks.len();
        let ghost bound: nat = (old(self).temp_count + old(self).operator_stack@.len() + toks@.len()) as nat;
        assert(bound < u128::MAX);
        let mut lines: Vec<String> = Vec::new();
        assert(strs(lines@) =~= Seq::<Seq<char>>::empty());
        assert(self.state_with(lines@) =~= st0);
        let mut i: usize = 0;
        while i < toks.len()
            invariant
                prec == self.prec_view(),
                prec == old(self).prec_view(),
                st0 == old(self).state(),
                tv == regex_all_matches(token_pattern(), split_assignment(expression@).1),
                tv == strs(toks@),
                i <= tv.len(),
                bound == old(self).temp_count + old(self).operator_stack@.len() + toks@.len(),
                bound < u128::MAX,
                self.temp_count + self.operator_stack@.len() + (tv.len() - i) <= bound,
                gen_tokens(prec, st0, tv, i as int) == Some(self.state_with(lines@)),
            decreases tv.len() - i,
        {
            let tok = &toks[i];
            let ghost s1 = self.state_with(lines@);
            let tc = chars_of(tok.as_str());
            let mut operand = true;
            let mut j: usize = 0;
            while j < tc.len()
                invariant
                    j <= tc@.len(),
                    operand == forall|k: int| 0 <= k < j ==> alphanumeric(#[trigger] tc@[k]) || tc@[k] == '_',
                decreases tc@.len() - j,
            {
                if !(is_alphanumeric(tc[j]) || tc[j] == '_') {
                    operand = false;
                }
                j = j + 1;
            }
            assert(tc@ == tv[i as int]);
            assert(operand == is_operand(tv[i as int]));
            if operand {
                self.operand_stack.push(tok.clone());
                assert(self.state_with(lines@) =~= GenView { operands: s1.operands.push(tv[i as int]), ..s1 });
            } else if str_equal(tok.as_str(), "(") {
                self.operator_stack.push(tok.clone());
                assert(self.state_with(lines@) =~= GenView { ops: s1.ops.push(tv[i as int]), ..s1 });
            } else if str_equal(tok.as_str(), ")") {
                loop
                    invariant
                        prec == self.prec_view(),
                        prec == old(self).prec_view(),
                        st0 == old(self).state(),
                        tv == regex_all_matches(token_pattern(), split_assignment(expression@).1),
                        bound < u128::MAX,
                        self.temp_count + self.operator_stack@.len() + (tv.len() - i) <= bound,
                        i < tv.len(),
                        close_paren(s1) == close_paren(self.state_with(lines@)),
                        tv == strs(toks@),
                        !is_operand(tv[i as int]),
                        tv[i as int] != "("@,
                        tv[i as int] == ")"@,
                        gen_tokens(prec, st0, tv, i as int) == Some(s1),
                    ensures
                        prec == self.prec_view(),
                        self.temp_count + self.operator_stack@.len() + (tv.len() - i) <= bound,
                        close_paren(s1) == Some(self.state_with(lines@)),
                    decreases self.operator_stack@.len(),
                {
                    if self.operator_stack.len() == 0 {
                        break;
                    }
                    if str_equal(self.operator_stack[self.operator_stack.len() - 1].as_str(), "(") {
                        break;
                    }
                    if self.operand_stack.len() < 2 {
                        proof {
                            assert(close_paren(self.state_with(lines@)) is None);
                            lemma_gen_tokens_stuck(prec, st0, tv, i as int, tv.len() as int);
                        }
                        return None;
                    }
                    self.reduce_into(&mut lines, Ghost(bound));
                }
                if self.operator_stack.len() > 0 {
                    let ghost s2 = self.state_with(lines@);
                    self.operator_stack.pop();
                    assert(self.state_with(lines@) =~= GenView { ops: s2.ops.drop_last(), ..s2 });
                }
            } else {
                match self.precedence_of(tok.as_str()) {
                    Some(p) => {
                        loop
                            invariant
                                prec == self.prec_view(),
                                prec == old(self).prec_view(),
                                st0 == old(self).state(),
                                tv == regex_all_matches(token_pattern(), split_assignment(expression@).1),
                                bound < u128::MAX,
                                self.temp_count + self.operator_stack@.len() + (tv.len() - i) <= bound,
                                i < tv.len(),
                                reduce_before(prec, s1, p as int) == reduce_before(prec, self.state_with(lines@), p as int),
                                tv == strs(toks@),
                                !is_operand(tv[i as int]),
                                tv[i as int] != "("@,
                                tv[i as int] != ")"@,
                                prec_lookup(prec, tv[i as int], 0) == Some(p as int),
                                gen_tokens(prec, st0, tv, i as int) == Some(s1),
                            ensures
                                prec == self.prec_view(),
                                self.temp_count + self.operator_stack@.len() + (tv.len() - i) <= bound,
                                reduce_before(prec, s1, p as int) == Some(self.state_with(lines@)),
                            decreases self.operator_stack@.len(),
                        {
                            if self.operator_stack.len() == 0 {
                                break;
                            }
                            let top = self.operator_stack[self.operator_stack.len() - 1].clone();
                            match self.precedence_of(top.as_str()) {
                                Some(q) => {
                                    if q >= p {
                                        if self.operand_stack.len() < 2 {
                                            proof {
                                                assert(reduce_before(prec, self.state_with(lines@), p as int) is None);
                                                lemma_gen_tokens_stuck(prec, st0, tv, i as int, tv.len() as int);
                                            }
                                            return None;
                                        }
                                        self.reduce_into(&mut lines, Ghost(bound));
                                    } else {
                                        break;
                                    }
                                }
                                None => {
                                    break;
                                }
                            }
                        }
                        let ghost s2 = self.state_with(lines@);
                        self.operator_stack.push(tok.clone());
                        assert(self.state_with(lines@) =~= GenView { ops: s2.ops.push(tv[i as int]), ..s2 });
                    }
                    None => {}
                }
            }
            i = i + 1;
        }
        loop
            invariant
                prec == self.prec_view(),
                prec == old(self).prec_view(),
                st0 == old(self).state(),
                tv == regex_all_matches(token_pattern(), split_assignment(expression@).1),
                bound < u128::MAX,
                self.temp_count + self.operator_stack@.len() <= bound,
                finish(gen_tokens(prec, st0, tv, tv.len() as int).unwrap()) == finish(self.state_with(lines@)),
                gen_tokens(prec, st0, tv, tv.len() as int) is Some,
            ensures
                finish(gen_tokens(prec, st0, tv, tv.len() as int).unwrap()) == Some(self.state_with(lines@)),
            decreases self.operator_stack@.len(),
        {
            if self.operator_stack.len() == 0 {
                break;
            }
            if self.operand_stack.len() < 2 {
                assert(finish(self.state_with(lines@)) is None);
                return None;
            }
            self.reduce_into(&mut lines, Ghost(bound));
        }
        match lhs {
            Some(l) => {
                if self.operand_stack.len() > 0 {
                    let ghost s2 = self.state_with(lines@);
                    let final_result = self.operand_stack.pop().unwrap();
                    let mut line = String::from_str(l.as_str());
                    push_str(&mut line, " = ");
                    push_str(&mut line, final_result.as_str());
                    lines.push(line);
                    assert(self.state_with(lines@) =~= GenView {
                        operands: s2.operands.drop_last(),
                        lines: s2.lines.push(l@ + " = "@ + s2.operands.last()),
                        ..s2
                    });
                }
            }
            None => {}
        }
        Some(lines)
    }
}

} // verus!
