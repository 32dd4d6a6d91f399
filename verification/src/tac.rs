//! Three-address code: its quadruple and triple tables, and a simple
//! code generator with two registers.
use vstd::prelude::*;
use crate::text::{chars_of, str_equal, push_str, usize_to_string, decimal};

verus! {

/// A three-address instruction `result = arg1 op arg2`, or `result = op arg1`
/// without a second argument.
pub struct TAC {
    pub op: String,
    pub arg1: String,
    pub arg2: Option<String>,
    pub result: String,
}

/// An instruction as mathematical values.
pub type TacView = (Seq<char>, Seq<char>, Option<Seq<char>>, Seq<char>);

impl View for TAC {
    type V = TacView;

    open spec fn view(&self) -> TacView {
        (self.op@, self.arg1@, match self.arg2 { Some(a) => Some(a@), None => None }, self.result@)
    }
}

/// The views of a list of instructions.
pub open spec fn tacs_view(v: Seq<TAC>) -> Seq<TacView> {
    v.map_values(|t: TAC| t@)
}

/// The views of a list of strings.
pub open spec fn strs(v: Seq<String>) -> Seq<Seq<char>> {
    v.map_values(|s: String| s@)
}

/// `"-"` where there is no second argument.
pub open spec fn arg2_text(a: Option<Seq<char>>) -> Seq<char> {
    match a {
        Some(s) => s,
        None => "-"@,
    }
}

/// A name is a temporary when it begins with `t`.
pub open spec fn is_temp_name(v: Seq<char>) -> bool {
    v.len() > 0 && v[0] == 't'
}

/// The position of the first instruction from position `i` on whose
/// result is `res`.
pub open spec fn result_index(code: Seq<TacView>, res: Seq<char>, i: int) -> Option<int>
    decreases code.len() - i,
{
    if i < 0 || i >= code.len() {
        None
    } else if code[i].3 == res {
        Some(i)
    } else {
        result_index(code, res, i + 1)
    }
}

/// The decimal text of `n`, with a `-` when it is negative.
pub open spec fn signed_decimal(n: int) -> Seq<char> {
    if n < 0 { "-"@ + decimal((-n) as nat) } else { decimal(n as nat) }
}

/// An argument as a triple shows it: a temporary as `(i)`, the position of
/// the instruction that computes it (`-1` when none does), other names as
/// they are.
pub open spec fn triple_arg(code: Seq<TacView>, a: Seq<char>) -> Seq<char> {
    if is_temp_name(a) {
        "("@ + signed_decimal(match result_index(code, a, 0) { Some(i) => (i as i32) as int, None => -1 }) + ")"@
    } else {
        a
    }
}

/// A list of instructions shown as quadruples and as triples.
pub struct TACRepresentations {
    pub code: Vec<TAC>,
}

impl TACRepresentations {
    /// Holds `code`.
    pub fn new(code: Vec<TAC>) -> (r: Self)
        ensures
            r.code == code,
    {
        TACRepresentations { code }
    }

    /// Whether `var` names a temporary: it begins with `t`.
    pub fn is_temp(&self, var: &str) -> (r: bool)
        ensures
            r == is_temp_name(var@),
    {
        let cs = chars_of(var);
        cs.len() > 0 && cs[0] == 't'
    }

    /// The position of the first instruction whose result is `res`, or -1.
    pub fn find_res(&self, res: &str) -> (r: i32)
        ensures
            r == match result_index(tacs_view(self.code@), res@, 0) { Some(i) => i as i32, None => -1i32 },
    {
        let ghost cv = tacs_view(self.code@);
        let mut i: usize = 0;
        while i < self.code.len()
            invariant
                cv == tacs_view(self.code@),
                i <= cv.len(),
                result_index(cv, res@, 0) == result_index(cv, res@, i as int),
            decreases cv.len() - i,
        {
            if str_equal(self.code[i].result.as_str(), res) {
                return i as i32;
            }
            i = i + 1;
        }
        -1
    }

    /// The quadruple table: op, first argument, second argument (`-` when
    /// there is none), result.
    pub fn quadruple_rows(&self) -> (r: Vec<(String, String, String, String)>)
        ensures
            r@.len() == self.code@.len(),
            forall|i: int| 0 <= i < r@.len() ==> {
                let t = tacs_view(self.code@)[i];
                &&& (#[trigger] r@[i]).0@ == t.0
                &&& r@[i].1@ == t.1
                &&& r@[i].2@ == arg2_text(t.2)
                &&& r@[i].3@ == t.3
            },
    {
        let mut rows: Vec<(String, String, String, String)> = Vec::new();
        let mut i: usize = 0;
        while i < self.code.len()
            invariant
                i <= self.code@.len(),
                rows@.len() == i,
                forall|j: int| 0 <= j < i ==> {
                    let t = tacs_view(self.code@)[j];
                    &&& (#[trigger] rows@[j]).0@ == t.0
                    &&& rows@[j].1@ == t.1
                    &&& rows@[j].2@ == arg2_text(t.2)
                    &&& rows@[j].3@ == t.3
                },
            decreases self.code@.len() - i,
        {
            let c = &self.code[i];
            let a2 = match &c.arg2 {
                Some(a) => a.clone(),
                None => String::from_str("-"),
            };
            rows.push((c.op.clone(), c.arg1.clone(), a2, c.result.clone()));
            i = i + 1;
        }
        rows
    }

    /// An argument as a triple shows it.
    fn triple_arg_text(&self, a: &str) -> (r: String)
        ensures
            r@ == triple_arg(tacs_view(self.code@), a@),
    {
        if self.is_temp(a) {
            let n = self.find_res(a);
            let mut r = String::from_str("(");
            if n < 0 {
                push_str(&mut r, "-");
                let s = usize_to_string((-(n as i64)) as usize);
                push_str(&mut r, s.as_str());
            } else {
                let s = usize_to_string(n as usize);
                push_str(&mut r, s.as_str());
            }
            push_str(&mut r, ")");
            r
        } else {
            String::from_str(a)
        }
    }

    /// The triple table: position, op, first argument, second argument,
    /// temporaries shown as the position of the instruction that computes
    /// them.
    pub fn triple_rows(&self) -> (r: Vec<(usize, String, String, String)>)
        ensures
            r@.len() == self.code@.len(),
            forall|i: int| 0 <= i < r@.len() ==> {
                let cv = tacs_view(self.code@);
                let t = cv[i];
                &&& (#[trigger] r@[i]).0 == i
                &&& r@[i].1@ == t.0
                &&& r@[i].2@ == triple_arg(cv, t.1)
                &&& r@[i].3@ == match t.2 { Some(a) => triple_arg(cv, a), None => "-"@ }
            },
    {
        let mut rows: Vec<(usize, String, String, String)> = Vec::new();
        let mut i: usize = 0;
        while i < self.code.len()
            invariant
                i <= self.code@.len(),
                rows@.len() == i,
                forall|j: int| 0 <= j < i ==> {
                    let cv = tacs_view(self.code@);
                    let t = cv[j];
                    &&& (#[trigger] rows@[j]).0 == j
                    &&& rows@[j].1@ == t.0
                    &&& rows@[j].2@ == triple_arg(cv, t.1)
                    &&& rows@[j].3@ == match t.2 { Some(a) => triple_arg(cv, a), None => "-"@ }
                },
            decreases self.code@.len() - i,
        {
            let c = &self.code[i];
            let a1 = self.triple_arg_text(c.arg1.as_str());
            let a2 = match &c.arg2 {
                Some(a) => self.triple_arg_text(a.as_str()),
                None => String::from_str("-"),
            };
            rows.push((i, c.op.clone(), a1, a2));
            i = i + 1;
        }
        rows
    }
}

// ------------------------------------------------------- code generator

/// The registers and what each holds, as mathematical values.
pub type RegsView = Seq<(Seq<char>, Option<Seq<char>>)>;

/// The first register, from position `i` on, that holds `var`.
pub open spec fn reg_holding(regs: RegsView, var: Seq<char>, i: int) -> Option<int>
    decreases regs.len() - i,
{
    if i < 0 || i >= regs.len() {
        None
    } else if regs[i].1 == Some(var) {
        Some(i)
    } else {
        reg_holding(regs, var, i + 1)
    }
}

/// The first free register from position `i` on.
pub open spec fn free_reg(regs: RegsView, i: int) -> Option<int>
    decreases regs.len() - i,
{
    if i < 0 || i >= regs.len() {
        None
    } else if regs[i].1 is None {
        Some(i)
    } else {
        free_reg(regs, i + 1)
    }
}

/// The register chosen for `var` and the registers after: one that holds
/// it; else a free one, which now holds it; else `R0`.
pub open spec fn get_reg_spec(regs: RegsView, var: Seq<char>) -> (RegsView, Seq<char>) {
    match reg_holding(regs, var, 0) {
        Some(i) => (regs, regs[i].0),
        None => match free_reg(regs, 0) {
            Some(i) => (regs.update(i, (regs[i].0, Some(var))), regs[i].0),
            None => (regs, "R0"@),
        },
    }
}

/// The position of the register named `name`, from position `i` on.
pub open spec fn reg_index(regs: RegsView, name: Seq<char>, i: int) -> Option<int>
    decreases regs.len() - i,
{
    if i < 0 || i >= regs.len() {
        None
    } else if regs[i].0 == name {
        Some(i)
    } else {
        reg_index(regs, name, i + 1)
    }
}

/// The mnemonic of operator `op`.
pub open spec fn op_name(op: Seq<char>) -> Seq<char> {
    if op == "+"@ { "ADD"@ } else if op == "-"@ { "SUB"@ } else if op == "*"@ { "MUL"@ } else if op == "/"@ { "DIV"@ } else { "UNKNOWN"@ }
}

/// The registers and the lines of code after instruction `t`: load the
/// first argument; with a second argument, load it unless its register
/// already holds it and emit the operation; record the result in the first
/// register and store it.
pub open spec fn gen_instruction(regs: RegsView, t: TacView) -> (RegsView, Seq<Seq<char>>) {
    let (regs1, reg1) = get_reg_spec(regs, t.1);
    let load1 = seq!["MOV "@ + t.1 + ", "@ + reg1];
    let (regs2, mid) = match t.2 {
        Some(a2) => {
            let (r2s, reg2) = get_reg_spec(regs1, a2);
            let held = match reg_index(r2s, reg2, 0) { Some(k) => r2s[k].1, None => None };
            let load2 = if held != Some(a2) { seq!["MOV "@ + a2 + ", "@ + reg2] } else { Seq::empty() };
            (r2s, load2 + seq![op_name(t.0) + " "@ + reg2 + ", "@ + reg1])
        },
        None => (regs1, Seq::empty()),
    };
    let regs3 = match reg_index(regs2, reg1, 0) {
        Some(k) => regs2.update(k, (reg1, Some(t.3))),
        None => regs2.push((reg1, Some(t.3))),
    };
    (regs3, load1 + mid + seq!["MOV "@ + reg1 + ", "@ + t.3])
}

/// The registers and the code after the first `n` instructions.
pub open spec fn gen_code(regs: RegsView, tacs: Seq<TacView>, n: int) -> (RegsView, Seq<Seq<char>>)
    decreases n,
{
    if n <= 0 {
        (regs, Seq::empty())
    } else {
        let (r1, l1) = gen_code(regs, tacs, n - 1);
        let (r2, l2) = gen_instruction(r1, tacs[n - 1]);
        (r2, l1 + l2)
    }
}

/// No register name twice, and a register `R0` among them.
pub open spec fn regs_ok(regs: RegsView) -> bool {
    &&& forall|i: int, j: int| 0 <= i < j < regs.len() ==> regs[i].0 != regs[j].0
    &&& reg_index(regs, "R0"@, 0) is Some
}

/// A code generator with registers `R0` and `R1`.
pub struct SimpleCodeGenerator {
    pub registers: Vec<(String, Option<String>)>,
}

/// The registers as mathematical values.
pub open spec fn regs_view(v: Seq<(String, Option<String>)>) -> RegsView {
    v.map_values(|e: (String, Option<String>)| (e.0@, match e.1 { Some(s) => Some(s@), None => None }))
}

proof fn lemma_reg_index(regs: RegsView, name: Seq<char>, i: int)
    requires
        0 <= i,
    ensures
        match reg_index(regs, name, i) {
            Some(k) => i <= k < regs.len() && regs[k].0 == name,
            None => forall|k: int| i <= k < regs.len() ==> regs[k].0 != name,
        },
    decreases regs.len() - i,
{
    if i < regs.len() && regs[i].0 != name {
        lemma_reg_index(regs, name, i + 1);
    }
}

proof fn lemma_reg_holding(regs: RegsView, var: Seq<char>, i: int)
    requires
        0 <= i,
    ensures
        match reg_holding(regs, var, i) {
            Some(k) => i <= k < regs.len() && regs[k].1 == Some(var),
            None => true,
        },
    decreases regs.len() - i,
{
    if i < regs.len() && regs[i].1 != Some(var) {
        lemma_reg_holding(regs, var, i + 1);
    }
}

proof fn lemma_free_reg(regs: RegsView, i: int)
    requires
        0 <= i,
    ensures
        match free_reg(regs, i) {
            Some(k) => i <= k < regs.len() && regs[k].1 is None,
            None => true,
        },
    decreases regs.len() - i,
{
    if i < regs.len() && regs[i].1 is Some {
        lemma_free_reg(regs, i + 1);
    }
}

/// In registers with distinct names, the register named `regs[k].0` is at `k`.
proof fn lemma_reg_index_of(regs: RegsView, k: int)
    requires
        0 <= k < regs.len(),
        forall|i: int, j: int| 0 <= i < j < regs.len() ==> regs[i].0 != regs[j].0,
    ensures
        reg_index(regs, regs[k].0, 0) == Some(k),
{
    lemma_reg_index(regs, regs[k].0, 0);
    let r = reg_index(regs, regs[k].0, 0).unwrap();
    if r != k {
        if r < k {
            assert(regs[r].0 != regs[k].0);
        } else {
            assert(regs[k].0 != regs[r].0);
        }
    }
}

impl SimpleCodeGenerator {
    /// Registers `R0` and `R1`, both free.
    pub fn new() -> (r: Self)
        ensures
            regs_view(r.registers@) == seq![("R0"@, None::<Seq<char>>), ("R1"@, None::<Seq<char>>)],
    {
        let mut registers: Vec<(String, Option<String>)> = Vec::new();
        registers.push((String::from_str("R0"), None));
        registers.push((String::from_str("R1"), None));
        assert(regs_view(registers@) =~= seq![("R0"@, None::<Seq<char>>), ("R1"@, None::<Seq<char>>)]);
        SimpleCodeGenerator { registers }
    }

    /// The register for `var`: one that holds it; else a free one, which
    /// now holds it; else `R0`.
    pub fn get_reg(&mut self, var: &str) -> (r: String)
        requires
            regs_ok(regs_view(old(self).registers@)),
        ensures
            (regs_view(final(self).registers@), r@) == get_reg_spec(regs_view(old(self).registers@), var@),
            regs_ok(regs_view(final(self).registers@)),
    {
        let ghost rv = regs_view(self.registers@);
        proof {
            lemma_reg_holding(rv, var@, 0);
            lemma_free_reg(rv, 0);
        }
        let mut i: usize = 0;
        while i < self.registers.len()
            invariant
                rv == regs_view(self.registers@),
                rv == regs_view(old(self).registers@),
                regs_ok(rv),
                i <= rv.len(),
                reg_holding(rv, var@, 0) == reg_holding(rv, var@, i as int),
            decreases rv.len() - i,
        {
            match &self.registers[i].1 {
                Some(v) => {
                    if str_equal(v.as_str(), var) {
                        return self.registers[i].0.clone();
                    }
                }
                None => {}
            }
            i = i + 1;
        }
        let mut i: usize = 0;
        while i < self.registers.len()
            invariant
                rv == regs_view(self.registers@),
                rv == regs_view(old(self).registers@),
                regs_ok(rv),
                reg_holding(rv, var@, 0) is None,
                i <= rv.len(),
                free_reg(rv, 0) == free_reg(rv, i as int),
            decreases rv.len() - i,
        {
            if self.registers[i].1.is_none() {
                assert(rv[i as int].1 is None);
                assert(free_reg(rv, i as int) == Some(i as int));
                let name = self.registers[i].0.clone();
                self.registers.set(i, (name.clone(), Some(String::from_str(var))));
                assert(regs_view(self.registers@) =~= rv.update(i as int, (rv[i as int].0, Some(var@))));
                proof {
                    let nv = regs_view(self.registers@);
                    lemma_reg_index(rv, "R0"@, 0);
                    let k0 = reg_index(rv, "R0"@, 0).unwrap();
                    assert forall|j: int| 0 <= j < nv.len() implies nv[j].0 == rv[j].0 by {}
                    lemma_reg_index_of(nv, k0);
                }
                return name;
            }
            i = i + 1;
        }
        String::from_str("R0")
    }

    /// What register `name` holds.
    fn held_by(&self, name: &str) -> (r: Option<Option<String>>)
        ensures
            match r {
                Some(v) => reg_index(regs_view(self.registers@), name@, 0) matches Some(k)
                    && regs_view(self.registers@)[k].1 == match v { Some(s) => Some(s@), None => None::<Seq<char>> },
                None => reg_index(regs_view(self.registers@), name@, 0) is None,
            },
    {
        let ghost rv = regs_view(self.registers@);
        let mut i: usize = 0;
        while i < self.registers.len()
            invariant
                rv == regs_view(self.registers@),
                i <= rv.len(),
                reg_index(rv, name@, 0) == reg_index(rv, name@, i as int),
            decreases rv.len() - i,
        {
            if str_equal(self.registers[i].0.as_str(), name) {
                let v = match &self.registers[i].1 {
                    Some(s) => Some(s.clone()),
                    None => None,
                };
                return Some(v);
            }
            i = i + 1;
        }
        None
    }

    /// Sets what register `name` holds, adding the register if it is not there.
    fn set_reg(&mut self, name: &String, value: &String)
        requires
            regs_ok(regs_view(old(self).registers@)),
        ensures
            regs_ok(regs_view(final(self).registers@)),
            regs_view(final(self).registers@) == match reg_index(regs_view(old(self).registers@), name@, 0) {
                Some(k) => regs_view(old(self).registers@).update(k, (name@, Some(value@))),
                None => regs_view(old(self).registers@).push((name@, Some(value@))),
            },
    {
        let ghost rv = regs_view(self.registers@);
        proof {
            lemma_reg_index(rv, name@, 0);
            lemma_reg_index(rv, "R0"@, 0);
        }
        let mut i: usize = 0;
        while i < self.registers.len()
            invariant
                rv == regs_view(self.registers@),
                rv == regs_view(old(self).registers@),
                regs_ok(rv),
                i <= rv.len(),
                reg_index(rv, name@, 0) == reg_index(rv, name@, i as int),
            decreases rv.len() - i,
        {
            if str_equal(self.registers[i].0.as_str(), name.as_str()) {
                self.registers.set(i, (name.clone(), Some(value.clone())));
                assert(regs_view(self.registers@) =~= rv.update(i as int, (name@, Some(value@))));
                proof {
                    let nv = regs_view(self.registers@);
                    assert(rv[i as int].0 == name@);
                    assert(reg_index(rv, name@, i as int) == Some(i as int));
                    lemma_reg_index(rv, "R0"@, 0);
                    let k0 = reg_index(rv, "R0"@, 0).unwrap();
                    assert forall|j: int| 0 <= j < nv.len() implies nv[j].0 == rv[j].0 by {}
                    lemma_reg_index_of(nv, k0);
                }
                return;
            }
            i = i + 1;
        }
        self.registers.push((name.clone(), Some(value.clone())));
        assert(regs_view(self.registers@) =~= rv.push((name@, Some(value@))));
        proof {
            let nv = regs_view(self.registers@);
            let k0 = reg_index(rv, "R0"@, 0).unwrap();
            assert(nv[k0] == rv[k0]);
            lemma_reg_index_of(nv, k0);
        }
    }

    /// The code for one instruction.
    fn generate_one(&mut self, tac: &TAC) -> (r: Vec<String>)
        requires
            regs_ok(regs_view(old(self).registers@)),
        ensures
            regs_ok(regs_view(final(self).registers@)),
            (regs_view(final(self).registers@), strs(r@)) == gen_instruction(regs_view(old(self).registers@), tac@),
    {
        let ghost t = tac@;
        let mut lines: Vec<String> = Vec::new();
        let reg1 = self.get_reg(tac.arg1.as_str());
        let mut l1 = String::from_str("MOV ");
        push_str(&mut l1, tac.arg1.as_str());
        push_str(&mut l1, ", ");
        push_str(&mut l1, reg1.as_str());
        lines.push(l1);
        let ghost load1 = strs(lines@);
        match &tac.arg2 {
            Some(arg2) => {
                let reg2 = self.get_reg(arg2.as_str());
                let held = self.held_by(reg2.as_str());
                let same = match &held {
                    Some(Some(v)) => str_equal(v.as_str(), arg2.as_str()),
                    _ => false,
                };
                if !same {
                    let mut l2 = String::from_str("MOV ");
                    push_str(&mut l2, arg2.as_str());
                    push_str(&mut l2, ", ");
                    push_str(&mut l2, reg2.as_str());
                    lines.push(l2);
                }
                let op = if str_equal(tac.op.as_str(), "+") {
                    String::from_str("ADD")
                } else if str_equal(tac.op.as_str(), "-") {
                    String::from_str("SUB")
                } else if str_equal(tac.op.as_str(), "*") {
                    String::from_str("MUL")
                } else if str_equal(tac.op.as_str(), "/") {
                    String::from_str("DIV")
                } else {
                    String::from_str("UNKNOWN")
                };
                let mut l3 = op;
                push_str(&mut l3, " ");
                push_str(&mut l3, reg2.as_str());
                push_str(&mut l3, ", ");
                push_str(&mut l3, reg1.as_str());
                lines.push(l3);
            }
            None => {}
        }
        let ghost before_store = regs_view(self.registers@);
        self.set_reg(&reg1, &tac.result);
        let mut l4 = String::from_str("MOV ");
        push_str(&mut l4, reg1.as_str());
        push_str(&mut l4, ", ");
        push_str(&mut l4, tac.result.as_str());
        lines.push(l4);
        proof {
            let g = gen_instruction(regs_view(old(self).registers@), t);
            assert(strs(lines@) =~= g.1);
        }
        lines
    }

    /// The code for the instructions `tacs`, in order.
    pub fn generate(&mut self, tacs: &Vec<TAC>) -> (r: Vec<String>)
        requires
            regs_ok(regs_view(old(self).registers@)),
        ensures
            regs_ok(regs_view(final(self).registers@)),
            (regs_view(final(self).registers@), strs(r@)) == gen_code(regs_view(old(self).registers@), tacs_view(tacs@), tacs@.len() as int),
    {
        let ghost r0 = regs_view(self.registers@);
        let mut out: Vec<String> = Vec::new();
        let mut i: usize = 0;
        assert(strs(out@) =~= Seq::<Seq<char>>::empty());
        while i < tacs.len()
            invariant
                i <= tacs@.len(),
                r0 == regs_view(old(self).registers@),
                regs_ok(regs_view(self.registers@)),
                (regs_view(self.registers@), strs(out@)) == gen_code(r0, tacs_view(tacs@), i as int),
            decreases tacs@.len() - i,
        {
            let lines = self.generate_one(&tacs[i]);
            let ghost o0 = strs(out@);
            let mut j: usize = 0;
            while j < lines.len()
                invariant
                    j <= lines@.len(),
                    strs(out@) == o0 + strs(lines@).take(j as int),
                decreases lines@.len() - j,
            {
                let ghost before = strs(out@);
                out.push(lines[j].clone());
                assert(strs(out@) =~= before.push(lines@[j as int]@));
                assert(strs(lines@).take(j + 1) =~= strs(lines@).take(j as int).push(lines@[j as int]@));
                j = j + 1;
                assert(strs(out@) =~= o0 + strs(lines@).take(j as int));
            }
            assert(strs(lines@).take(j as int) =~= strs(lines@));
            i = i + 1;
        }
        out
    }
}

/// The operation line of a binary instruction, the one before its final
/// store, begins with the mnemonic of its operator: `ADD` for `+`, `SUB`
/// for `-`, `MUL` for `*`, `DIV` for `/`, `UNKNOWN` for any other.
pub proof fn law_operation_mnemonics(regs: RegsView, t: TacView)
    requires
        t.2 is Some,
    ensures
        ({
            let ls = gen_instruction(regs, t).1;
            &&& ls.len() >= 3
            &&& t.0 == "+"@ ==> ls[ls.len() - 2].take(4) == "ADD "@
            &&& t.0 == "-"@ ==> ls[ls.len() - 2].take(4) == "SUB "@
            &&& t.0 == "*"@ ==> ls[ls.len() - 2].take(4) == "MUL "@
            &&& t.0 == "/"@ ==> ls[ls.len() - 2].take(4) == "DIV "@
            &&& !(t.0 == "+"@ || t.0 == "-"@ || t.0 == "*"@ || t.0 == "/"@) ==> ls[ls.len() - 2].take(8) == "UNKNOWN "@
        }),
{
    reveal_strlit("ADD");
    reveal_strlit("SUB");
    reveal_strlit("MUL");
    reveal_strlit("DIV");
    reveal_strlit("UNKNOWN");
    reveal_strlit("ADD ");
    reveal_strlit("SUB ");
    reveal_strlit("MUL ");
    reveal_strlit("DIV ");
    reveal_strlit("UNKNOWN ");
    reveal_strlit(" ");
    let (regs1, reg1) = get_reg_spec(regs, t.1);
    let a2 = t.2.unwrap();
    let (r2s, reg2) = get_reg_spec(regs1, a2);
    let name = op_name(t.0);
    let line = name + " "@ + reg2 + ", "@ + reg1;
    let ls = gen_instruction(regs, t).1;
    assert(ls[ls.len() - 2] == line);
    assert(line.take((name.len() + 1) as int) =~= name + " "@);
    reveal_strlit("+");
    reveal_strlit("-");
    reveal_strlit("*");
    reveal_strlit("/");
    assert("ADD"@ + " "@ =~= "ADD "@);
    assert("SUB"@ + " "@ =~= "SUB "@);
    assert("MUL"@ + " "@ =~= "MUL "@);
    assert("DIV"@ + " "@ =~= "DIV "@);
    assert("UNKNOWN"@ + " "@ =~= "UNKNOWN "@);
    assert("+"@ != "-"@) by { assert("+"@[0] != "-"@[0]); }
    assert("+"@ != "*"@) by { assert("+"@[0] != "*"@[0]); }
    assert("+"@ != "/"@) by { assert("+"@[0] != "/"@[0]); }
    assert("-"@ != "*"@) by { assert("-"@[0] != "*"@[0]); }
    assert("-"@ != "/"@) by { assert("-"@[0] != "/"@[0]); }
    assert("*"@ != "/"@) by { assert("*"@[0] != "/"@[0]); }
    if t.0 == "-"@ {
        assert(name == "SUB"@);
    } else if t.0 == "*"@ {
        assert(name == "MUL"@);
    } else if t.0 == "/"@ {
        assert(name == "DIV"@);
    }
}

} // verus!
