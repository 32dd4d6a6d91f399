//! The line-by-line semantic-analysis and intermediate-code phases: each
//! reads one statement at a time and answers with the lines to show, until
//! a line reads `exit` in any case.
//!
//! The semantic phase keeps a table of declared variables: `int a,b;`
//! declares, and `x = ...` checks that `x` is declared. The intermediate
//! phase turns `x = a + b` into three-address code with numbered
//! temporaries.
use vstd::prelude::*;
use crate::text::{
    chars_of, string_of_range, str_equal, push_str, usize_to_string, decimal, trim, trim_chars,
    has_char, find_char, position_of, split_on, split_chars, words, split_words, lowercase,
    to_lowercase, chars_range, has_prefix,
};

verus! {

/// `s` without one trailing `;`.
pub open spec fn strip_semicolon(s: Seq<char>) -> Seq<char> {
    if s.len() > 0 && s.last() == ';' { s.drop_last() } else { s }
}

/// The statement of a line, or `None` when the line asks to stop: the line
/// trimmed, when it is not `exit` in lower case.
pub open spec fn is_exit(line: Seq<char>) -> bool {
    lowercase(trim(line)) == "exit"@
}

/// The answer to one line: `None` to stop, or the lines to show.
pub type Reply = Option<Seq<Seq<char>>>;

/// Declares each of `vars`, trimmed, in `table`: the new table and the
/// messages.
pub open spec fn declare_vars(table: Seq<Seq<char>>, vars: Seq<Seq<char>>) -> (Seq<Seq<char>>, Seq<Seq<char>>)
    decreases vars.len(),
{
    if vars.len() == 0 {
        (table, Seq::empty())
    } else {
        let (t1, m1) = declare_vars(table, vars.drop_last());
        let v = trim(vars.last());
        if t1.contains(v) {
            (t1, m1.push("ERROR: "@ + v + " already declared"@))
        } else {
            (t1.push(v), m1.push("Declared: "@ + v))
        }
    }
}

/// What the semantic phase does with `line` given the declared variables
/// `table`: the new table and its reply.
pub open spec fn semantic_reply(table: Seq<Seq<char>>, line: Seq<char>) -> (Seq<Seq<char>>, Reply) {
    let t = trim(line);
    if is_exit(line) {
        (table, None)
    } else if t.len() == 0 {
        (table, Some(Seq::empty()))
    } else {
        let l = strip_semicolon(t);
        if "int"@.is_prefix_of(l) {
            let parts = words(l);
            if parts.len() >= 2 {
                let (t2, m) = declare_vars(table, split_on(parts[1], ','));
                (t2, Some(m))
            } else {
                (table, Some(seq!["Invalid declaration"@]))
            }
        } else if has_char(l, '=') {
            let lhs = trim(l.take(find_char(l, '=', 0).unwrap()));
            if table.contains(lhs) {
                (table, Some(seq!["OK: "@ + l]))
            } else {
                (table, Some(seq!["ERROR: "@ + lhs + " not declared"@]))
            }
        } else {
            (table, Some(seq!["Invalid statement"@]))
        }
    }
}

/// What the intermediate-code phase does with `line` when the next
/// temporary is number `temp`: the next number and its reply.
pub open spec fn intermediate_reply(temp: nat, line: Seq<char>) -> (nat, Reply) {
    let t = trim(line);
    if is_exit(line) {
        (temp, None)
    } else if t.len() == 0 {
        (temp, Some(Seq::empty()))
    } else {
        let l = strip_semicolon(t);
        if has_char(l, '=') && has_char(l, '+') {
            let eq = find_char(l, '=', 0).unwrap();
            let lhs = trim(l.take(eq));
            let rhs = trim(l.skip(eq + 1));
            if has_char(rhs, '+') {
                let p = find_char(rhs, '+', 0).unwrap();
                let a = trim(rhs.take(p));
                let b = trim(rhs.skip(p + 1));
                let tn = "t"@ + decimal(temp);
                (temp + 1, Some(seq![tn + " = "@ + a + " + "@ + b, lhs + " = "@ + tn]))
            } else {
                (temp, Some(Seq::empty()))
            }
        } else if has_char(l, '=') {
            (temp, Some(seq![l]))
        } else {
            (temp, Some(seq!["Invalid statement"@]))
        }
    }
}

/// The views of a list of strings.
pub open spec fn lines_view(v: Seq<String>) -> Seq<Seq<char>> {
    v.map_values(|s: String| s@)
}

/// The reply as mathematical values.
pub open spec fn reply_view(r: Option<Vec<String>>) -> Reply {
    match r {
        Some(v) => Some(lines_view(v@)),
        None => None,
    }
}

/// The trimmed statement of a line, and whether it asks to stop.
fn read_statement(line: &str) -> (r: (Vec<char>, bool))
    ensures
        r.0@ == trim(line@),
        r.1 == is_exit(line@),
{
    let cs = chars_of(line);
    let t = trim_chars(&cs);
    let ts = string_of_range(&t, 0, t.len());
    assert(t@.subrange(0, t@.len() as int) =~= t@);
    let lower = to_lowercase(ts.as_str());
    let exit = str_equal(lower.as_str(), "exit");
    (t, exit)
}

/// `t` without one trailing `;`.
fn strip_semicolon_chars(t: Vec<char>) -> (r: Vec<char>)
    ensures
        r@ == strip_semicolon(t@),
{
    let mut t = t;
    if t.len() > 0 && t[t.len() - 1] == ';' {
        t.pop();
    }
    t
}

/// The semantic-analysis phase: the variables declared so far.
pub struct SemanticAnalyzer {
    pub symbols: Vec<String>,
}

impl SemanticAnalyzer {
    /// A phase with no variables declared.
    pub fn new() -> (r: Self)
        ensures
            r.symbols@.len() == 0,
    {
        SemanticAnalyzer { symbols: Vec::new() }
    }

    /// Whether `v` is declared.
    fn declared(&self, v: &str) -> (r: bool)
        ensures
            r == lines_view(self.symbols@).contains(v@),
    {
        let mut i: usize = 0;
        while i < self.symbols.len()
            invariant
                i <= self.symbols@.len(),
                forall|j: int| 0 <= j < i ==> lines_view(self.symbols@)[j] != v@,
            decreases self.symbols@.len() - i,
        {
            if str_equal(self.symbols[i].as_str(), v) {
                assert(lines_view(self.symbols@)[i as int] == v@);
                return true;
            }
            i = i + 1;
        }
        false
    }

    /// Handles one input line: declares or checks variables and gives the
    /// lines to show, or `None` when the line asks to stop.
    pub fn step(&mut self, line: &str) -> (r: Option<Vec<String>>)
        ensures
            (lines_view(final(self).symbols@), reply_view(r)) == semantic_reply(lines_view(old(self).symbols@), line@),
    {
        let (t, exit) = read_statement(line);
        if exit {
            return None;
        }
        if t.len() == 0 {
            let out: Vec<String> = Vec::new();
            assert(lines_view(out@) =~= Seq::empty());
            return Some(out);
        }
        let l = strip_semicolon_chars(t);
        let mut out: Vec<String> = Vec::new();
        let int_kw: Vec<char> = chars_of("int");
        if has_prefix(&l, &int_kw) {
            let parts = split_words(&l);
            if parts.len() >= 2 {
                let vars = split_chars(&parts[1], ',');
                let ghost vv = vars@.map_values(|v: Vec<char>| v@);
                let ghost t0 = lines_view(self.symbols@);
                let mut k: usize = 0;
                assert(vv.take(0) =~= Seq::<Seq<char>>::empty());
                while k < vars.len()
                    invariant
                        vv == vars@.map_values(|v: Vec<char>| v@),
                        k <= vv.len(),
                        (lines_view(self.symbols@), lines_view(out@)) == declare_vars(t0, vv.take(k as int)),
                    decreases vv.len() - k,
                {
                    assert(vv.take(k + 1).drop_last() =~= vv.take(k as int));
                    let v = trim_chars(&vars[k]);
                    let vs = string_of_range(&v, 0, v.len());
                    assert(v@.subrange(0, v@.len() as int) =~= v@);
                    let ghost o0 = lines_view(out@);
                    let ghost s0 = lines_view(self.symbols@);
                    if self.declared(vs.as_str()) {
                        let mut m = String::from_str("ERROR: ");
                        push_str(&mut m, vs.as_str());
                        push_str(&mut m, " already declared");
                        out.push(m);
                        assert(lines_view(out@) =~= o0.push("ERROR: "@ + v@ + " already declared"@));
                    } else {
                        let mut m = String::from_str("Declared: ");
                        push_str(&mut m, vs.as_str());
                        self.symbols.push(vs);
                        out.push(m);
                        assert(lines_view(out@) =~= o0.push("Declared: "@ + v@));
                        assert(lines_view(self.symbols@) =~= s0.push(v@));
                    }
                    k = k + 1;
                }
                assert(vv.take(k as int) =~= vv);
            } else {
                out.push(String::from_str("Invalid declaration"));
                assert(lines_view(out@) =~= seq!["Invalid declaration"@]);
            }
        } else {
            match position_of(&l, '=') {
                Some(idx) => {
                    let lhs = trim_chars(&chars_range(&l, 0, idx));
                    let lhs_s = string_of_range(&lhs, 0, lhs.len());
                    assert(lhs@.subrange(0, lhs@.len() as int) =~= lhs@);
                    if self.declared(lhs_s.as_str()) {
                        let mut m = String::from_str("OK: ");
                        let ls = string_of_range(&l, 0, l.len());
                        assert(l@.subrange(0, l@.len() as int) =~= l@);
                        push_str(&mut m, ls.as_str());
                        out.push(m);
                        assert(lines_view(out@) =~= seq!["OK: "@ + l@]);
                    } else {
                        let mut m = String::from_str("ERROR: ");
                        push_str(&mut m, lhs_s.as_str());
                        push_str(&mut m, " not declared");
                        out.push(m);
                        assert(lines_view(out@) =~= seq!["ERROR: "@ + lhs@ + " not declared"@]);
                    }
                }
                None => {
                    out.push(String::from_str("Invalid statement"));
                    assert(lines_view(out@) =~= seq!["Invalid statement"@]);
                }
            }
        }
        Some(out)
    }
}

/// The intermediate-code phase: the number of the next temporary.
pub struct IntermediateGenerator {
    pub temp: usize,
}

impl IntermediateGenerator {
    /// A phase whose first temporary is `t1`.
    pub fn new() -> (r: Self)
        ensures
            r.temp == 1,
    {
        IntermediateGenerator { temp: 1 }
    }

    /// Handles one input line: gives the three-address code of `x = a + b`,
    /// echoes other assignments, or `None` when the line asks to stop.
    pub fn step(&mut self, line: &str) -> (r: Option<Vec<String>>)
        requires
            old(self).temp < usize::MAX,
        ensures
            (final(self).temp as nat, reply_view(r)) == intermediate_reply(old(self).temp as nat, line@),
    {
        let (t, exit) = read_statement(line);
        if exit {
            return None;
        }
        let mut out: Vec<String> = Vec::new();
        if t.len() == 0 {
            assert(lines_view(out@) =~= Seq::empty());
            return Some(out);
        }
        let l = strip_semicolon_chars(t);
        let eq = position_of(&l, '=');
        let plus = position_of(&l, '+');
        match eq {
            Some(e) => {
                if plus.is_some() {
                    let lhs = trim_chars(&chars_range(&l, 0, e));
                    let rhs = trim_chars(&chars_range(&l, e + 1, l.len()));
                    assert(l@.subrange(e + 1, l@.len() as int) =~= l@.skip(e + 1));
                    match position_of(&rhs, '+') {
                        Some(p) => {
                            let a = trim_chars(&chars_range(&rhs, 0, p));
                            let rl = rhs.len();
                            let b = trim_chars(&chars_range(&rhs, p + 1, rl));
                            assert(rhs@.subrange(p + 1, rhs@.len() as int) =~= rhs@.skip(p + 1));
                            let mut tn = String::from_str("t");
                            let num = usize_to_string(self.temp);
                            push_str(&mut tn, num.as_str());
                            let a_s = string_of_range(&a, 0, a.len());
                            let b_s = string_of_range(&b, 0, b.len());
                            let lhs_s = string_of_range(&lhs, 0, lhs.len());
                            assert(a@.subrange(0, a@.len() as int) =~= a@);
                            assert(b@.subrange(0, b@.len() as int) =~= b@);
                            assert(lhs@.subrange(0, lhs@.len() as int) =~= lhs@);
                            let mut first = String::from_str(tn.as_str());
                            push_str(&mut first, " = ");
                            push_str(&mut first, a_s.as_str());
                            push_str(&mut first, " + ");
                            push_str(&mut first, b_s.as_str());
                            let mut second = String::from_str(lhs_s.as_str());
                            push_str(&mut second, " = ");
                            push_str(&mut second, tn.as_str());
                            let ghost tnv = "t"@ + decimal(old(self).temp as nat);
                            assert(tn@ =~= tnv);
                            assert(first@ =~= tnv + " = "@ + a@ + " + "@ + b@);
                            assert(second@ =~= lhs@ + " = "@ + tnv);
                            out.push(first);
                            out.push(second);
                            self.temp = self.temp + 1;
                            assert(lines_view(out@) =~= seq![tnv + " = "@ + a@ + " + "@ + b@, lhs@ + " = "@ + tnv]);
                        }
                        None => {
                            assert(lines_view(out@) =~= Seq::empty());
                        }
                    }
                } else {
                    let ls = string_of_range(&l, 0, l.len());
                    assert(l@.subrange(0, l@.len() as int) =~= l@);
                    out.push(ls);
                    assert(lines_view(out@) =~= seq![l@]);
                }
            }
            None => {
                out.push(String::from_str("Invalid statement"));
                assert(lines_view(out@) =~= seq!["Invalid statement"@]);
            }
        }
        Some(out)
    }
}

} // verus!

verus! {

proof fn lemma_declare_vars(table: Seq<Seq<char>>, vars: Seq<Seq<char>>)
    requires
        table.no_duplicates(),
    ensures
        table.is_prefix_of(declare_vars(table, vars).0),
        declare_vars(table, vars).0.no_duplicates(),
    decreases vars.len(),
{
    if vars.len() > 0 {
        lemma_declare_vars(table, vars.drop_last());
        let t1 = declare_vars(table, vars.drop_last()).0;
        let v = trim(vars.last());
        if !t1.contains(v) {
            assert(t1.push(v).no_duplicates()) by {
                assert forall|i: int, j: int| 0 <= i < j < t1.push(v).len() implies t1.push(v)[i] != t1.push(v)[j] by {
                    if j == t1.len() {
                        assert(t1[i] != v);
                    }
                }
            }
            assert(table.is_prefix_of(t1.push(v))) by {
                assert(t1.push(v).subrange(0, table.len() as int) =~= t1.subrange(0, table.len() as int));
            }
        }
    }
}

/// The semantic phase only adds to its table, and never declares a
/// variable twice: from a table without repeats, the table after any line
/// extends it and has no repeats.
pub proof fn law_symbol_table_grows_without_repeats(table: Seq<Seq<char>>, line: Seq<char>)
    requires
        table.no_duplicates(),
    ensures
        table.is_prefix_of(semantic_reply(table, line).0),
        semantic_reply(table, line).0.no_duplicates(),
{
    let t = trim(line);
    let l = strip_semicolon(t);
    let parts = words(l);
    if parts.len() >= 2 {
        lemma_declare_vars(table, split_on(parts[1], ','));
    }
    assert(table.is_prefix_of(table)) by {
        assert(table.subrange(0, table.len() as int) =~= table);
    }
}

/// The intermediate phase uses at most one new temporary per line, and
/// one exactly when it emits code.
pub proof fn law_one_temporary_per_line(temp: nat, line: Seq<char>)
    ensures
        intermediate_reply(temp, line).0 == temp || intermediate_reply(temp, line).0 == temp + 1,
        intermediate_reply(temp, line).0 == temp + 1 <==> (intermediate_reply(temp, line).1 matches Some(ls) && ls.len() == 2),
{
}

} // verus!
