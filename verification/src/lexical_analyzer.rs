//! A regex-driven lexical analyzer: one alternation of named patterns cuts
//! the source into comments, keywords, names, numbers, operators,
//! punctuation, blanks, newlines and stray characters.
//!
//! Comments, blanks and newlines give no token; newlines and the newlines
//! inside comments advance the line count. A stray character is an error.
//! Each token records its line and its byte column within the line.
use vstd::prelude::*;
use vstd::utf8::encode_utf8;
use crate::text::{str_equal, push_str, usize_to_string, decimal};
use crate::pattern::{CaptureView, capture_view, captures_view, names_view, regex_named_captures, named_captures, debug_quoted, debug_quote};

verus! {

/// A token: its kind, its text, its line, and its byte column.
pub struct Token {
    pub token_type: String,
    pub value: String,
    pub line: usize,
    pub column: usize,
}

/// A token as mathematical values.
pub type TokenView = (Seq<char>, Seq<char>, int, int);

impl View for Token {
    type V = TokenView;

    open spec fn view(&self) -> TokenView {
        (self.token_type@, self.value@, self.line as int, self.column as int)
    }
}

/// The views of a list of tokens.
pub open spec fn tokens_view(v: Seq<Token>) -> Seq<TokenView> {
    v.map_values(|t: Token| t@)
}

/// The named patterns, in the order in which they are tried.
pub open spec fn rule_table() -> Seq<(Seq<char>, Seq<char>)> {
    seq![
        ("COMMENT"@, r"//.*|/\*[\s\S]*?\*/"@),
        ("KEYWORD"@, r"\b(if|else|while|return|int|float|void)\b"@),
        ("ID"@, r"[a-zA-Z_]\w*"@),
        ("FLOAT"@, r"\d+\.\d+"@),
        ("INT"@, r"\d+"@),
        ("OP"@, r"[+\-*/%=<>!&|]+"@),
        ("PUNC"@, r"[;,\{\}\(\)\[\]]"@),
        ("SPACE"@, r"[ \t]+"@),
        ("NEWLINE"@, r"\n"@),
        ("MISMATCH"@, r"."@),
    ]
}

/// The names of the rules.
pub open spec fn rule_names(rules: Seq<(Seq<char>, Seq<char>)>) -> Seq<Seq<char>> {
    rules.map_values(|r: (Seq<char>, Seq<char>)| r.0)
}

/// The pattern of a rule as a named group: `(?P<name>pattern)`.
pub open spec fn named_group(r: (Seq<char>, Seq<char>)) -> Seq<char> {
    "(?P<"@ + r.0 + ">"@ + r.1 + ")"@
}

/// The named groups of `rules` joined with `|`.
pub open spec fn alternation(rules: Seq<(Seq<char>, Seq<char>)>) -> Seq<char>
    decreases rules.len(),
{
    if rules.len() == 0 {
        Seq::empty()
    } else if rules.len() == 1 {
        named_group(rules[0])
    } else {
        alternation(rules.drop_last()) + "|"@ + named_group(rules.last())
    }
}

/// The position of the first name `name` in `names`, from position `i` on.
pub open spec fn name_index(names: Seq<Seq<char>>, name: Seq<char>, i: int) -> Option<int>
    decreases names.len() - i,
{
    if i < 0 || i >= names.len() {
        None
    } else if names[i] == name {
        Some(i)
    } else {
        name_index(names, name, i + 1)
    }
}

/// The group named `name` in capture `c`, when it took part.
pub open spec fn group(c: CaptureView, names: Seq<Seq<char>>, name: Seq<char>) -> Option<(int, int, Seq<char>)> {
    match name_index(names, name, 0) {
        Some(j) => if j < c.2.len() { c.2[j] } else { None },
        None => None,
    }
}

/// The first group from position `j` on that took part in capture `c`.
pub open spec fn first_group(c: CaptureView, j: int) -> Option<(int, (int, int, Seq<char>))>
    decreases c.2.len() - j,
{
    if j < 0 || j >= c.2.len() {
        None
    } else if c.2[j] is Some {
        Some((j, c.2[j].unwrap()))
    } else {
        first_group(c, j + 1)
    }
}

/// The number of newline bytes in `bytes[from..to]`.
pub open spec fn count_newlines(bytes: Seq<u8>, from: int, to: int) -> int
    decreases to - from,
{
    if to <= from { 0 } else { count_newlines(bytes, from, to - 1) + (if bytes[to - 1] == 10u8 { 1int } else { 0int }) }
}

/// `a + b`, or `usize::MAX` when that does not fit.
pub open spec fn sat_add(a: int, b: int) -> int {
    if a + b > usize::MAX { usize::MAX as int } else { a + b }
}

/// `Ok(acc)` followed by `r`.
pub open spec fn prepend(acc: Seq<TokenView>, r: Result<Seq<TokenView>, Seq<char>>) -> Result<Seq<TokenView>, Seq<char>> {
    match r {
        Ok(ts) => Ok(acc + ts),
        Err(e) => Err(e),
    }
}

/// What one capture does: go on at a line and line start, with a token or
/// none, or stop with an error.
pub enum CaptureStep {
    Next(int, int, Option<TokenView>),
    Fail(Seq<char>),
}

/// What capture `c` does at line `line` whose first byte is at `ls`: a
/// comment moves the line on by its newlines and the line start to its
/// end; a newline moves the line on by one and the line start to its end;
/// blanks give nothing; a stray character is an error; anything else is a
/// token of the first rule whose group took part, at the byte column of its
/// start.
pub open spec fn capture_step(names: Seq<Seq<char>>, bytes: Seq<u8>, c: CaptureView, line: int, ls: int) -> CaptureStep {
    match group(c, names, "COMMENT"@) {
        Some(g) => CaptureStep::Next(sat_add(line, count_newlines(bytes, ls, g.1)), g.1, None),
        None => match group(c, names, "NEWLINE"@) {
            Some(g) => CaptureStep::Next(sat_add(line, 1), g.1, None),
            None => if group(c, names, "SPACE"@) is Some {
                CaptureStep::Next(line, ls, None)
            } else {
                match group(c, names, "MISMATCH"@) {
                    Some(g) => CaptureStep::Fail("Unexpected character "@ + debug_quoted(g.2) + " at line "@ + decimal(line as nat)),
                    None => match first_group(c, 0) {
                        Some((j, g)) => CaptureStep::Next(line, ls, Some((names[j], g.2, line, g.0 - ls))),
                        None => CaptureStep::Next(line, ls, None),
                    },
                }
            },
        },
    }
}

/// The tokens of the captures from position `k` on, at line `line` whose
/// first byte is at `ls`, or the error at the first stray character.
pub open spec fn tokens_from(names: Seq<Seq<char>>, bytes: Seq<u8>, caps: Seq<CaptureView>, k: int, line: int, ls: int)
    -> Result<Seq<TokenView>, Seq<char>>
    decreases caps.len() - k,
{
    if k < 0 || k >= caps.len() {
        Ok(Seq::empty())
    } else {
        match capture_step(names, bytes, caps[k], line, ls) {
            CaptureStep::Fail(m) => Err(m),
            CaptureStep::Next(l2, ls2, t) => match t {
                Some(tv) => prepend(seq![tv], tokens_from(names, bytes, caps, k + 1, l2, ls2)),
                None => tokens_from(names, bytes, caps, k + 1, l2, ls2),
            },
        }
    }
}

/// What `tokenize` gives for `code` with the rules `rules`: the tokens, or
/// the error at the first stray character, or an error when the pattern
/// does not compile.
pub open spec fn lexical_result(rules: Seq<(Seq<char>, Seq<char>)>, pattern: Seq<char>, code: Seq<char>)
    -> Result<Seq<TokenView>, Seq<char>>
{
    let names = rule_names(rules);
    match regex_named_captures(pattern, names, code) {
        Some(caps) => tokens_from(names, encode_utf8(code), caps, 0, 1, 0),
        None => Err("invalid pattern"@),
    }
}

/// The rules and the pattern made of them.
pub struct LexicalAnalyzer {
    pub rules: Vec<(String, String)>,
    pub pattern: String,
}

impl LexicalAnalyzer {
    /// The rules as mathematical values.
    pub open spec fn rules_view(&self) -> Seq<(Seq<char>, Seq<char>)> {
        self.rules@.map_values(|r: (String, String)| (r.0@, r.1@))
    }

    /// The analyzer with the standard rules and their alternation.
    pub fn new() -> (r: Self)
        ensures
            r.rules_view() == rule_table(),
            r.pattern@ == alternation(rule_table()),
    {
        let mut rules: Vec<(String, String)> = Vec::new();
        rules.push((String::from_str("COMMENT"), String::from_str(r"//.*|/\*[\s\S]*?\*/")));
        rules.push((String::from_str("KEYWORD"), String::from_str(r"\b(if|else|while|return|int|float|void)\b")));
        rules.push((String::from_str("ID"), String::from_str(r"[a-zA-Z_]\w*")));
        rules.push((String::from_str("FLOAT"), String::from_str(r"\d+\.\d+")));
        rules.push((String::from_str("INT"), String::from_str(r"\d+")));
        rules.push((String::from_str("OP"), String::from_str(r"[+\-*/%=<>!&|]+")));
        rules.push((String::from_str("PUNC"), String::from_str(r"[;,\{\}\(\)\[\]]")));
        rules.push((String::from_str("SPACE"), String::from_str(r"[ \t]+")));
        rules.push((String::from_str("NEWLINE"), String::from_str(r"\n")));
        rules.push((String::from_str("MISMATCH"), String::from_str(r".")));
        let ghost rv = rules@.map_values(|r: (String, String)| (r.0@, r.1@));
        assert(rv =~= rule_table());
        let mut pattern = String::new();
        let mut i: usize = 0;
        while i < rules.len()
            invariant
                rv == rules@.map_values(|r: (String, String)| (r.0@, r.1@)),
                i <= rv.len(),
                pattern@ == alternation(rv.take(i as int)),
            decreases rv.len() - i,
        {
            if i > 0 {
                push_str(&mut pattern, "|");
            }
            push_str(&mut pattern, "(?P<");
            push_str(&mut pattern, rules[i].0.as_str());
            push_str(&mut pattern, ">");
            push_str(&mut pattern, rules[i].1.as_str());
            push_str(&mut pattern, ")");
            assert(rv.take(i + 1).drop_last() =~= rv.take(i as int));
            proof {
                if i == 0 {
                    assert(rv.take(1)[0] == rv[0]);
                }
            }
            i = i + 1;
        }
        assert(rv.take(i as int) =~= rv);
        LexicalAnalyzer { rules, pattern }
    }

    /// The names of the rules, in order.
    fn names(&self) -> (r: Vec<String>)
        ensures
            names_view(r@) == rule_names(self.rules_view()),
    {
        let mut r: Vec<String> = Vec::new();
        let mut i: usize = 0;
        while i < self.rules.len()
            invariant
                i <= self.rules@.len(),
                names_view(r@) == rule_names(self.rules_view()).take(i as int),
            decreases self.rules@.len() - i,
        {
            let ghost r0 = names_view(r@);
            r.push(self.rules[i].0.clone());
            assert(names_view(r@) =~= r0.push(self.rules_view()[i as int].0));
            i = i + 1;
            assert(names_view(r@) =~= rule_names(self.rules_view()).take(i as int));
        }
        assert(rule_names(self.rules_view()).take(i as int)
            =~= rule_names(self.rules_view()));
        r
    }

    /// Cuts `code` into tokens, or gives the error at its first stray
    /// character.
    pub fn tokenize(&self, code: &str) -> (r: Result<Vec<Token>, String>)
        ensures
            match r {
                Ok(ts) => lexical_result(self.rules_view(), self.pattern@, code@) == Ok::<Seq<TokenView>, Seq<char>>(tokens_view(ts@)),
                Err(e) => lexical_result(self.rules_view(), self.pattern@, code@) == Err::<Seq<TokenView>, Seq<char>>(e@),
            },
    {
        let names = self.names();
        let caps = match named_captures(self.pattern.as_str(), &names, code) {
            Some(c) => c,
            None => {
                return Err(String::from_str("invalid pattern"));
            }
        };
        let bytes = code.as_bytes();
        let ghost bv = encode_utf8(code@);
        assert(bytes@ == bv);
        let ghost cv = captures_view(caps@);
        let ghost nv = names_view(names@);
        let mut tokens: Vec<Token> = Vec::new();
        let mut line: usize = 1;
        let mut ls: usize = 0;
        let mut k: usize = 0;
        assert(tokens_view(tokens@) =~= Seq::<TokenView>::empty());
        assert(Seq::<TokenView>::empty() + Seq::<TokenView>::empty() =~= Seq::<TokenView>::empty());
        while k < caps.len()
            invariant
                bytes@ == bv,
                bv == encode_utf8(code@),
                cv == captures_view(caps@),
                nv == names_view(names@),
                nv == rule_names(self.rules_view()),
                regex_named_captures(self.pattern@, nv, code@) == Some(cv),
                k <= caps@.len(),
                ls <= bv.len(),
                k < caps@.len() ==> ls <= caps@[k as int].0,
                forall|kk: int| 0 <= kk < caps@.len() ==> (#[trigger] caps@[kk]).0 <= caps@[kk].1 <= bv.len(),
                forall|kk: int| 0 < kk < caps@.len() ==> caps@[kk - 1].1 <= (#[trigger] caps@[kk]).0,
                forall|kk: int| 0 <= kk < caps@.len() ==> (#[trigger] caps@[kk]).2@.len() == names@.len(),
                forall|kk: int, j: int| 0 <= kk < caps@.len() && 0 <= j < caps@[kk].2@.len() && (#[trigger] caps@[kk].2@[j]) is Some
                    ==> caps@[kk].0 <= caps@[kk].2@[j].unwrap().0 <= caps@[kk].2@[j].unwrap().1 <= caps@[kk].1,
                prepend(tokens_view(tokens@), tokens_from(nv, bv, cv, k as int, line as int, ls as int))
                    == tokens_from(nv, bv, cv, 0, 1, 0),
            decreases caps@.len() - k,
        {
            let ghost acc0 = tokens_view(tokens@);
            let ghost step = capture_step(nv, bv, cv[k as int], line as int, ls as int);
            match capture_step_exec(&names, bytes, &caps[k], line, ls) {
                Err(msg) => {
                    assert(cv[k as int] == capture_view(caps@[k as int]));
                    assert(step == CaptureStep::Fail(msg@));
                    assert(tokens_from(nv, bv, cv, k as int, line as int, ls as int) == Err::<Seq<TokenView>, Seq<char>>(msg@));
                    return Err(msg);
                }
                Ok((l2, ls2, t)) => {
                    match t {
                        Some(tok) => {
                            let ghost tv = tok@;
                            tokens.push(tok);
                            assert(tokens_view(tokens@) =~= acc0 + seq![tv]);
                            proof {
                                let rest = tokens_from(nv, bv, cv, k + 1, l2 as int, ls2 as int);
                                if rest is Ok {
                                    assert(acc0 + seq![tv] + rest->Ok_0 =~= acc0 + (seq![tv] + rest->Ok_0));
                                }
                            }
                        }
                        None => {}
                    }
                    line = l2;
                    ls = ls2;
                }
            }
            k = k + 1;
        }
        Ok(tokens)
    }
}

/// What capture `c` does at line `line` whose first byte is at `ls`.
fn capture_step_exec(
    names: &Vec<String>,
    bytes: &[u8],
    c: &(usize, usize, Vec<Option<(usize, usize, String)>>),
    line: usize,
    ls: usize,
) -> (r: Result<(usize, usize, Option<Token>), String>)
    requires
        c.2@.len() == names@.len(),
        ls <= c.0 <= c.1 <= bytes@.len(),
        forall|j: int| 0 <= j < c.2@.len() && (#[trigger] c.2@[j]) is Some ==> c.0 <= c.2@[j].unwrap().0 <= c.2@[j].unwrap().1 <= c.1,
    ensures
        match r {
            Ok((l2, ls2, t)) => {
                &&& capture_step(names_view(names@), bytes@, capture_view(*c), line as int, ls as int)
                    == CaptureStep::Next(l2 as int, ls2 as int, match t { Some(tok) => Some(tok@), None => None })
                &&& ls2 <= c.1
            },
            Err(e) => capture_step(names_view(names@), bytes@, capture_view(*c), line as int, ls as int) == CaptureStep::Fail(e@),
        },
{
    let ghost cv = capture_view(*c);
    match group_at(names, c, "COMMENT") {
        Some(j) => {
            match &c.2[j] {
                Some(g) => {
                    let n = count_newline_bytes(bytes, ls, g.1);
                    return Ok((line.saturating_add(n), g.1, None));
                }
                None => {
                    return Ok((line, ls, None));
                }
            }
        }
        None => {}
    }
    match group_at(names, c, "NEWLINE") {
        Some(j) => {
            match &c.2[j] {
                Some(g) => {
                    return Ok((line.saturating_add(1), g.1, None));
                }
                None => {
                    return Ok((line, ls, None));
                }
            }
        }
        None => {}
    }
    if group_at(names, c, "SPACE").is_some() {
        return Ok((line, ls, None));
    }
    match group_at(names, c, "MISMATCH") {
        Some(j) => {
            match &c.2[j] {
                Some(g) => {
                    let text = debug_quote(g.2.as_str());
                    let mut msg = String::from_str("Unexpected character ");
                    push_str(&mut msg, text.as_str());
                    push_str(&mut msg, " at line ");
                    let num = usize_to_string(line);
                    push_str(&mut msg, num.as_str());
                    return Err(msg);
                }
                None => {
                    return Ok((line, ls, None));
                }
            }
        }
        None => {}
    }
    let mut j: usize = 0;
    while j < c.2.len()
        invariant
            j <= c.2@.len(),
            first_group(cv, 0) == first_group(cv, j as int),
            cv == capture_view(*c),
        ensures
            j <= c.2@.len(),
            first_group(cv, 0) == first_group(cv, j as int),
            j < c.2@.len() ==> c.2@[j as int] is Some,
        decreases c.2@.len() - j,
    {
        if c.2[j].is_some() {
            break;
        }
        j = j + 1;
    }
    if j < c.2.len() {
        match &c.2[j] {
            Some(g) => {
                let tok = Token { token_type: names[j].clone(), value: g.2.clone(), line, column: g.0 - ls };
                return Ok((line, ls, Some(tok)));
            }
            None => {}
        }
    }
    Ok((line, ls, None))
}

/// The position of the name `name` in `names`, when the group of that name
/// took part in capture `c`.
fn group_at(names: &Vec<String>, c: &(usize, usize, Vec<Option<(usize, usize, String)>>), name: &str) -> (r: Option<usize>)
    requires
        c.2@.len() == names@.len(),
    ensures
        match r {
            Some(j) => j < c.2@.len() && c.2@[j as int] is Some
                && group(capture_view(*c), names_view(names@), name@) == capture_view(*c).2[j as int],
            None => group(capture_view(*c), names_view(names@), name@) is None,
        },
{
    let ghost nv = names_view(names@);
    let mut i: usize = 0;
    while i < names.len()
        invariant
            nv == names_view(names@),
            c.2@.len() == names@.len(),
            i <= nv.len(),
            name_index(nv, name@, 0) == name_index(nv, name@, i as int),
        decreases nv.len() - i,
    {
        if str_equal(names[i].as_str(), name) {
            if c.2[i].is_some() {
                return Some(i);
            } else {
                return None;
            }
        }
        i = i + 1;
    }
    None
}

/// The number of newline bytes in `bytes[from..to]`.
fn count_newline_bytes(bytes: &[u8], from: usize, to: usize) -> (r: usize)
    requires
        from <= to <= bytes@.len(),
    ensures
        r == count_newlines(bytes@, from as int, to as int),
{
    let mut n: usize = 0;
    let mut i: usize = from;
    while i < to
        invariant
            from <= i <= to,
            to <= bytes@.len(),
            n == count_newlines(bytes@, from as int, i as int),
            n <= i - from,
        decreases to - i,
    {
        if bytes[i] == 10u8 {
            n = n + 1;
        }
        i = i + 1;
    }
    n
}

} // verus!
