//! Classification of the words of a source text: keywords, operators,
//! delimiters, numbers and identifiers.
use vstd::prelude::*;
use crate::text::{chars_of, str_equal, numeric, is_numeric};
use crate::pattern::{regex_all_matches, all_matches};

verus! {

/// The class of a word.
#[derive(Clone, Copy, PartialEq, Eq, Structural)]
pub enum TokenClass {
    Keyword,
    Operator,
    Delimiter,
    Number,
    Identifier,
}

impl TokenClass {
    /// The name of the class, as the analysis prints it.
    pub fn name(&self) -> (r: &'static str)
        ensures
            r@ == class_name(*self),
    {
        match self {
            TokenClass::Keyword => "KEYWORD",
            TokenClass::Operator => "OPERATOR",
            TokenClass::Delimiter => "DELIMITER",
            TokenClass::Number => "NUMBER",
            TokenClass::Identifier => "IDENTIFIER",
        }
    }
}

/// The name of a class.
pub open spec fn class_name(c: TokenClass) -> Seq<char> {
    match c {
        TokenClass::Keyword => "KEYWORD"@,
        TokenClass::Operator => "OPERATOR"@,
        TokenClass::Delimiter => "DELIMITER"@,
        TokenClass::Number => "NUMBER"@,
        TokenClass::Identifier => "IDENTIFIER"@,
    }
}

/// The keywords.
pub open spec fn keywords() -> Seq<Seq<char>> {
    seq!["int"@, "float"@, "if"@, "else"@, "while"@, "return"@, "for"@, "switch"@, "elif"@]
}

/// The operators.
pub open spec fn operators() -> Seq<Seq<char>> {
    seq!["+"@, "-"@, "*"@, "/"@, "="@, ">"@, "<"@]
}

/// The delimiters.
pub open spec fn delimiters() -> Seq<Seq<char>> {
    seq![";"@, ","@, "("@, ")"@, "{"@, "}"@]
}

/// The class of word `w`: a keyword, an operator or a delimiter when it is
/// one; a number when every character is numeric; an identifier otherwise.
pub open spec fn class_of(w: Seq<char>) -> TokenClass {
    if keywords().contains(w) {
        TokenClass::Keyword
    } else if operators().contains(w) {
        TokenClass::Operator
    } else if delimiters().contains(w) {
        TokenClass::Delimiter
    } else if forall|i: int| 0 <= i < w.len() ==> numeric(#[trigger] w[i]) {
        TokenClass::Number
    } else {
        TokenClass::Identifier
    }
}

/// The pattern that cuts the source into words.
pub open spec fn word_pattern() -> Seq<char> {
    r"[A-Za-z_]\w*|\d+|\S"@
}

/// Whether `w` is one of `table`.
fn in_table(w: &str, table: &Vec<&str>) -> (r: bool)
    ensures
        r == table@.map_values(|s: &str| s@).contains(w@),
{
    let ghost tv = table@.map_values(|s: &str| s@);
    let mut i: usize = 0;
    while i < table.len()
        invariant
            tv == table@.map_values(|s: &str| s@),
            i <= tv.len(),
            forall|j: int| 0 <= j < i ==> tv[j] != w@,
        decreases tv.len() - i,
    {
        if str_equal(w, table[i]) {
            assert(tv[i as int] == w@);
            return true;
        }
        i = i + 1;
    }
    false
}

/// The class of the word `token`.
pub fn classify(token: &str) -> (r: TokenClass)
    ensures
        r == class_of(token@),
{
    let kws: Vec<&str> = vec!["int", "float", "if", "else", "while", "return", "for", "switch", "elif"];
    assert(kws@.map_values(|s: &str| s@) =~= keywords());
    let ops: Vec<&str> = vec!["+", "-", "*", "/", "=", ">", "<"];
    assert(ops@.map_values(|s: &str| s@) =~= operators());
    let dels: Vec<&str> = vec![";", ",", "(", ")", "{", "}"];
    assert(dels@.map_values(|s: &str| s@) =~= delimiters());
    if in_table(token, &kws) {
        return TokenClass::Keyword;
    }
    if in_table(token, &ops) {
        return TokenClass::Operator;
    }
    if in_table(token, &dels) {
        return TokenClass::Delimiter;
    }
    let cs = chars_of(token);
    let mut i: usize = 0;
    while i < cs.len()
        invariant
            cs@ == token@,
            !keywords().contains(token@),
            !operators().contains(token@),
            !delimiters().contains(token@),
            i <= cs@.len(),
            forall|j: int| 0 <= j < i ==> numeric(#[trigger] cs@[j]),
        decreases cs@.len() - i,
    {
        if !is_numeric(cs[i]) {
            assert(!numeric(token@[i as int]));
            return TokenClass::Identifier;
        }
        i = i + 1;
    }
    TokenClass::Number
}

/// The words of `code` with their classes.
pub fn analyze_words(code: &str) -> (r: Vec<(String, TokenClass)>)
    ensures
        r@.len() == regex_all_matches(word_pattern(), code@).len(),
        forall|i: int| 0 <= i < r@.len() ==> {
            let w = regex_all_matches(word_pattern(), code@)[i];
            &&& (#[trigger] r@[i]).0@ == w
            &&& r@[i].1 == class_of(w)
        },
{
    let words = all_matches(r"[A-Za-z_]\w*|\d+|\S", code);
    let ghost wv = words@.map_values(|s: String| s@);
    let mut out: Vec<(String, TokenClass)> = Vec::new();
    let mut i: usize = 0;
    while i < words.len()
        invariant
            wv == words@.map_values(|s: String| s@),
            i <= wv.len(),
            out@.len() == i,
            forall|j: int| 0 <= j < i ==> (#[trigger] out@[j]).0@ == wv[j] && out@[j].1 == class_of(wv[j]),
        decreases wv.len() - i,
    {
        let c = classify(words[i].as_str());
        out.push((words[i].clone(), c));
        i = i + 1;
    }
    out
}

} // verus!

verus! {

/// The classes of words: exactly the nine words `int`, `float`, `if`,
/// `else`, `while`, `return`, `for`, `switch`, `elif` are keywords; exactly
/// the one-character words `+ - * / = > <` are operators and `; , ( ) { }`
/// delimiters; a non-empty word of ASCII digits is a number.
pub proof fn law_word_classes(w: Seq<char>)
    ensures
        class_of(w) == TokenClass::Keyword <==> (w == "int"@ || w == "float"@ || w == "if"@ || w == "else"@
            || w == "while"@ || w == "return"@ || w == "for"@ || w == "switch"@ || w == "elif"@),
        class_of(w) == TokenClass::Operator <==> (w.len() == 1 && (w[0] == '+' || w[0] == '-' || w[0] == '*'
            || w[0] == '/' || w[0] == '=' || w[0] == '>' || w[0] == '<')),
        class_of(w) == TokenClass::Delimiter <==> (w.len() == 1 && (w[0] == ';' || w[0] == ',' || w[0] == '('
            || w[0] == ')' || w[0] == '{' || w[0] == '}')),
        w.len() > 0 && (forall|i: int| 0 <= i < w.len() ==> '0' <= #[trigger] w[i] && w[i] <= '9')
            ==> class_of(w) == TokenClass::Number,
{
    reveal_strlit("int");
    reveal_strlit("float");
    reveal_strlit("if");
    reveal_strlit("else");
    reveal_strlit("while");
    reveal_strlit("return");
    reveal_strlit("for");
    reveal_strlit("switch");
    reveal_strlit("elif");
    reveal_strlit("+");
    reveal_strlit("-");
    reveal_strlit("*");
    reveal_strlit("/");
    reveal_strlit("=");
    reveal_strlit(">");
    reveal_strlit("<");
    reveal_strlit(";");
    reveal_strlit(",");
    reveal_strlit("(");
    reveal_strlit(")");
    reveal_strlit("{");
    reveal_strlit("}");
    let ks = keywords();
    let os = operators();
    let ds = delimiters();
    assert(ks.contains(w) <==> (w == "int"@ || w == "float"@ || w == "if"@ || w == "else"@
        || w == "while"@ || w == "return"@ || w == "for"@ || w == "switch"@ || w == "elif"@)) by {
        if ks.contains(w) {
            let j = choose|j: int| 0 <= j < ks.len() && ks[j] == w;
            assert(0 <= j < 9);
        }
        if w == "int"@ { assert(ks[0] == w); }
        if w == "float"@ { assert(ks[1] == w); }
        if w == "if"@ { assert(ks[2] == w); }
        if w == "else"@ { assert(ks[3] == w); }
        if w == "while"@ { assert(ks[4] == w); }
        if w == "return"@ { assert(ks[5] == w); }
        if w == "for"@ { assert(ks[6] == w); }
        if w == "switch"@ { assert(ks[7] == w); }
        if w == "elif"@ { assert(ks[8] == w); }
    }
    let one_op = w.len() == 1 && (w[0] == '+' || w[0] == '-' || w[0] == '*' || w[0] == '/' || w[0] == '='
        || w[0] == '>' || w[0] == '<');
    assert(os.contains(w) <==> one_op) by {
        if os.contains(w) {
            let j = choose|j: int| 0 <= j < os.len() && os[j] == w;
            assert(0 <= j < 7);
        }
        if one_op {
            if w[0] == '+' { assert(w =~= os[0]); }
            if w[0] == '-' { assert(w =~= os[1]); }
            if w[0] == '*' { assert(w =~= os[2]); }
            if w[0] == '/' { assert(w =~= os[3]); }
            if w[0] == '=' { assert(w =~= os[4]); }
            if w[0] == '>' { assert(w =~= os[5]); }
            if w[0] == '<' { assert(w =~= os[6]); }
        }
    }
    let one_del = w.len() == 1 && (w[0] == ';' || w[0] == ',' || w[0] == '(' || w[0] == ')' || w[0] == '{'
        || w[0] == '}');
    assert(ds.contains(w) <==> one_del) by {
        if ds.contains(w) {
            let j = choose|j: int| 0 <= j < ds.len() && ds[j] == w;
            assert(0 <= j < 6);
        }
        if one_del {
            if w[0] == ';' { assert(w =~= ds[0]); }
            if w[0] == ',' { assert(w =~= ds[1]); }
            if w[0] == '(' { assert(w =~= ds[2]); }
            if w[0] == ')' { assert(w =~= ds[3]); }
            if w[0] == '{' { assert(w =~= ds[4]); }
            if w[0] == '}' { assert(w =~= ds[5]); }
        }
    }
    if w.len() > 0 && (forall|i: int| 0 <= i < w.len() ==> '0' <= #[trigger] w[i] && w[i] <= '9') {
        assert('0' <= w[0] && w[0] <= '9');
        if w == "int"@ || w == "if"@ { assert(w[0] == 'i'); }
        if w == "float"@ || w == "for"@ { assert(w[0] == 'f'); }
        if w == "else"@ || w == "elif"@ { assert(w[0] == 'e'); }
        if w == "while"@ { assert(w[0] == 'w'); }
        if w == "return"@ { assert(w[0] == 'r'); }
        if w == "switch"@ { assert(w[0] == 's'); }
        assert(!ks.contains(w));
        assert(!one_op);
        assert(!one_del);
        assert forall|i: int| 0 <= i < w.len() implies numeric(#[trigger] w[i]) by {
            assert('0' <= w[i] && w[i] <= '9');
        }
    }
}

} // verus!
