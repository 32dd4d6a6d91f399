//! The lexical analyser of the MCPP language: tokens, the symbol table and
//! the pattern-driven scanner.
use vstd::prelude::*;
use crate::text::{decimal, push_str, push_char, usize_to_string, is_white_space, is_whitespace, chars_of, str_equal};
use crate::pattern::{regex_first_match, first_match};
use vstd::utf8::{
    encode_utf8, decode_utf8, is_char_boundary, encode_utf8_valid_utf8, valid_utf8_split, decode_utf8_encode_utf8,
    encode_utf8_decode_utf8, is_ascii_chars, is_ascii_chars_encode_utf8, is_char_boundary_iff_not_is_continuation_byte,
};

verus! {

/// Token types for the MCPP language.
#[derive(Debug, Clone, Copy, PartialEq, Eq, Structural)]
pub enum TokenType {
    // Keywords
    Int,
    Float,
    Char,
    Bool,
    String,
    If,
    Else,
    While,
    For,
    Return,
    // Preprocessor
    Include,
    Define,
    // Operators
    Plus,
    Minus,
    Multiply,
    Divide,
    Modulo,
    Assign,
    Equal,
    NotEqual,
    LessThan,
    GreaterThan,
    LessEqual,
    GreaterEqual,
    LogicalAnd,
    LogicalOr,
    Increment,
    Decrement,
    // Delimiters
    Semicolon,
    Comma,
    LeftParen,
    RightParen,
    LeftBrace,
    RightBrace,
    LeftBracket,
    RightBracket,
    // Literals
    IntegerLiteral,
    FloatLiteral,
    CharLiteral,
    StringLiteral,
    BoolLiteral,
    // Identifiers
    Identifier,
    // Special
    Comment,
    EOF,
}

/// The name of a token type, as `{:?}` prints it.
pub open spec fn token_type_name(t: TokenType) -> Seq<char> {
    match t {
        TokenType::Int => "Int"@,
        TokenType::Float => "Float"@,
        TokenType::Char => "Char"@,
        TokenType::Bool => "Bool"@,
        TokenType::String => "String"@,
        TokenType::If => "If"@,
        TokenType::Else => "Else"@,
        TokenType::While => "While"@,
        TokenType::For => "For"@,
        TokenType::Return => "Return"@,
        TokenType::Include => "Include"@,
        TokenType::Define => "Define"@,
        TokenType::Plus => "Plus"@,
        TokenType::Minus => "Minus"@,
        TokenType::Multiply => "Multiply"@,
        TokenType::Divide => "Divide"@,
        TokenType::Modulo => "Modulo"@,
        TokenType::Assign => "Assign"@,
        TokenType::Equal => "Equal"@,
        TokenType::NotEqual => "NotEqual"@,
        TokenType::LessThan => "LessThan"@,
        TokenType::GreaterThan => "GreaterThan"@,
        TokenType::LessEqual => "LessEqual"@,
        TokenType::GreaterEqual => "GreaterEqual"@,
        TokenType::LogicalAnd => "LogicalAnd"@,
        TokenType::LogicalOr => "LogicalOr"@,
        TokenType::Increment => "Increment"@,
        TokenType::Decrement => "Decrement"@,
        TokenType::Semicolon => "Semicolon"@,
        TokenType::Comma => "Comma"@,
        TokenType::LeftParen => "LeftParen"@,
        TokenType::RightParen => "RightParen"@,
        TokenType::LeftBrace => "LeftBrace"@,
        TokenType::RightBrace => "RightBrace"@,
        TokenType::LeftBracket => "LeftBracket"@,
        TokenType::RightBracket => "RightBracket"@,
        TokenType::IntegerLiteral => "IntegerLiteral"@,
        TokenType::FloatLiteral => "FloatLiteral"@,
        TokenType::CharLiteral => "CharLiteral"@,
        TokenType::StringLiteral => "StringLiteral"@,
        TokenType::BoolLiteral => "BoolLiteral"@,
        TokenType::Identifier => "Identifier"@,
        TokenType::Comment => "Comment"@,
        TokenType::EOF => "EOF"@,
    }
}

impl TokenType {
    /// The name of the token type, as `{:?}` prints it.
    pub fn name(&self) -> (r: &'static str)
        ensures
            r@ == token_type_name(*self),
    {
        match self {
            TokenType::Int => "Int",
            TokenType::Float => "Float",
            TokenType::Char => "Char",
            TokenType::Bool => "Bool",
            TokenType::String => "String",
            TokenType::If => "If",
            TokenType::Else => "Else",
            TokenType::While => "While",
            TokenType::For => "For",
            TokenType::Return => "Return",
            TokenType::Include => "Include",
            TokenType::Define => "Define",
            TokenType::Plus => "Plus",
            TokenType::Minus => "Minus",
            TokenType::Multiply => "Multiply",
            TokenType::Divide => "Divide",
            TokenType::Modulo => "Modulo",
            TokenType::Assign => "Assign",
            TokenType::Equal => "Equal",
            TokenType::NotEqual => "NotEqual",
            TokenType::LessThan => "LessThan",
            TokenType::GreaterThan => "GreaterThan",
            TokenType::LessEqual => "LessEqual",
            TokenType::GreaterEqual => "GreaterEqual",
            TokenType::LogicalAnd => "LogicalAnd",
            TokenType::LogicalOr => "LogicalOr",
            TokenType::Increment => "Increment",
            TokenType::Decrement => "Decrement",
            TokenType::Semicolon => "Semicolon",
            TokenType::Comma => "Comma",
            TokenType::LeftParen => "LeftParen",
            TokenType::RightParen => "RightParen",
            TokenType::LeftBrace => "LeftBrace",
            TokenType::RightBrace => "RightBrace",
            TokenType::LeftBracket => "LeftBracket",
            TokenType::RightBracket => "RightBracket",
            TokenType::IntegerLiteral => "IntegerLiteral",
            TokenType::FloatLiteral => "FloatLiteral",
            TokenType::CharLiteral => "CharLiteral",
            TokenType::StringLiteral => "StringLiteral",
            TokenType::BoolLiteral => "BoolLiteral",
            TokenType::Identifier => "Identifier",
            TokenType::Comment => "Comment",
            TokenType::EOF => "EOF",
        }
    }
}

/// A token as a value: its type, lexeme, line and column.
pub type TokenView = (TokenType, Seq<char>, nat, nat);

/// Token representation with position information.
#[derive(Debug, Clone)]
pub struct Token {
    pub token_type: TokenType,
    pub lexeme: String,
    pub line: usize,
    pub column: usize,
}

impl View for Token {
    type V = TokenView;

    open spec fn view(&self) -> TokenView {
        (self.token_type, self.lexeme@, self.line as nat, self.column as nat)
    }
}

/// `<TOKEN_TYPE, LEXEME, LINE, COLUMN>`, the compiler-style rendering of a token.
pub open spec fn compiler_format(t: TokenView) -> Seq<char> {
    "<"@ + token_type_name(t.0) + ", "@ + t.1 + ", "@ + decimal(t.2) + ", "@ + decimal(t.3) + ">"@
}

impl Token {
    pub fn new(token_type: TokenType, lexeme: String, line: usize, column: usize) -> (r: Token)
        ensures
            r.token_type == token_type,
            r.lexeme == lexeme,
            r.line == line,
            r.column == column,
    {
        Token { token_type, lexeme, line, column }
    }

    /// Format token as compiler-style output: <TOKEN_TYPE, LEXEME, LINE, COLUMN>
    pub fn to_compiler_format(&self) -> (r: String)
        ensures
            r@ == compiler_format(self@),
    {
        let mut r = String::from_str("<");
        push_str(&mut r, self.token_type.name());
        push_str(&mut r, ", ");
        push_str(&mut r, self.lexeme.as_str());
        push_str(&mut r, ", ");
        let line = usize_to_string(self.line);
        push_str(&mut r, line.as_str());
        push_str(&mut r, ", ");
        let column = usize_to_string(self.column);
        push_str(&mut r, column.as_str());
        push_str(&mut r, ">");
        r
    }
}

/// A symbol as a value: name, symbol type, data type, scope and line.
pub type SymbolView = (Seq<char>, Seq<char>, Seq<char>, Seq<char>, nat);

/// Symbol entry in the symbol table.
#[derive(Debug, Clone)]
pub struct Symbol {
    pub name: String,
    pub symbol_type: String,
    pub data_type: String,
    pub scope: String,
    pub line: usize,
}

impl View for Symbol {
    type V = SymbolView;

    open spec fn view(&self) -> SymbolView {
        (self.name@, self.symbol_type@, self.data_type@, self.scope@, self.line as nat)
    }
}

/// Symbol table for tracking identifiers.
#[derive(Debug, Clone)]
pub struct SymbolTable {
    symbols: Vec<Symbol>,
    current_scope: String,
}

impl View for SymbolTable {
    /// The symbols in the order they were added, and the current scope.
    type V = (Seq<SymbolView>, Seq<char>);

    closed spec fn view(&self) -> (Seq<SymbolView>, Seq<char>) {
        (self.symbols@.map_values(|s: Symbol| s@), self.current_scope@)
    }
}

impl SymbolTable {
    pub fn new() -> (r: SymbolTable)
        ensures
            r@.0 == Seq::<SymbolView>::empty(),
            r@.1 == "global"@,
    {
        let r = SymbolTable { symbols: Vec::new(), current_scope: String::from_str("global") };
        assert(r@.0 =~= Seq::<SymbolView>::empty());
        r
    }

    /// Add a symbol to the table, in the current scope.
    pub fn add_symbol(&mut self, name: String, symbol_type: String, data_type: String, line: usize)
        ensures
            final(self)@.0 == old(self)@.0.push((name@, symbol_type@, data_type@, old(self)@.1, line as nat)),
            final(self)@.1 == old(self)@.1,
    {
        let scope = self.current_scope.clone();
        let symbol = Symbol { name, symbol_type, data_type, scope, line };
        self.symbols.push(symbol);
        assert(self@.0 =~= old(self)@.0.push((name@, symbol_type@, data_type@, old(self)@.1, line as nat)));
    }

    /// Set the current scope (for future symbols).
    pub fn set_scope(&mut self, scope: String)
        ensures
            final(self)@.0 == old(self)@.0,
            final(self)@.1 == scope@,
    {
        self.current_scope = scope;
    }

    /// Get all symbols.
    pub fn get_symbols(&self) -> (r: &Vec<Symbol>)
        ensures
            r@.map_values(|s: Symbol| s@) == self@.0,
    {
        &self.symbols
    }
}

} // verus!

verus! {

/// The scanning patterns, in the order they are tried: comments first, then
/// literals, multi-character operators before single-character ones,
/// delimiters, keywords, and identifiers last.
pub open spec fn token_patterns() -> Seq<(TokenType, Seq<char>)> {
    seq![
        (TokenType::Comment, r"(?s)/\*.*?\*/"@),
        (TokenType::Comment, r"//.*"@),
        (TokenType::StringLiteral, r#""([^"\\]|\\.)*""#@),
        (TokenType::CharLiteral, r"'([^'\\]|\\.)'"@),
        (TokenType::FloatLiteral, r"\d+\.\d+([eE][+-]?\d+)?"@),
        (TokenType::IntegerLiteral, r"\d+"@),
        (TokenType::BoolLiteral, r"\b(true|false)\b"@),
        (TokenType::LogicalAnd, r"&&"@),
        (TokenType::LogicalOr, r"\|\|"@),
        (TokenType::Equal, r"=="@),
        (TokenType::NotEqual, r"!="@),
        (TokenType::LessEqual, r"<="@),
        (TokenType::GreaterEqual, r">="@),
        (TokenType::Increment, r"\+\+"@),
        (TokenType::Decrement, r"--"@),
        (TokenType::Plus, r"\+"@),
        (TokenType::Minus, r"-"@),
        (TokenType::Multiply, r"\*"@),
        (TokenType::Divide, r"/"@),
        (TokenType::Modulo, r"%"@),
        (TokenType::Assign, r"="@),
        (TokenType::LessThan, r"<"@),
        (TokenType::GreaterThan, r">"@),
        (TokenType::Semicolon, r";"@),
        (TokenType::Comma, r","@),
        (TokenType::LeftParen, r"\("@),
        (TokenType::RightParen, r"\)"@),
        (TokenType::LeftBrace, r"\{"@),
        (TokenType::RightBrace, r"\}"@),
        (TokenType::LeftBracket, r"\["@),
        (TokenType::RightBracket, r"\]"@),
        (TokenType::Include, r"#include\b"@),
        (TokenType::Define, r"#define\b"@),
        (TokenType::Int, r"\bint\b"@),
        (TokenType::Float, r"\bfloat\b"@),
        (TokenType::Char, r"\bchar\b"@),
        (TokenType::Bool, r"\bbool\b"@),
        (TokenType::String, r"\bstring\b"@),
        (TokenType::If, r"\bif\b"@),
        (TokenType::Else, r"\belse\b"@),
        (TokenType::While, r"\bwhile\b"@),
        (TokenType::For, r"\bfor\b"@),
        (TokenType::Return, r"\breturn\b"@),
        (TokenType::Identifier, r"[a-zA-Z_][a-zA-Z0-9_]*"@),
    ]
}

/// The keyword a lexeme spells, if any.
pub open spec fn keyword_of(lexeme: Seq<char>) -> Option<TokenType> {
    if lexeme == "int"@ { Some(TokenType::Int) }
    else if lexeme == "float"@ { Some(TokenType::Float) }
    else if lexeme == "char"@ { Some(TokenType::Char) }
    else if lexeme == "bool"@ { Some(TokenType::Bool) }
    else if lexeme == "string"@ { Some(TokenType::String) }
    else if lexeme == "if"@ { Some(TokenType::If) }
    else if lexeme == "else"@ { Some(TokenType::Else) }
    else if lexeme == "while"@ { Some(TokenType::While) }
    else if lexeme == "for"@ { Some(TokenType::For) }
    else if lexeme == "return"@ { Some(TokenType::Return) }
    else if lexeme == "#include"@ { Some(TokenType::Include) }
    else if lexeme == "#define"@ { Some(TokenType::Define) }
    else { None }
}

/// The data type that a type keyword declares.
pub open spec fn data_type_of(t: TokenType) -> Option<Seq<char>> {
    match t {
        TokenType::Int => Some("int"@),
        TokenType::Float => Some("float"@),
        TokenType::Char => Some("char"@),
        TokenType::Bool => Some("bool"@),
        TokenType::String => Some("string"@),
        _ => None,
    }
}

/// The control keywords, after which no declared type is pending.
pub open spec fn is_control_keyword(t: TokenType) -> bool {
    t == TokenType::If || t == TokenType::Else || t == TokenType::While || t == TokenType::For
        || t == TokenType::Return
}

/// The state of a lexer as a value.
pub struct LexerView {
    pub chars: Seq<char>,
    pub pos: nat,
    pub line: nat,
    pub column: nat,
    pub tokens: Seq<TokenView>,
    pub symbols: Seq<SymbolView>,
    pub scope: Seq<char>,
    pub last_type: Option<Seq<char>>,
}

/// Skipping white space from the current position: a newline starts a new
/// line at column 1, other white space moves one column on.
pub open spec fn skip_ws(v: LexerView) -> LexerView
    decreases v.chars.len() - v.pos,
{
    if v.pos < v.chars.len() {
        let c = v.chars[v.pos as int];
        if c == '\n' {
            skip_ws(LexerView { pos: v.pos + 1, line: v.line + 1, column: 1, ..v })
        } else if is_white_space(c) {
            skip_ws(LexerView { pos: v.pos + 1, column: v.column + 1, ..v })
        } else {
            v
        }
    } else {
        v
    }
}

/// Line and column after reading `text` from `line`, `column`.
pub open spec fn advance_over(line: nat, column: nat, text: Seq<char>) -> (nat, nat)
    decreases text.len(),
{
    if text.len() == 0 {
        (line, column)
    } else {
        let (l, c) = advance_over(line, column, text.drop_last());
        if text.last() == '\n' { (l + 1, 1) } else { (l, c + 1) }
    }
}

/// The text that `pattern` matches at the very start of `rest`, when its
/// first match starts there and is not empty.
pub open spec fn match_at_start(pattern: Seq<char>, rest: Seq<char>) -> Option<Seq<char>> {
    match regex_first_match(pattern, rest) {
        Some((start, text)) => if start == 0 && 0 < text.len() <= rest.len() && rest.take(text.len() as int) == text {
            Some(text)
        } else {
            None
        },
        None => None,
    }
}

/// The first pattern, from index `i` on, that matches at the start of `rest`,
/// with the text it matches.
pub open spec fn first_pattern(pats: Seq<(TokenType, Seq<char>)>, rest: Seq<char>, i: int) -> Option<(TokenType, Seq<char>)>
    decreases pats.len() - i,
{
    if i >= pats.len() || i < 0 {
        None
    } else {
        match match_at_start(pats[i].1, rest) {
            Some(text) => Some((pats[i].0, text)),
            None => first_pattern(pats, rest, i + 1),
        }
    }
}

/// What reading one matched lexeme does: comments are dropped; a type
/// keyword becomes the pending data type; an identifier that spells a keyword
/// takes the keyword's type (a control keyword clears the pending type); any
/// other identifier is entered in the symbol table with the pending type
/// (or "unknown"), which is then cleared; every non-comment lexeme becomes a
/// token at the position where it starts.
pub open spec fn apply_match(v: LexerView, ty: TokenType, text: Seq<char>) -> LexerView {
    let (line, column) = advance_over(v.line, v.column, text);
    let pos = v.pos + text.len();
    if ty == TokenType::Comment {
        LexerView { pos, line, column, ..v }
    } else {
        let last1 = if data_type_of(ty) is Some { data_type_of(ty) } else { v.last_type };
        let (final_ty, last2, symbols) = if ty == TokenType::Identifier {
            match keyword_of(text) {
                Some(k) => (k, if is_control_keyword(k) { None } else { last1 }, v.symbols),
                None => (
                    ty,
                    None,
                    v.symbols.push((text, "variable"@, match last1 { Some(d) => d, None => "unknown"@ }, v.scope, v.line)),
                ),
            }
        } else {
            (ty, last1, v.symbols)
        };
        LexerView {
            pos,
            line,
            column,
            tokens: v.tokens.push((final_ty, text, v.line, v.column)),
            symbols,
            last_type: last2,
            ..v
        }
    }
}

/// The state after the end-of-input token is added.
pub open spec fn finish(v: LexerView) -> LexerView {
    LexerView { tokens: v.tokens.push((TokenType::EOF, "EOF"@, v.line, v.column)), ..v }
}

/// The message for a character that no pattern matches.
pub open spec fn invalid_char_message(c: char, line: nat, column: nat) -> Seq<char> {
    "Lexical Error: Invalid character '"@ + seq![c] + "' at line "@ + decimal(line) + ", column "@
        + decimal(column)
}

/// Skipping white space only moves the position, line and column forward,
/// within the input, and skipping again changes nothing.
pub proof fn lemma_skip_ws(v: LexerView)
    ensures
        skip_ws(v).chars == v.chars,
        skip_ws(v).pos >= v.pos,
        v.pos <= v.chars.len() ==> skip_ws(v).pos <= v.chars.len(),
        v.pos >= v.chars.len() ==> skip_ws(v) == v,
        skip_ws(v).tokens == v.tokens,
        skip_ws(v).symbols == v.symbols,
        skip_ws(v).scope == v.scope,
        skip_ws(v).last_type == v.last_type,
        skip_ws(skip_ws(v)) == skip_ws(v),
        skip_ws(v).pos <= v.pos + (skip_ws(v).pos - v.pos),
        skip_ws(v).line <= v.line + (skip_ws(v).pos - v.pos),
        skip_ws(v).column <= v.column + (skip_ws(v).pos - v.pos),
    decreases v.chars.len() - v.pos,
{
    if v.pos < v.chars.len() {
        let c = v.chars[v.pos as int];
        if c == '\n' {
            lemma_skip_ws(LexerView { pos: v.pos + 1, line: v.line + 1, column: 1, ..v });
        } else if is_white_space(c) {
            lemma_skip_ws(LexerView { pos: v.pos + 1, column: v.column + 1, ..v });
        }
    }
}

/// A lexeme that a pattern matches is a non-empty prefix of the text.
pub proof fn lemma_first_pattern(pats: Seq<(TokenType, Seq<char>)>, rest: Seq<char>, i: int)
    ensures
        first_pattern(pats, rest, i) matches Some((ty, text)) ==> 0 < text.len() <= rest.len()
            && rest.take(text.len() as int) == text,
    decreases pats.len() - i,
{
    if 0 <= i < pats.len() {
        lemma_first_pattern(pats, rest, i + 1);
    }
}

/// The number of bytes of the input in UTF-8. The scan runs while its
/// position, which counts characters, is below this number.
pub open spec fn byte_len(v: LexerView) -> nat {
    encode_utf8(v.chars).len()
}

/// The text that the patterns are tried on at position `pos`: the input
/// from byte `pos` on. The position counts characters but is used as a byte
/// offset here, so the two agree only while everything read so far is
/// ASCII.
pub open spec fn scan_rest(v: LexerView) -> Seq<char> {
    decode_utf8(encode_utf8(v.chars).subrange(v.pos as int, byte_len(v) as int))
}

/// The scan can go on at position `w.pos`: the position names a character,
/// and it falls on a character boundary of the input's bytes.
pub open spec fn can_slice(w: LexerView) -> bool {
    w.pos < w.chars.len() && is_char_boundary(encode_utf8(w.chars), w.pos as int)
}

/// Every character takes at least one byte.
pub proof fn lemma_encode_len(cs: Seq<char>)
    ensures
        cs.len() <= encode_utf8(cs).len(),
    decreases cs.len(),
{
    if cs.len() > 0 {
        lemma_encode_len(cs.drop_first());
    }
}

/// The text after a character boundary has no more characters than bytes.
pub proof fn lemma_scan_rest_len(w: LexerView)
    requires
        can_slice(w),
    ensures
        w.pos + scan_rest(w).len() <= byte_len(w),
{
    let b = encode_utf8(w.chars);
    encode_utf8_valid_utf8(w.chars);
    valid_utf8_split(b, w.pos as int);
    let tail = b.subrange(w.pos as int, b.len() as int);
    decode_utf8_encode_utf8(tail);
    lemma_encode_len(decode_utf8(tail));
}

/// Scanning from the state `v` to the end of the input or to the first
/// character that no pattern matches: the final state and the outcome.
/// Where the scan cannot go on (`can_slice` fails, see `lex_safe`), the
/// value is the state reached.
pub open spec fn lex_run(v: LexerView) -> (LexerView, Result<(), Seq<char>>)
    decreases byte_len(v) - v.pos,
{
    if v.pos >= byte_len(v) {
        (finish(v), Ok(()))
    } else {
        let w = skip_ws(v);
        proof { lemma_skip_ws(v); lemma_encode_len(v.chars); }
        if w.pos >= byte_len(w) {
            (finish(w), Ok(()))
        } else if !can_slice(w) {
            (w, Ok(()))
        } else {
            let rest = scan_rest(w);
            match first_pattern(token_patterns(), rest, 0) {
                None => (w, Err(invalid_char_message(w.chars[w.pos as int], w.line, w.column))),
                Some((ty, text)) => {
                    proof {
                        lemma_first_pattern(token_patterns(), rest, 0);
                        lemma_scan_rest_len(w);
                    }
                    lex_run(apply_match(w, ty, text))
                },
            }
        }
    }
}

/// The scan from `v` never stops where it cannot go on: whenever it looks
/// for a lexeme, its position names a character and falls on a character
/// boundary. Each position reached where this fails would end the scan with
/// a panic in a direct reading of the input by bytes; it can only happen
/// after a non-ASCII character has been read.
pub open spec fn lex_safe(v: LexerView) -> bool
    decreases byte_len(v) - v.pos,
{
    if v.pos >= byte_len(v) {
        true
    } else {
        let w = skip_ws(v);
        proof { lemma_skip_ws(v); lemma_encode_len(v.chars); }
        if w.pos >= byte_len(w) {
            true
        } else if !can_slice(w) {
            false
        } else {
            let rest = scan_rest(w);
            match first_pattern(token_patterns(), rest, 0) {
                None => true,
                Some((ty, text)) => {
                    proof {
                        lemma_first_pattern(token_patterns(), rest, 0);
                        lemma_scan_rest_len(w);
                    }
                    lex_safe(apply_match(w, ty, text))
                },
            }
        }
    }
}

/// A scan of ASCII input can always go on: for input made of ASCII
/// characters, `lex_safe` holds from every state.
pub proof fn law_ascii_scan_is_safe(v: LexerView)
    requires
        is_ascii_chars(v.chars),
    ensures
        lex_safe(v),
    decreases byte_len(v) - v.pos,
{
    is_ascii_chars_encode_utf8(v.chars);
    lemma_skip_ws(v);
    lemma_encode_len(v.chars);
    if v.pos < byte_len(v) {
        let w = skip_ws(v);
        if w.pos < byte_len(w) {
            let b = encode_utf8(w.chars);
            encode_utf8_valid_utf8(w.chars);
            is_char_boundary_iff_not_is_continuation_byte(b, w.pos as int);
            assert(b[w.pos as int] == w.chars[w.pos as int] as u8);
            assert(can_slice(w));
            let rest = scan_rest(w);
            match first_pattern(token_patterns(), rest, 0) {
                None => {},
                Some((ty, text)) => {
                    lemma_first_pattern(token_patterns(), rest, 0);
                    lemma_scan_rest_len(w);
                    law_ascii_scan_is_safe(apply_match(w, ty, text));
                },
            }
        }
    }
}

/// When pattern `k` matches at the start of `rest`, the patterns tried from
/// `i` on stop at a pattern no later than `k`.
pub proof fn lemma_first_pattern_upto(pats: Seq<(TokenType, Seq<char>)>, rest: Seq<char>, i: int, k: int)
    requires
        0 <= i <= k < pats.len(),
        match_at_start(pats[k].1, rest) is Some,
    ensures
        exists|m: int| i <= m <= k && #[trigger] pats[m] == pats[m]
            && first_pattern(pats, rest, i) == Some((pats[m].0, match_at_start(pats[m].1, rest).unwrap())),
    decreases k - i,
{
    if match_at_start(pats[i].1, rest) is None {
        lemma_first_pattern_upto(pats, rest, i + 1, k);
    } else {
        assert(pats[i] == pats[i]);
    }
}

/// Longer operators are read whole: where `++`, `--`, `==`, `<=` or `>=`
/// matches at the start of the text, the lexeme read there is not the
/// single `+`, `-`, `=`, `<` or `>` that begins it.
pub proof fn law_longest_operator_first(rest: Seq<char>)
    ensures
        first_pattern(token_patterns(), rest, 0) matches Some((t, x)) ==> {
            &&& t == TokenType::Plus ==> match_at_start(r"\+\+"@, rest) is None
            &&& t == TokenType::Minus ==> match_at_start(r"--"@, rest) is None
            &&& t == TokenType::Assign ==> match_at_start(r"=="@, rest) is None
            &&& t == TokenType::LessThan ==> match_at_start(r"<="@, rest) is None
            &&& t == TokenType::GreaterThan ==> match_at_start(r">="@, rest) is None
        },
{
    let pats = token_patterns();
    assert(pats.len() == 44);
    assert forall|m: int| 0 <= m <= 14 implies {
        &&& pats[m].0 != TokenType::Plus
        &&& pats[m].0 != TokenType::Minus
        &&& pats[m].0 != TokenType::Assign
        &&& pats[m].0 != TokenType::LessThan
        &&& pats[m].0 != TokenType::GreaterThan
    } by {}
    assert(pats[9] == (TokenType::Equal, r"=="@));
    assert(pats[11] == (TokenType::LessEqual, r"<="@));
    assert(pats[12] == (TokenType::GreaterEqual, r">="@));
    assert(pats[13] == (TokenType::Increment, r"\+\+"@));
    assert(pats[14] == (TokenType::Decrement, r"--"@));
    if match_at_start(r"\+\+"@, rest) is Some {
        lemma_first_pattern_upto(pats, rest, 0, 13);
    }
    if match_at_start(r"--"@, rest) is Some {
        lemma_first_pattern_upto(pats, rest, 0, 14);
    }
    if match_at_start(r"=="@, rest) is Some {
        lemma_first_pattern_upto(pats, rest, 0, 9);
    }
    if match_at_start(r"<="@, rest) is Some {
        lemma_first_pattern_upto(pats, rest, 0, 11);
    }
    if match_at_start(r">="@, rest) is Some {
        lemma_first_pattern_upto(pats, rest, 0, 12);
    }
}

} // verus!

verus! {

/// Lexical analyzer for the MCPP language.
pub struct Lexer {
    source: String,
    chars: Vec<char>,
    position: usize,
    line: usize,
    column: usize,
    tokens: Vec<Token>,
    symbol_table: SymbolTable,
    patterns: Vec<(TokenType, &'static str)>,
    last_type_keyword: Option<String>,
}

impl View for Lexer {
    type V = LexerView;

    closed spec fn view(&self) -> LexerView {
        LexerView {
            chars: self.chars@,
            pos: self.position as nat,
            line: self.line as nat,
            column: self.column as nat,
            tokens: self.tokens@.map_values(|t: Token| t@),
            symbols: self.symbol_table@.0,
            scope: self.symbol_table@.1,
            last_type: match self.last_type_keyword {
                Some(s) => Some(s@),
                None => None,
            },
        }
    }
}

/// The pattern table as values.
pub open spec fn patterns_view(p: Seq<(TokenType, &'static str)>) -> Seq<(TokenType, Seq<char>)> {
    p.map_values(|e: (TokenType, &'static str)| (e.0, e.1@))
}

impl Lexer {
    /// The lexer's invariant: the characters are those of the source, the
    /// pattern table is `token_patterns()`, and the position lies in the input.
    pub closed spec fn wf(&self) -> bool {
        &&& self.chars@ == self.source@
        &&& patterns_view(self.patterns@) == token_patterns()
        &&& self.position <= encode_utf8(self.chars@).len()
        &&& encode_utf8(self.chars@).len() < usize::MAX
        &&& self.line <= self.position + 1
        &&& self.column <= self.position + 1
    }

    /// Create a new lexer instance, at line 1, column 1 of `source`.
    pub fn new(source: String) -> (r: Lexer)
        requires
            encode_utf8(source@).len() < usize::MAX,
        ensures
            r.wf(),
            r@ == (LexerView {
                chars: source@,
                pos: 0,
                line: 1,
                column: 1,
                tokens: Seq::empty(),
                symbols: Seq::empty(),
                scope: "global"@,
                last_type: None,
            }),
    {
        let chars = chars_of(source.as_str());
        let mut lexer = Lexer {
            source,
            chars,
            position: 0,
            line: 1,
            column: 1,
            tokens: Vec::new(),
            symbol_table: SymbolTable::new(),
            patterns: Vec::new(),
            last_type_keyword: None,
        };
        lexer.initialize_patterns();
        assert(lexer.tokens@.map_values(|t: Token| t@) =~= Seq::<TokenView>::empty());
        lexer
    }

    /// Install the scanning patterns; the order matters, more specific
    /// patterns come first.
    fn initialize_patterns(&mut self)
        requires
            old(self).patterns@.len() == 0,
        ensures
            patterns_view(final(self).patterns@) == token_patterns(),
            final(self).source == old(self).source,
            final(self).chars == old(self).chars,
            final(self).position == old(self).position,
            final(self).line == old(self).line,
            final(self).column == old(self).column,
            final(self).tokens == old(self).tokens,
            final(self).symbol_table == old(self).symbol_table,
            final(self).last_type_keyword == old(self).last_type_keyword,
    {
        self.patterns.push((TokenType::Comment, r"(?s)/\*.*?\*/"));
        self.patterns.push((TokenType::Comment, r"//.*"));
        self.patterns.push((TokenType::StringLiteral, r#""([^"\\]|\\.)*""#));
        self.patterns.push((TokenType::CharLiteral, r"'([^'\\]|\\.)'"));
        self.patterns.push((TokenType::FloatLiteral, r"\d+\.\d+([eE][+-]?\d+)?"));
        self.patterns.push((TokenType::IntegerLiteral, r"\d+"));
        self.patterns.push((TokenType::BoolLiteral, r"\b(true|false)\b"));
        self.patterns.push((TokenType::LogicalAnd, r"&&"));
        self.patterns.push((TokenType::LogicalOr, r"\|\|"));
        self.patterns.push((TokenType::Equal, r"=="));
        self.patterns.push((TokenType::NotEqual, r"!="));
        self.patterns.push((TokenType::LessEqual, r"<="));
        self.patterns.push((TokenType::GreaterEqual, r">="));
        self.patterns.push((TokenType::Increment, r"\+\+"));
        self.patterns.push((TokenType::Decrement, r"--"));
        self.patterns.push((TokenType::Plus, r"\+"));
        self.patterns.push((TokenType::Minus, r"-"));
        self.patterns.push((TokenType::Multiply, r"\*"));
        self.patterns.push((TokenType::Divide, r"/"));
        self.patterns.push((TokenType::Modulo, r"%"));
        self.patterns.push((TokenType::Assign, r"="));
        self.patterns.push((TokenType::LessThan, r"<"));
        self.patterns.push((TokenType::GreaterThan, r">"));
        self.patterns.push((TokenType::Semicolon, r";"));
        self.patterns.push((TokenType::Comma, r","));
        self.patterns.push((TokenType::LeftParen, r"\("));
        self.patterns.push((TokenType::RightParen, r"\)"));
        self.patterns.push((TokenType::LeftBrace, r"\{"));
        self.patterns.push((TokenType::RightBrace, r"\}"));
        self.patterns.push((TokenType::LeftBracket, r"\["));
        self.patterns.push((TokenType::RightBracket, r"\]"));
        self.patterns.push((TokenType::Include, r"#include\b"));
        self.patterns.push((TokenType::Define, r"#define\b"));
        self.patterns.push((TokenType::Int, r"\bint\b"));
        self.patterns.push((TokenType::Float, r"\bfloat\b"));
        self.patterns.push((TokenType::Char, r"\bchar\b"));
        self.patterns.push((TokenType::Bool, r"\bbool\b"));
        self.patterns.push((TokenType::String, r"\bstring\b"));
        self.patterns.push((TokenType::If, r"\bif\b"));
        self.patterns.push((TokenType::Else, r"\belse\b"));
        self.patterns.push((TokenType::While, r"\bwhile\b"));
        self.patterns.push((TokenType::For, r"\bfor\b"));
        self.patterns.push((TokenType::Return, r"\breturn\b"));
        self.patterns.push((TokenType::Identifier, r"[a-zA-Z_][a-zA-Z0-9_]*"));
        assert(patterns_view(self.patterns@) =~= token_patterns());
    }

    /// Skip white space, keeping line and column up to date.
    fn skip_whitespace(&mut self)
        requires
            old(self).wf(),
        ensures
            final(self).wf(),
            final(self)@ == skip_ws(old(self)@),
    {
        proof { lemma_skip_ws(self@); lemma_encode_len(self.chars@); }
        while self.position < self.chars.len()
            invariant
                self.wf(),
                self.chars@.len() <= encode_utf8(self.chars@).len(),
                skip_ws(self@) == skip_ws(old(self)@),
            decreases self.chars@.len() - self.position,
        {
            let ch = self.chars[self.position];
            if ch == '\n' {
                self.line = self.line + 1;
                self.column = 1;
                self.position = self.position + 1;
            } else if is_whitespace(ch) {
                self.column = self.column + 1;
                self.position = self.position + 1;
            } else {
                proof { lemma_skip_ws(old(self)@); }
                return;
            }
        }
    }

    /// Check if a lexeme spells a keyword and return its token type.
    fn check_keyword(&self, lexeme: &str) -> (r: Option<TokenType>)
        ensures
            r == keyword_of(lexeme@),
    {
        if str_equal(lexeme, "int") { Some(TokenType::Int) }
        else if str_equal(lexeme, "float") { Some(TokenType::Float) }
        else if str_equal(lexeme, "char") { Some(TokenType::Char) }
        else if str_equal(lexeme, "bool") { Some(TokenType::Bool) }
        else if str_equal(lexeme, "string") { Some(TokenType::String) }
        else if str_equal(lexeme, "if") { Some(TokenType::If) }
        else if str_equal(lexeme, "else") { Some(TokenType::Else) }
        else if str_equal(lexeme, "while") { Some(TokenType::While) }
        else if str_equal(lexeme, "for") { Some(TokenType::For) }
        else if str_equal(lexeme, "return") { Some(TokenType::Return) }
        else if str_equal(lexeme, "#include") { Some(TokenType::Include) }
        else if str_equal(lexeme, "#define") { Some(TokenType::Define) }
        else { None }
    }

    /// The data type that a token type declares.
    fn get_data_type(&self, token_type: &TokenType) -> (r: Option<String>)
        ensures
            match r {
                Some(s) => data_type_of(*token_type) == Some(s@),
                None => data_type_of(*token_type) is None,
            },
    {
        match token_type {
            TokenType::Int => Some(String::from_str("int")),
            TokenType::Float => Some(String::from_str("float")),
            TokenType::Char => Some(String::from_str("char")),
            TokenType::Bool => Some(String::from_str("bool")),
            TokenType::String => Some(String::from_str("string")),
            _ => None,
        }
    }

    /// Move position, line and column over `text`, which starts at the
    /// current position.
    fn advance_over_text(&mut self, text: &str)
        requires
            old(self).wf(),
            old(self).position + text@.len() <= encode_utf8(old(self).chars@).len(),
        ensures
            final(self).wf(),
            final(self)@ == (LexerView {
                pos: old(self)@.pos + text@.len(),
                line: advance_over(old(self)@.line, old(self)@.column, text@).0,
                column: advance_over(old(self)@.line, old(self)@.column, text@).1,
                ..old(self)@
            }),
    {
        let tc = chars_of(text);
        let mut i: usize = 0;
        while i < tc.len()
            invariant
                self.wf(),
                tc@ == text@,
                i <= tc@.len(),
                self.position == old(self).position + i,
                old(self).position + tc@.len() <= encode_utf8(self.chars@).len(),
                (self.line as nat, self.column as nat) == advance_over(old(self)@.line, old(self)@.column, tc@.take(i as int)),
                self@ == (LexerView { pos: self.position as nat, line: self.line as nat, column: self.column as nat, ..old(self)@ }),
            decreases tc@.len() - i,
        {
            assert(tc@.take(i + 1).drop_last() =~= tc@.take(i as int));
            if tc[i] == '\n' {
                self.line = self.line + 1;
                self.column = 1;
            } else {
                self.column = self.column + 1;
            }
            self.position = self.position + 1;
            i = i + 1;
        }
        assert(tc@.take(tc@.len() as int) =~= tc@);
    }

    /// Read one lexeme that pattern `token_type` matched at the current position.
    fn accept(&mut self, token_type: TokenType, text: String)
        requires
            old(self).wf(),
            old(self).position + text@.len() <= encode_utf8(old(self).chars@).len(),
        ensures
            final(self).wf(),
            final(self)@ == apply_match(old(self)@, token_type, text@),
    {
        let start_line = self.line;
        let start_col = self.column;
        if token_type == TokenType::Comment {
            self.advance_over_text(text.as_str());
            return;
        }
        let mut final_token_type = token_type;
        if let Some(data_type) = self.get_data_type(&token_type) {
            self.last_type_keyword = Some(data_type);
        }
        if token_type == TokenType::Identifier {
            if let Some(keyword_type) = self.check_keyword(text.as_str()) {
                final_token_type = keyword_type;
                match keyword_type {
                    TokenType::If | TokenType::Else | TokenType::While | TokenType::For | TokenType::Return => {
                        self.last_type_keyword = None;
                    },
                    _ => {},
                }
            } else {
                let data_type = match &self.last_type_keyword {
                    Some(d) => d.clone(),
                    None => String::from_str("unknown"),
                };
                let symbol_type = String::from_str("variable");
                self.symbol_table.add_symbol(text.clone(), symbol_type, data_type, start_line);
                self.last_type_keyword = None;
            }
        }
        let token = Token::new(final_token_type, text.clone(), start_line, start_col);
        self.tokens.push(token);
        assert(self.tokens@.map_values(|t: Token| t@) =~= old(self)@.tokens.push((final_token_type, text@, start_line as nat, start_col as nat)));
        self.advance_over_text(text.as_str());
    }

    /// The input from byte `position` on.
    fn remaining(&self) -> (r: &str)
        requires
            self.wf(),
            can_slice(self@),
        ensures
            r@ == scan_rest(self@),
    {
        let (_, rest) = self.source.as_str().split_at(self.position);
        proof {
            encode_utf8_decode_utf8(rest@);
        }
        rest
    }

    /// The first pattern that matches a non-empty prefix of the remaining input.
    fn find_pattern(&self) -> (r: Option<(TokenType, String)>)
        requires
            self.wf(),
            can_slice(self@),
        ensures
            match r {
                Some((ty, text)) => first_pattern(token_patterns(), scan_rest(self@), 0) == Some((ty, text@)),
                None => first_pattern(token_patterns(), scan_rest(self@), 0) is None,
            },
    {
        let rest = self.remaining();
        let ghost pats = token_patterns();
        let mut i: usize = 0;
        while i < self.patterns.len()
            invariant
                self.wf(),
                i <= self.patterns@.len(),
                pats == patterns_view(self.patterns@),
                rest@ == scan_rest(self@),
                first_pattern(pats, rest@, 0) == first_pattern(pats, rest@, i as int),
            decreases self.patterns@.len() - i,
        {
            let (token_type, pattern) = self.patterns[i];
            assert(pats[i as int] == (token_type, pattern@));
            match first_match(pattern, rest) {
                Some((start, text)) => {
                    if start == 0 && !text.as_str().is_empty() {
                        assert(match_at_start(pats[i as int].1, rest@) == Some(text@));
                        assert(first_pattern(pats, rest@, i as int) == Some((token_type, text@)));
                        return Some((token_type, text));
                    }
                },
                None => {},
            }
            i = i + 1;
        }
        None
    }

    /// Tokenize the source as `tokenize` does, or give `None` when the scan
    /// reaches a position where it cannot go on (see `lex_safe`).
    pub fn try_tokenize(&mut self) -> (r: Option<Result<(), String>>)
        requires
            old(self).wf(),
        ensures
            final(self).wf(),
            r is None <==> !lex_safe(old(self)@),
            r matches Some(res) ==> final(self)@ == lex_run(old(self)@).0 && match res {
                Ok(_) => lex_run(old(self)@).1 is Ok,
                Err(e) => lex_run(old(self)@).1 == Err::<(), Seq<char>>(e@),
            },
    {
        while self.position < self.source.as_str().len()
            invariant
                self.wf(),
                lex_run(self@) == lex_run(old(self)@),
                lex_safe(self@) == lex_safe(old(self)@),
            decreases encode_utf8(self.chars@).len() - self.position,
        {
            let ghost v = self@;
            self.skip_whitespace();
            proof {
                lemma_skip_ws(v);
                lemma_skip_ws(self@);
                lemma_encode_len(v.chars);
            }
            if self.position < self.source.as_str().len() {
                if !(self.position < self.chars.len() && self.source.as_str().is_char_boundary(self.position)) {
                    return None;
                }
                match self.find_pattern() {
                    None => {
                        let ch = self.chars[self.position];
                        let mut msg = String::from_str("Lexical Error: Invalid character '");
                        push_char(&mut msg, ch);
                        push_str(&mut msg, "' at line ");
                        let line = usize_to_string(self.line);
                        push_str(&mut msg, line.as_str());
                        push_str(&mut msg, ", column ");
                        let column = usize_to_string(self.column);
                        push_str(&mut msg, column.as_str());
                        assert(msg@ == invalid_char_message(self@.chars[self@.pos as int], self@.line, self@.column));
                        assert(lex_run(self@) == (self@, Err::<(), Seq<char>>(msg@)));
                        return Some(Err(msg));
                    },
                    Some((token_type, text)) => {
                        proof {
                            lemma_first_pattern(token_patterns(), scan_rest(self@), 0);
                            lemma_scan_rest_len(self@);
                        }
                        self.accept(token_type, text);
                    },
                }
            }
        }
        let ghost before = self@;
        let eof = Token::new(TokenType::EOF, String::from_str("EOF"), self.line, self.column);
        self.tokens.push(eof);
        assert(self@.tokens =~= before.tokens.push((TokenType::EOF, "EOF"@, before.line, before.column)));
        assert(self@ == finish(before));
        Some(Ok(()))
    }

    /// Tokenize the source: scan from the current position to the end of the
    /// input, then add an EOF token; stop with an error at a character that
    /// no pattern matches.
    pub fn tokenize(&mut self) -> (r: Result<(), String>)
        requires
            old(self).wf(),
            lex_safe(old(self)@),
        ensures
            final(self).wf(),
            final(self)@ == lex_run(old(self)@).0,
            match r {
                Ok(_) => lex_run(old(self)@).1 is Ok,
                Err(e) => lex_run(old(self)@).1 == Err::<(), Seq<char>>(e@),
            },
    {
        match self.try_tokenize() {
            Some(r) => r,
            None => Ok(()),
        }
    }

    /// Get all tokens.
    pub fn get_tokens(&self) -> (r: &Vec<Token>)
        ensures
            r@.map_values(|t: Token| t@) == self@.tokens,
    {
        &self.tokens
    }

    /// Get the symbol table.
    pub fn get_symbol_table(&self) -> (r: &SymbolTable)
        ensures
            r@ == (self@.symbols, self@.scope),
    {
        &self.symbol_table
    }
}

} // verus!

verus! {

/// No token of `ts` is a comment.
pub open spec fn no_comments(ts: Seq<TokenView>) -> bool {
    forall|i: int| 0 <= i < ts.len() ==> (#[trigger] ts[i]).0 != TokenType::Comment
}

/// A scan only appends: the tokens and the symbols before it are prefixes of
/// those after it.
pub proof fn law_scan_appends(v: LexerView)
    ensures
        v.tokens.is_prefix_of(lex_run(v).0.tokens),
        v.symbols.is_prefix_of(lex_run(v).0.symbols),
    decreases byte_len(v) - v.pos,
{
    lemma_skip_ws(v);
    lemma_encode_len(v.chars);
    if v.pos < byte_len(v) {
        let w = skip_ws(v);
        if w.pos < byte_len(w) && can_slice(w) {
            let rest = scan_rest(w);
            match first_pattern(token_patterns(), rest, 0) {
                None => {},
                Some((ty, text)) => {
                    lemma_first_pattern(token_patterns(), rest, 0);
                    lemma_scan_rest_len(w);
                    let u = apply_match(w, ty, text);
                    law_scan_appends(u);
                    assert(v.tokens.is_prefix_of(u.tokens));
                    assert(v.symbols.is_prefix_of(u.symbols));
                },
            }
        }
    }
}

/// A scan that succeeds where it can go on ends with the end-of-input token.
pub proof fn law_ok_ends_with_eof(v: LexerView)
    ensures
        lex_safe(v) && lex_run(v).1 is Ok ==> {
            let ts = lex_run(v).0.tokens;
            &&& ts.len() > 0
            &&& ts.last().0 == TokenType::EOF
            &&& ts.last().1 == "EOF"@
        },
    decreases byte_len(v) - v.pos,
{
    lemma_skip_ws(v);
    lemma_encode_len(v.chars);
    if v.pos < byte_len(v) {
        let w = skip_ws(v);
        if w.pos < byte_len(w) && can_slice(w) {
            let rest = scan_rest(w);
            match first_pattern(token_patterns(), rest, 0) {
                None => {},
                Some((ty, text)) => {
                    lemma_first_pattern(token_patterns(), rest, 0);
                    lemma_scan_rest_len(w);
                    law_ok_ends_with_eof(apply_match(w, ty, text));
                },
            }
        }
    }
}

/// Comments never become tokens: a scan from tokens without comments gives
/// tokens without comments.
pub proof fn law_no_comment_tokens(v: LexerView)
    requires
        no_comments(v.tokens),
    ensures
        no_comments(lex_run(v).0.tokens),
    decreases byte_len(v) - v.pos,
{
    lemma_skip_ws(v);
    lemma_encode_len(v.chars);
    if v.pos < byte_len(v) {
        let w = skip_ws(v);
        if w.pos < byte_len(w) {
            if can_slice(w) {
                let rest = scan_rest(w);
                match first_pattern(token_patterns(), rest, 0) {
                    None => {},
                    Some((ty, text)) => {
                        lemma_first_pattern(token_patterns(), rest, 0);
                        lemma_scan_rest_len(w);
                        let u = apply_match(w, ty, text);
                        assert(no_comments(u.tokens)) by {
                            if ty != TokenType::Comment {
                                let last = u.tokens.last();
                                assert(u.tokens == w.tokens.push(last));
                                assert(last.0 != TokenType::Comment);
                            }
                        }
                        law_no_comment_tokens(u);
                    },
                }
            }
        } else {
            assert(no_comments(finish(w).tokens)) by {
                assert(finish(w).tokens == w.tokens.push(finish(w).tokens.last()));
            }
        }
    } else {
        assert(no_comments(finish(v).tokens)) by {
            assert(finish(v).tokens == v.tokens.push(finish(v).tokens.last()));
        }
    }
}

} // verus!
