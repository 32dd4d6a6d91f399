//! The recursive-descent parser of the MCPP language and its syntax tree.
use vstd::prelude::*;
use crate::lexer::{Token, TokenType, TokenView, token_type_name};
use crate::text::{decimal, push_str, usize_to_string, parse_i64, parse_i64_spec, str_equal, chars_of};

verus! {

// ─────────────────────────────────────────────
//  Syntax tree
// ─────────────────────────────────────────────

#[derive(Debug, Clone, Copy, PartialEq, Eq, Structural)]
pub enum Type {
    Int,
    Float,
    Char,
    Bool,
    String,
}

/// An expression. A float literal keeps the text of its lexeme.
#[derive(Debug)]
#[allow(inconsistent_fields)]
pub enum Expr {
    IntLit(i64),
    FloatLit(String),
    BoolLit(bool),
    CharLit(char),
    StrLit(String),
    Ident(String),
    BinOp { op: BinOpKind, left: Box<Expr>, right: Box<Expr> },
    UnaryOp { op: UnaryOpKind, operand: Box<Expr> },
    Call { name: String, args: Vec<Expr> },
    Index { name: String, index: Box<Expr> },
}

#[derive(Debug, Clone, Copy, PartialEq, Eq, Structural)]
pub enum BinOpKind {
    Add,
    Sub,
    Mul,
    Div,
    Mod,
    Eq,
    NotEq,
    Lt,
    Gt,
    LtEq,
    GtEq,
    And,
    Or,
}

#[derive(Debug, Clone, Copy, PartialEq, Eq, Structural)]
pub enum UnaryOpKind {
    Neg,
    PreInc,
    PreDec,
    PostInc,
    PostDec,
}

#[derive(Debug, Clone)]
pub struct Param {
    pub ty: Type,
    pub name: String,
}

#[derive(Debug)]
#[allow(inconsistent_fields)]
pub enum Stmt {
    /// `int x;` or `int x = expr;`
    VarDecl { ty: Type, name: String, init: Option<Expr> },
    /// `int arr[N];`
    ArrayDecl { ty: Type, name: String, size: Expr },
    /// `int foo(params) { body }`
    FuncDecl { ty: Type, name: String, params: Vec<Param>, body: Vec<Stmt> },
    /// `x = expr;`
    Assign { name: String, value: Expr },
    /// `arr[i] = expr;`
    IndexAssign { name: String, index: Expr, value: Expr },
    /// `i++;` `i--;`
    IncDec { name: String, op: UnaryOpKind },
    If { condition: Expr, then_block: Vec<Stmt>, else_block: Option<Vec<Stmt>> },
    While { condition: Expr, body: Vec<Stmt> },
    For { init: Option<Box<Stmt>>, condition: Option<Expr>, update: Option<Box<Stmt>>, body: Vec<Stmt> },
    Return(Option<Expr>),
    /// A standalone function call.
    ExprStmt(Expr),
    Block(Vec<Stmt>),
}

/// The whole translation unit: include headers, macro definitions and statements.
#[derive(Debug)]
pub struct Program {
    pub includes: Vec<String>,
    pub defines: Vec<(String, String)>,
    pub stmts: Vec<Stmt>,
}

// ── Values of the syntax tree ─────────────────

/// An expression as a value.
pub enum ExprV {
    IntLit(i64),
    FloatLit(Seq<char>),
    BoolLit(bool),
    CharLit(char),
    StrLit(Seq<char>),
    Ident(Seq<char>),
    BinOp(BinOpKind, Box<ExprV>, Box<ExprV>),
    UnaryOp(UnaryOpKind, Box<ExprV>),
    Call(Seq<char>, Seq<ExprV>),
    Index(Seq<char>, Box<ExprV>),
}

/// A parameter as a value.
pub type ParamV = (Type, Seq<char>);

/// A statement as a value.
pub enum StmtV {
    VarDecl(Type, Seq<char>, Option<ExprV>),
    ArrayDecl(Type, Seq<char>, ExprV),
    FuncDecl(Type, Seq<char>, Seq<ParamV>, Seq<StmtV>),
    Assign(Seq<char>, ExprV),
    IndexAssign(Seq<char>, ExprV, ExprV),
    IncDec(Seq<char>, UnaryOpKind),
    If(ExprV, Seq<StmtV>, Option<Seq<StmtV>>),
    While(ExprV, Seq<StmtV>),
    For(Option<Box<StmtV>>, Option<ExprV>, Option<Box<StmtV>>, Seq<StmtV>),
    Return(Option<ExprV>),
    ExprStmt(ExprV),
    Block(Seq<StmtV>),
}

/// A program as a value.
pub type ProgramV = (Seq<Seq<char>>, Seq<(Seq<char>, Seq<char>)>, Seq<StmtV>);

pub open spec fn expr_view(e: Expr) -> ExprV
    decreases e,
{
    match e {
        Expr::IntLit(v) => ExprV::IntLit(v),
        Expr::FloatLit(s) => ExprV::FloatLit(s@),
        Expr::BoolLit(b) => ExprV::BoolLit(b),
        Expr::CharLit(c) => ExprV::CharLit(c),
        Expr::StrLit(s) => ExprV::StrLit(s@),
        Expr::Ident(s) => ExprV::Ident(s@),
        Expr::BinOp { op, left, right } => ExprV::BinOp(op, Box::new(expr_view(*left)), Box::new(expr_view(*right))),
        Expr::UnaryOp { op, operand } => ExprV::UnaryOp(op, Box::new(expr_view(*operand))),
        Expr::Call { name, args } => ExprV::Call(name@, exprs_view(args@)),
        Expr::Index { name, index } => ExprV::Index(name@, Box::new(expr_view(*index))),
    }
}

pub open spec fn exprs_view(s: Seq<Expr>) -> Seq<ExprV>
    decreases s,
{
    if s.len() == 0 {
        Seq::empty()
    } else {
        exprs_view(s.drop_last()).push(expr_view(s.last()))
    }
}

impl View for Expr {
    type V = ExprV;

    open spec fn view(&self) -> ExprV {
        expr_view(*self)
    }
}

impl View for Param {
    type V = ParamV;

    open spec fn view(&self) -> ParamV {
        (self.ty, self.name@)
    }
}

pub open spec fn params_view(s: Seq<Param>) -> Seq<ParamV> {
    s.map_values(|p: Param| p@)
}

pub open spec fn opt_expr_view(e: Option<Expr>) -> Option<ExprV> {
    match e {
        Some(x) => Some(x@),
        None => None,
    }
}

pub open spec fn stmt_view(s: Stmt) -> StmtV
    decreases s,
{
    match s {
        Stmt::VarDecl { ty, name, init } => StmtV::VarDecl(ty, name@, opt_expr_view(init)),
        Stmt::ArrayDecl { ty, name, size } => StmtV::ArrayDecl(ty, name@, size@),
        Stmt::FuncDecl { ty, name, params, body } => StmtV::FuncDecl(ty, name@, params_view(params@), stmts_view(body@)),
        Stmt::Assign { name, value } => StmtV::Assign(name@, value@),
        Stmt::IndexAssign { name, index, value } => StmtV::IndexAssign(name@, index@, value@),
        Stmt::IncDec { name, op } => StmtV::IncDec(name@, op),
        Stmt::If { condition, then_block, else_block } => StmtV::If(
            condition@,
            stmts_view(then_block@),
            match else_block {
                Some(b) => Some(stmts_view(b@)),
                None => None,
            },
        ),
        Stmt::While { condition, body } => StmtV::While(condition@, stmts_view(body@)),
        Stmt::For { init, condition, update, body } => StmtV::For(
            match init {
                Some(b) => Some(Box::new(stmt_view(*b))),
                None => None,
            },
            opt_expr_view(condition),
            match update {
                Some(b) => Some(Box::new(stmt_view(*b))),
                None => None,
            },
            stmts_view(body@),
        ),
        Stmt::Return(e) => StmtV::Return(opt_expr_view(e)),
        Stmt::ExprStmt(e) => StmtV::ExprStmt(e@),
        Stmt::Block(b) => StmtV::Block(stmts_view(b@)),
    }
}

pub open spec fn stmts_view(s: Seq<Stmt>) -> Seq<StmtV>
    decreases s,
{
    if s.len() == 0 {
        Seq::empty()
    } else {
        stmts_view(s.drop_last()).push(stmt_view(s.last()))
    }
}

impl View for Stmt {
    type V = StmtV;

    open spec fn view(&self) -> StmtV {
        stmt_view(*self)
    }
}

impl View for Program {
    type V = ProgramV;

    open spec fn view(&self) -> ProgramV {
        (
            self.includes@.map_values(|s: String| s@),
            self.defines@.map_values(|d: (String, String)| (d.0@, d.1@)),
            stmts_view(self.stmts@),
        )
    }
}

} // verus!

verus! {

// ─────────────────────────────────────────────
//  The grammar, as functions on the token sequence
// ─────────────────────────────────────────────

/// The outcome of parsing a phrase from a position: the phrase and the
/// position after it, or the error message and the position where parsing
/// stopped.
pub type Parsed<T> = Result<(T, nat), (Seq<char>, nat)>;

/// Tokens left from position `p`.
pub open spec fn rem(toks: Seq<TokenView>, p: nat) -> nat {
    if p <= toks.len() { (toks.len() - p) as nat } else { 0 }
}

/// The type of the token at `p`, or EOF past the end.
pub open spec fn la(toks: Seq<TokenView>, p: nat) -> TokenType {
    if p < toks.len() { toks[p as int].0 } else { TokenType::EOF }
}

/// The position after the token at `p` (no move past the end).
pub open spec fn adv(toks: Seq<TokenView>, p: nat) -> nat {
    if p < toks.len() { p + 1 } else { p }
}

/// The line of the token at `p`, or 0 past the end.
pub open spec fn line_at(toks: Seq<TokenView>, p: nat) -> nat {
    if p < toks.len() { toks[p as int].2 } else { 0 }
}

/// The lexeme of the token at `p`, or empty past the end.
pub open spec fn text_at(toks: Seq<TokenView>, p: nat) -> Seq<char> {
    if p < toks.len() { toks[p as int].1 } else { Seq::empty() }
}

/// `Syntax error at line L: detail`, for the token at `p`.
pub open spec fn syntax_error(toks: Seq<TokenView>, p: nat, detail: Seq<char>) -> Seq<char> {
    "Syntax error at line "@ + decimal(line_at(toks, p)) + ": "@ + detail
}

pub open spec fn expected_found(expected: Seq<char>, found: TokenType) -> Seq<char> {
    "expected "@ + expected + ", found "@ + token_type_name(found)
}

/// Consuming a token of type `t` at `p`.
pub open spec fn match_tok(toks: Seq<TokenView>, p: nat, t: TokenType) -> Result<nat, (Seq<char>, nat)> {
    if la(toks, p) == t {
        Ok(adv(toks, p))
    } else {
        Err((syntax_error(toks, p, expected_found(token_type_name(t), la(toks, p))), p))
    }
}

/// Consuming an identifier at `p`, giving its name.
pub open spec fn take_ident(toks: Seq<TokenView>, p: nat) -> Parsed<Seq<char>> {
    if la(toks, p) == TokenType::Identifier {
        Ok((text_at(toks, p), adv(toks, p)))
    } else {
        Err((syntax_error(toks, p, expected_found("identifier"@, la(toks, p))), p))
    }
}

pub open spec fn is_type_keyword(t: TokenType) -> bool {
    t == TokenType::Int || t == TokenType::Float || t == TokenType::Char || t == TokenType::Bool
        || t == TokenType::String
}

/// A type keyword at `p`.
pub open spec fn p_type(toks: Seq<TokenView>, p: nat) -> Parsed<Type> {
    match la(toks, p) {
        TokenType::Int => Ok((Type::Int, adv(toks, p))),
        TokenType::Float => Ok((Type::Float, adv(toks, p))),
        TokenType::Char => Ok((Type::Char, adv(toks, p))),
        TokenType::Bool => Ok((Type::Bool, adv(toks, p))),
        TokenType::String => Ok((Type::String, adv(toks, p))),
        _ => Err((syntax_error(toks, p, "expected type keyword, found "@ + token_type_name(la(toks, p))), p)),
    }
}

/// The message of a step that made no progress; no parse step ever yields it.
pub open spec fn stalled() -> Seq<char> {
    Seq::empty()
}

// ── Preprocessor ─────────────────────────────

/// The text of an angle-bracket header name: the lexemes up to `>` or EOF.
pub open spec fn p_header(toks: Seq<TokenView>, p: nat, acc: Seq<char>) -> (Seq<char>, nat)
    decreases rem(toks, p),
{
    let t = la(toks, p);
    if t == TokenType::GreaterThan || t == TokenType::EOF {
        (acc, p)
    } else {
        p_header(toks, adv(toks, p), acc + text_at(toks, p))
    }
}

/// Reading a header moves forward and stays within the tokens.
pub proof fn lemma_header(toks: Seq<TokenView>, p: nat, acc: Seq<char>)
    ensures
        p_header(toks, p, acc).1 >= p,
        p <= toks.len() ==> p_header(toks, p, acc).1 <= toks.len(),
    decreases rem(toks, p),
{
    let t = la(toks, p);
    if !(t == TokenType::GreaterThan || t == TokenType::EOF) {
        lemma_header(toks, adv(toks, p), acc + text_at(toks, p));
    }
}

/// The `#include` and `#define` lines at the head of the program.
pub open spec fn p_preprocessor(
    toks: Seq<TokenView>,
    p: nat,
    includes: Seq<Seq<char>>,
    defines: Seq<(Seq<char>, Seq<char>)>,
) -> Result<(Seq<Seq<char>>, Seq<(Seq<char>, Seq<char>)>, nat), (Seq<char>, nat)>
    decreases rem(toks, p),
{
    match la(toks, p) {
        TokenType::Include => {
            let p1 = adv(toks, p);
            match la(toks, p1) {
                TokenType::StringLiteral => p_preprocessor(toks, adv(toks, p1), includes.push(text_at(toks, p1)), defines),
                TokenType::LessThan => {
                    let (hdr, p2) = p_header(toks, adv(toks, p1), Seq::empty());
                    proof { lemma_header(toks, adv(toks, p1), Seq::empty()); }
                    match match_tok(toks, p2, TokenType::GreaterThan) {
                        Err(e) => Err(e),
                        Ok(p3) => p_preprocessor(toks, p3, includes.push(hdr), defines),
                    }
                },
                _ => p_preprocessor(toks, p1, includes, defines),
            }
        },
        TokenType::Define => {
            let p1 = adv(toks, p);
            match take_ident(toks, p1) {
                Err(e) => Err(e),
                Ok((name, p2)) => {
                    let t = la(toks, p2);
                    if !(t == TokenType::EOF || t == TokenType::Include || t == TokenType::Define) {
                        p_preprocessor(toks, adv(toks, p2), includes, defines.push((name, text_at(toks, p2))))
                    } else {
                        p_preprocessor(toks, p2, includes, defines.push((name, Seq::empty())))
                    }
                },
            }
        },
        _ => Ok((includes, defines, p)),
    }
}

// ── Expressions ───────────────────────────────

pub open spec fn p_expr(toks: Seq<TokenView>, p: nat) -> Parsed<ExprV>
    decreases rem(toks, p), 18nat,
{
    p_logical(toks, p)
}

pub open spec fn p_logical(toks: Seq<TokenView>, p: nat) -> Parsed<ExprV>
    decreases rem(toks, p), 17nat,
{
    match p_comparison(toks, p) {
        Err(e) => Err(e),
        Ok((left, p1)) => if p <= p1 { logical_rest(toks, left, p1) } else { Err((stalled(), p1)) },
    }
}

pub open spec fn logical_rest(toks: Seq<TokenView>, left: ExprV, p: nat) -> Parsed<ExprV>
    decreases rem(toks, p), 16nat,
{
    let t = la(toks, p);
    if t == TokenType::LogicalAnd || t == TokenType::LogicalOr {
        let op = if t == TokenType::LogicalAnd { BinOpKind::And } else { BinOpKind::Or };
        match p_comparison(toks, adv(toks, p)) {
            Err(e) => Err(e),
            Ok((right, p2)) => if p < p2 {
                logical_rest(toks, ExprV::BinOp(op, Box::new(left), Box::new(right)), p2)
            } else {
                Err((stalled(), p2))
            },
        }
    } else {
        Ok((left, p))
    }
}

pub open spec fn comparison_op(t: TokenType) -> Option<BinOpKind> {
    match t {
        TokenType::Equal => Some(BinOpKind::Eq),
        TokenType::NotEqual => Some(BinOpKind::NotEq),
        TokenType::LessThan => Some(BinOpKind::Lt),
        TokenType::GreaterThan => Some(BinOpKind::Gt),
        TokenType::LessEqual => Some(BinOpKind::LtEq),
        TokenType::GreaterEqual => Some(BinOpKind::GtEq),
        _ => None,
    }
}

pub open spec fn p_comparison(toks: Seq<TokenView>, p: nat) -> Parsed<ExprV>
    decreases rem(toks, p), 15nat,
{
    match p_additive(toks, p) {
        Err(e) => Err(e),
        Ok((left, p1)) => if p <= p1 { comparison_rest(toks, left, p1) } else { Err((stalled(), p1)) },
    }
}

pub open spec fn comparison_rest(toks: Seq<TokenView>, left: ExprV, p: nat) -> Parsed<ExprV>
    decreases rem(toks, p), 14nat,
{
    match comparison_op(la(toks, p)) {
        Some(op) => match p_additive(toks, adv(toks, p)) {
            Err(e) => Err(e),
            Ok((right, p2)) => if p < p2 {
                comparison_rest(toks, ExprV::BinOp(op, Box::new(left), Box::new(right)), p2)
            } else {
                Err((stalled(), p2))
            },
        },
        None => Ok((left, p)),
    }
}

pub open spec fn p_additive(toks: Seq<TokenView>, p: nat) -> Parsed<ExprV>
    decreases rem(toks, p), 13nat,
{
    match p_term(toks, p) {
        Err(e) => Err(e),
        Ok((left, p1)) => if p <= p1 { additive_rest(toks, left, p1) } else { Err((stalled(), p1)) },
    }
}

pub open spec fn additive_rest(toks: Seq<TokenView>, left: ExprV, p: nat) -> Parsed<ExprV>
    decreases rem(toks, p), 12nat,
{
    let t = la(toks, p);
    if t == TokenType::Plus || t == TokenType::Minus {
        let op = if t == TokenType::Plus { BinOpKind::Add } else { BinOpKind::Sub };
        match p_term(toks, adv(toks, p)) {
            Err(e) => Err(e),
            Ok((right, p2)) => if p < p2 {
                additive_rest(toks, ExprV::BinOp(op, Box::new(left), Box::new(right)), p2)
            } else {
                Err((stalled(), p2))
            },
        }
    } else {
        Ok((left, p))
    }
}

pub open spec fn term_op(t: TokenType) -> Option<BinOpKind> {
    match t {
        TokenType::Multiply => Some(BinOpKind::Mul),
        TokenType::Divide => Some(BinOpKind::Div),
        TokenType::Modulo => Some(BinOpKind::Mod),
        _ => None,
    }
}

pub open spec fn p_term(toks: Seq<TokenView>, p: nat) -> Parsed<ExprV>
    decreases rem(toks, p), 11nat,
{
    match p_unary(toks, p) {
        Err(e) => Err(e),
        Ok((left, p1)) => if p <= p1 { term_rest(toks, left, p1) } else { Err((stalled(), p1)) },
    }
}

pub open spec fn term_rest(toks: Seq<TokenView>, left: ExprV, p: nat) -> Parsed<ExprV>
    decreases rem(toks, p), 10nat,
{
    match term_op(la(toks, p)) {
        Some(op) => match p_unary(toks, adv(toks, p)) {
            Err(e) => Err(e),
            Ok((right, p2)) => if p < p2 {
                term_rest(toks, ExprV::BinOp(op, Box::new(left), Box::new(right)), p2)
            } else {
                Err((stalled(), p2))
            },
        },
        None => Ok((left, p)),
    }
}

pub open spec fn prefix_op(t: TokenType) -> Option<UnaryOpKind> {
    match t {
        TokenType::Minus => Some(UnaryOpKind::Neg),
        TokenType::Increment => Some(UnaryOpKind::PreInc),
        TokenType::Decrement => Some(UnaryOpKind::PreDec),
        _ => None,
    }
}

pub open spec fn p_unary(toks: Seq<TokenView>, p: nat) -> Parsed<ExprV>
    decreases rem(toks, p), 9nat,
{
    match prefix_op(la(toks, p)) {
        Some(op) => match p_unary(toks, adv(toks, p)) {
            Err(e) => Err(e),
            Ok((operand, p2)) => Ok((ExprV::UnaryOp(op, Box::new(operand)), p2)),
        },
        None => p_factor(toks, p),
    }
}

/// The character of a character-literal token: the first character of its lexeme.
pub open spec fn char_literal(text: Seq<char>) -> char {
    if text.len() > 0 { text[0] } else { '\0' }
}

pub open spec fn p_factor(toks: Seq<TokenView>, p: nat) -> Parsed<ExprV>
    decreases rem(toks, p), 8nat,
{
    let text = text_at(toks, p);
    match la(toks, p) {
        TokenType::Identifier => p_name_factor(toks, p),
        TokenType::IntegerLiteral => Ok((
            ExprV::IntLit(match parse_i64_spec(text) { Some(v) => v, None => 0 }),
            adv(toks, p),
        )),
        TokenType::FloatLiteral => Ok((ExprV::FloatLit(text), adv(toks, p))),
        TokenType::BoolLiteral => Ok((ExprV::BoolLit(text == "true"@), adv(toks, p))),
        TokenType::CharLiteral => Ok((ExprV::CharLit(char_literal(text)), adv(toks, p))),
        TokenType::StringLiteral => Ok((ExprV::StrLit(text), adv(toks, p))),
        TokenType::LeftParen => match p_expr(toks, adv(toks, p)) {
            Err(e) => Err(e),
            Ok((e, p2)) => match match_tok(toks, p2, TokenType::RightParen) {
                Err(err) => Err(err),
                Ok(p3) => Ok((e, p3)),
            },
        },
        _ => Err((syntax_error(toks, p, "unexpected token in expression: "@ + token_type_name(la(toks, p))), p)),
    }
}

/// A factor that begins with the identifier at `p`: a call, an indexing,
/// a post-increment or post-decrement, or the bare name.
pub open spec fn p_name_factor(toks: Seq<TokenView>, p: nat) -> Parsed<ExprV>
    decreases rem(toks, p), 7nat,
{
    let text = text_at(toks, p);
    let p1 = adv(toks, p);
    match la(toks, p1) {
        TokenType::LeftParen => match p_arg_list(toks, adv(toks, p1)) {
            Err(e) => Err(e),
            Ok((args, p3)) => match match_tok(toks, p3, TokenType::RightParen) {
                Err(e) => Err(e),
                Ok(p4) => Ok((ExprV::Call(text, args), p4)),
            },
        },
        TokenType::LeftBracket => match p_expr(toks, adv(toks, p1)) {
            Err(e) => Err(e),
            Ok((index, p3)) => match match_tok(toks, p3, TokenType::RightBracket) {
                Err(e) => Err(e),
                Ok(p4) => Ok((ExprV::Index(text, Box::new(index)), p4)),
            },
        },
        TokenType::Increment => Ok((ExprV::UnaryOp(UnaryOpKind::PostInc, Box::new(ExprV::Ident(text))), adv(toks, p1))),
        TokenType::Decrement => Ok((ExprV::UnaryOp(UnaryOpKind::PostDec, Box::new(ExprV::Ident(text))), adv(toks, p1))),
        _ => Ok((ExprV::Ident(text), p1)),
    }

}

pub open spec fn p_arg_list(toks: Seq<TokenView>, p: nat) -> Parsed<Seq<ExprV>>
    decreases rem(toks, p), 20nat,
{
    if la(toks, p) == TokenType::RightParen {
        Ok((Seq::empty(), p))
    } else {
        match p_expr(toks, p) {
            Err(e) => Err(e),
            Ok((e, p1)) => if p <= p1 { args_rest(toks, seq![e], p1) } else { Err((stalled(), p1)) },
        }
    }
}

pub open spec fn args_rest(toks: Seq<TokenView>, acc: Seq<ExprV>, p: nat) -> Parsed<Seq<ExprV>>
    decreases rem(toks, p), 19nat,
{
    if la(toks, p) == TokenType::Comma {
        match p_expr(toks, adv(toks, p)) {
            Err(e) => Err(e),
            Ok((e, p2)) => if p < p2 { args_rest(toks, acc.push(e), p2) } else { Err((stalled(), p2)) },
        }
    } else {
        Ok((acc, p))
    }
}

/// A call `name(args)` at `p`.
#[verifier::opaque]
pub open spec fn p_func_call(toks: Seq<TokenView>, p: nat) -> Parsed<ExprV> {
    match take_ident(toks, p) {
        Err(e) => Err(e),
        Ok((name, p1)) => match match_tok(toks, p1, TokenType::LeftParen) {
            Err(e) => Err(e),
            Ok(p2) => match p_arg_list(toks, p2) {
                Err(e) => Err(e),
                Ok((args, p3)) => match match_tok(toks, p3, TokenType::RightParen) {
                    Err(e) => Err(e),
                    Ok(p4) => Ok((ExprV::Call(name, args), p4)),
                },
            },
        },
    }
}

// ── Statement pieces without nested statements ─

/// `name = expr` at `p`.
#[verifier::opaque]
pub open spec fn p_assign(toks: Seq<TokenView>, p: nat) -> Parsed<StmtV> {
    match take_ident(toks, p) {
        Err(e) => Err(e),
        Ok((name, p1)) => match match_tok(toks, p1, TokenType::Assign) {
            Err(e) => Err(e),
            Ok(p2) => match p_expr(toks, p2) {
                Err(e) => Err(e),
                Ok((value, p3)) => Ok((StmtV::Assign(name, value), p3)),
            },
        },
    }
}

/// `name[index] = expr` at `p`.
#[verifier::opaque]
pub open spec fn p_index_assign(toks: Seq<TokenView>, p: nat) -> Parsed<StmtV> {
    match take_ident(toks, p) {
        Err(e) => Err(e),
        Ok((name, p1)) => match match_tok(toks, p1, TokenType::LeftBracket) {
            Err(e) => Err(e),
            Ok(p2) => match p_expr(toks, p2) {
                Err(e) => Err(e),
                Ok((index, p3)) => match match_tok(toks, p3, TokenType::RightBracket) {
                    Err(e) => Err(e),
                    Ok(p4) => match match_tok(toks, p4, TokenType::Assign) {
                        Err(e) => Err(e),
                        Ok(p5) => match p_expr(toks, p5) {
                            Err(e) => Err(e),
                            Ok((value, p6)) => Ok((StmtV::IndexAssign(name, index, value), p6)),
                        },
                    },
                },
            },
        },
    }
}

/// `type name` at `p`.
pub open spec fn p_param(toks: Seq<TokenView>, p: nat) -> Parsed<ParamV> {
    match p_type(toks, p) {
        Err(e) => Err(e),
        Ok((ty, p1)) => match take_ident(toks, p1) {
            Err(e) => Err(e),
            Ok((name, p2)) => Ok(((ty, name), p2)),
        },
    }
}

/// A comma-separated parameter list, possibly empty.
pub open spec fn p_param_list(toks: Seq<TokenView>, p: nat) -> Parsed<Seq<ParamV>> {
    if !is_type_keyword(la(toks, p)) {
        Ok((Seq::empty(), p))
    } else {
        match p_param(toks, p) {
            Err(e) => Err(e),
            Ok((param, p1)) => params_rest(toks, seq![param], p1),
        }
    }
}

pub open spec fn params_rest(toks: Seq<TokenView>, acc: Seq<ParamV>, p: nat) -> Parsed<Seq<ParamV>>
    decreases rem(toks, p),
{
    if la(toks, p) == TokenType::Comma {
        match p_param(toks, adv(toks, p)) {
            Err(e) => Err(e),
            Ok((param, p2)) => if p < p2 { params_rest(toks, acc.push(param), p2) } else { Err((stalled(), p2)) },
        }
    } else {
        Ok((acc, p))
    }
}

} // verus!

verus! {

// ── Statements ────────────────────────────────

/// Token types that can begin a statement.
pub open spec fn starts_stmt(t: TokenType) -> bool {
    is_type_keyword(t) || t == TokenType::Identifier || t == TokenType::If || t == TokenType::While
        || t == TokenType::For || t == TokenType::Return || t == TokenType::LeftBrace
}

/// Statements for as long as one can begin, appended to `acc`.
pub open spec fn p_stmt_list(toks: Seq<TokenView>, p: nat, acc: Seq<StmtV>) -> Parsed<Seq<StmtV>>
    decreases rem(toks, p), 30nat,
{
    if starts_stmt(la(toks, p)) {
        match p_stmt(toks, p) {
            Err(e) => Err(e),
            Ok((s, p1)) => if p < p1 { p_stmt_list(toks, p1, acc.push(s)) } else { Err((stalled(), p1)) },
        }
    } else {
        Ok((acc, p))
    }
}

/// `;` after a simple statement.
pub open spec fn then_semicolon(toks: Seq<TokenView>, r: Parsed<StmtV>) -> Parsed<StmtV> {
    match r {
        Err(e) => Err(e),
        Ok((s, p1)) => match match_tok(toks, p1, TokenType::Semicolon) {
            Err(e) => Err(e),
            Ok(p2) => Ok((s, p2)),
        },
    }
}

/// `name++;` or `name--;` at `p`.
#[verifier::opaque]
pub open spec fn p_inc_dec(toks: Seq<TokenView>, p: nat, op: UnaryOpKind) -> Parsed<StmtV> {
    match take_ident(toks, p) {
        Err(e) => Err(e),
        Ok((name, p1)) => then_semicolon(toks, Ok((StmtV::IncDec(name, op), adv(toks, p1)))),
    }
}

/// A statement that begins with an identifier at `p`: a call, an
/// assignment, an indexed assignment, or an increment or decrement.
pub open spec fn p_ident_stmt(toks: Seq<TokenView>, p: nat) -> Parsed<StmtV> {
    match la(toks, p + 1) {
        TokenType::LeftParen => match p_func_call(toks, p) {
            Err(e) => Err(e),
            Ok((call, p1)) => then_semicolon(toks, Ok((StmtV::ExprStmt(call), p1))),
        },
        TokenType::Assign => then_semicolon(toks, p_assign(toks, p)),
        TokenType::LeftBracket => then_semicolon(toks, p_index_assign(toks, p)),
        TokenType::Increment => p_inc_dec(toks, p, UnaryOpKind::PostInc),
        TokenType::Decrement => p_inc_dec(toks, p, UnaryOpKind::PostDec),
        _ => Err((syntax_error(toks, p, "unexpected token after identifier: "@ + token_type_name(la(toks, p + 1))), p)),
    }
}

/// `return;` or `return expr;` at `p`.
pub open spec fn p_return(toks: Seq<TokenView>, p: nat) -> Parsed<StmtV> {
    let p1 = adv(toks, p);
    if la(toks, p1) == TokenType::Semicolon {
        Ok((StmtV::Return(None), adv(toks, p1)))
    } else {
        match p_expr(toks, p1) {
            Err(e) => Err(e),
            Ok((e, p2)) => then_semicolon(toks, Ok((StmtV::Return(Some(e)), p2))),
        }
    }
}

pub open spec fn p_stmt(toks: Seq<TokenView>, p: nat) -> Parsed<StmtV>
    decreases rem(toks, p), 29nat,
{
    let t = la(toks, p);
    if is_type_keyword(t) {
        p_decl(toks, p)
    } else if t == TokenType::Identifier {
        p_ident_stmt(toks, p)
    } else if t == TokenType::If {
        p_if(toks, p)
    } else if t == TokenType::While {
        p_while(toks, p)
    } else if t == TokenType::For {
        p_for(toks, p)
    } else if t == TokenType::Return {
        p_return(toks, p)
    } else if t == TokenType::LeftBrace {
        match p_block(toks, p) {
            Err(e) => Err(e),
            Ok((b, p1)) => Ok((StmtV::Block(b), p1)),
        }
    } else {
        Err((syntax_error(toks, p, "unexpected token "@ + token_type_name(t)), p))
    }
}

pub open spec fn p_decl(toks: Seq<TokenView>, p: nat) -> Parsed<StmtV>
    decreases rem(toks, p), 28nat,
{
    match p_type(toks, p) {
        Err(e) => Err(e),
        Ok((ty, p1)) => match take_ident(toks, p1) {
            Err(e) => Err(e),
            Ok((name, p2)) => match la(toks, p2) {
                TokenType::Semicolon => Ok((StmtV::VarDecl(ty, name, None), adv(toks, p2))),
                TokenType::Assign => match p_expr(toks, adv(toks, p2)) {
                    Err(e) => Err(e),
                    Ok((init, p3)) => then_semicolon(toks, Ok((StmtV::VarDecl(ty, name, Some(init)), p3))),
                },
                TokenType::LeftBracket => match p_expr(toks, adv(toks, p2)) {
                    Err(e) => Err(e),
                    Ok((size, p3)) => match match_tok(toks, p3, TokenType::RightBracket) {
                        Err(e) => Err(e),
                        Ok(p4) => then_semicolon(toks, Ok((StmtV::ArrayDecl(ty, name, size), p4))),
                    },
                },
                TokenType::LeftParen => if p < p2 {
                    match p_function(toks, p2) {
                        Err(e) => Err(e),
                        Ok(((params, body), p3)) => Ok((StmtV::FuncDecl(ty, name, params, body), p3)),
                    }
                } else {
                    Err((stalled(), p2))
                },
                _ => Err((syntax_error(toks, p2, "expected ';', '=', '[', or '(' after identifier, found "@ + token_type_name(la(toks, p2))), p2)),
            },
        },
    }
}

/// `( params ) { body }` at `p`.
pub open spec fn p_function(toks: Seq<TokenView>, p: nat) -> Parsed<(Seq<ParamV>, Seq<StmtV>)>
    decreases rem(toks, p), 27nat,
{
    match match_tok(toks, p, TokenType::LeftParen) {
        Err(e) => Err(e),
        Ok(p1) => match p_param_list(toks, p1) {
            Err(e) => Err(e),
            Ok((params, p2)) => match match_tok(toks, p2, TokenType::RightParen) {
                Err(e) => Err(e),
                Ok(p3) => if p < p3 {
                    match p_block(toks, p3) {
                        Err(e) => Err(e),
                        Ok((body, p4)) => Ok(((params, body), p4)),
                    }
                } else {
                    Err((stalled(), p3))
                },
            },
        },
    }
}

/// `{ statements }` at `p`.
pub open spec fn p_block(toks: Seq<TokenView>, p: nat) -> Parsed<Seq<StmtV>>
    decreases rem(toks, p), 26nat,
{
    match match_tok(toks, p, TokenType::LeftBrace) {
        Err(e) => Err(e),
        Ok(p1) => if p < p1 {
            match p_stmt_list(toks, p1, Seq::empty()) {
                Err(e) => Err(e),
                Ok((stmts, p2)) => match match_tok(toks, p2, TokenType::RightBrace) {
                    Err(e) => Err(e),
                    Ok(p3) => Ok((stmts, p3)),
                },
            }
        } else {
            Err((stalled(), p1))
        },
    }
}

/// `( condition )` at `p`, after a keyword.
pub open spec fn p_condition(toks: Seq<TokenView>, p: nat) -> Parsed<ExprV> {
    match match_tok(toks, p, TokenType::LeftParen) {
        Err(e) => Err(e),
        Ok(p1) => match p_expr(toks, p1) {
            Err(e) => Err(e),
            Ok((c, p2)) => match match_tok(toks, p2, TokenType::RightParen) {
                Err(e) => Err(e),
                Ok(p3) => Ok((c, p3)),
            },
        },
    }
}

pub open spec fn p_if(toks: Seq<TokenView>, p: nat) -> Parsed<StmtV>
    decreases rem(toks, p), 27nat,
{
    match match_tok(toks, p, TokenType::If) {
        Err(e) => Err(e),
        Ok(p1) => match p_condition(toks, p1) {
            Err(e) => Err(e),
            Ok((condition, p2)) => if p < p2 {
                match p_block(toks, p2) {
                    Err(e) => Err(e),
                    Ok((then_block, p3)) => if la(toks, p3) == TokenType::Else {
                        let p4 = adv(toks, p3);
                        if p < p4 {
                            if la(toks, p4) == TokenType::If {
                                match p_if(toks, p4) {
                                    Err(e) => Err(e),
                                    Ok((s, p5)) => Ok((StmtV::If(condition, then_block, Some(seq![s])), p5)),
                                }
                            } else {
                                match p_block(toks, p4) {
                                    Err(e) => Err(e),
                                    Ok((b, p5)) => Ok((StmtV::If(condition, then_block, Some(b)), p5)),
                                }
                            }
                        } else {
                            Err((stalled(), p4))
                        }
                    } else {
                        Ok((StmtV::If(condition, then_block, None), p3))
                    },
                }
            } else {
                Err((stalled(), p2))
            },
        },
    }
}

pub open spec fn p_while(toks: Seq<TokenView>, p: nat) -> Parsed<StmtV>
    decreases rem(toks, p), 27nat,
{
    match match_tok(toks, p, TokenType::While) {
        Err(e) => Err(e),
        Ok(p1) => match p_condition(toks, p1) {
            Err(e) => Err(e),
            Ok((condition, p2)) => if p < p2 {
                match p_block(toks, p2) {
                    Err(e) => Err(e),
                    Ok((body, p3)) => Ok((StmtV::While(condition, body), p3)),
                }
            } else {
                Err((stalled(), p2))
            },
        },
    }
}

/// The initialiser of a `for` header: a declaration, an assignment or nothing.
pub open spec fn p_for_init(toks: Seq<TokenView>, p: nat) -> Parsed<Option<Box<StmtV>>> {
    let t = la(toks, p);
    if is_type_keyword(t) {
        match p_type(toks, p) {
            Err(e) => Err(e),
            Ok((ty, p1)) => match take_ident(toks, p1) {
                Err(e) => Err(e),
                Ok((name, p2)) => if la(toks, p2) == TokenType::Assign {
                    match p_expr(toks, adv(toks, p2)) {
                        Err(e) => Err(e),
                        Ok((init, p3)) => Ok((Some(Box::new(StmtV::VarDecl(ty, name, Some(init)))), p3)),
                    }
                } else {
                    Ok((Some(Box::new(StmtV::VarDecl(ty, name, None))), p2))
                },
            },
        }
    } else if t == TokenType::Identifier {
        match p_assign(toks, p) {
            Err(e) => Err(e),
            Ok((s, p1)) => Ok((Some(Box::new(s)), p1)),
        }
    } else {
        Ok((None, p))
    }
}

/// The condition of a `for` header, if present.
pub open spec fn p_for_condition(toks: Seq<TokenView>, p: nat) -> Parsed<Option<ExprV>> {
    if la(toks, p) != TokenType::Semicolon {
        match p_expr(toks, p) {
            Err(e) => Err(e),
            Ok((c, p1)) => Ok((Some(c), p1)),
        }
    } else {
        Ok((None, p))
    }
}

/// The update of a `for` header, if present: `name++`, `name--` or an assignment.
pub open spec fn p_for_update(toks: Seq<TokenView>, p: nat) -> Parsed<Option<Box<StmtV>>> {
    if la(toks, p) != TokenType::RightParen {
        let t1 = la(toks, p + 1);
        if t1 == TokenType::Increment || t1 == TokenType::Decrement {
            let op = if t1 == TokenType::Increment { UnaryOpKind::PostInc } else { UnaryOpKind::PostDec };
            match take_ident(toks, p) {
                Err(e) => Err(e),
                Ok((name, p1)) => Ok((Some(Box::new(StmtV::IncDec(name, op))), adv(toks, p1))),
            }
        } else {
            match p_assign(toks, p) {
                Err(e) => Err(e),
                Ok((s, p1)) => Ok((Some(Box::new(s)), p1)),
            }
        }
    } else {
        Ok((None, p))
    }
}

pub open spec fn p_for(toks: Seq<TokenView>, p: nat) -> Parsed<StmtV>
    decreases rem(toks, p), 27nat,
{
    match match_tok(toks, p, TokenType::For) {
        Err(e) => Err(e),
        Ok(p1) => match match_tok(toks, p1, TokenType::LeftParen) {
            Err(e) => Err(e),
            Ok(p2) => match p_for_init(toks, p2) {
                Err(e) => Err(e),
                Ok((init, p3)) => match match_tok(toks, p3, TokenType::Semicolon) {
                    Err(e) => Err(e),
                    Ok(p4) => match p_for_condition(toks, p4) {
                        Err(e) => Err(e),
                        Ok((condition, p5)) => match match_tok(toks, p5, TokenType::Semicolon) {
                            Err(e) => Err(e),
                            Ok(p6) => match p_for_update(toks, p6) {
                                Err(e) => Err(e),
                                Ok((update, p7)) => match match_tok(toks, p7, TokenType::RightParen) {
                                    Err(e) => Err(e),
                                    Ok(p8) => if p < p8 {
                                        match p_block(toks, p8) {
                                            Err(e) => Err(e),
                                            Ok((body, p9)) => Ok((StmtV::For(init, condition, update, body), p9)),
                                        }
                                    } else {
                                        Err((stalled(), p8))
                                    },
                                },
                            },
                        },
                    },
                },
            },
        },
    }
}

/// A whole program from position `p`: preprocessor lines, statements, EOF.
pub open spec fn p_program(toks: Seq<TokenView>, p: nat) -> Parsed<ProgramV> {
    match p_preprocessor(toks, p, Seq::empty(), Seq::empty()) {
        Err(e) => Err(e),
        Ok((includes, defines, p1)) => match p_stmt_list(toks, p1, Seq::empty()) {
            Err(e) => Err(e),
            Ok((stmts, p2)) => match match_tok(toks, p2, TokenType::EOF) {
                Err(e) => Err(e),
                Ok(p3) => Ok(((includes, defines, stmts), p3)),
            },
        },
    }
}

} // verus!

verus! {

// ─────────────────────────────────────────────
//  Parser
// ─────────────────────────────────────────────

pub open spec fn expr_outcome(r: Result<Expr, String>, p: usize) -> Parsed<ExprV> {
    match r {
        Ok(e) => Ok((e@, p as nat)),
        Err(m) => Err((m@, p as nat)),
    }
}

pub open spec fn exprs_outcome(r: Result<Vec<Expr>, String>, p: usize) -> Parsed<Seq<ExprV>> {
    match r {
        Ok(e) => Ok((exprs_view(e@), p as nat)),
        Err(m) => Err((m@, p as nat)),
    }
}

pub open spec fn stmt_outcome(r: Result<Stmt, String>, p: usize) -> Parsed<StmtV> {
    match r {
        Ok(s) => Ok((s@, p as nat)),
        Err(m) => Err((m@, p as nat)),
    }
}

pub open spec fn stmts_outcome(r: Result<Vec<Stmt>, String>, p: usize) -> Parsed<Seq<StmtV>> {
    match r {
        Ok(s) => Ok((stmts_view(s@), p as nat)),
        Err(m) => Err((m@, p as nat)),
    }
}

pub open spec fn name_outcome(r: Result<String, String>, p: usize) -> Parsed<Seq<char>> {
    match r {
        Ok(s) => Ok((s@, p as nat)),
        Err(m) => Err((m@, p as nat)),
    }
}

pub open spec fn type_outcome(r: Result<Type, String>, p: usize) -> Parsed<Type> {
    match r {
        Ok(t) => Ok((t, p as nat)),
        Err(m) => Err((m@, p as nat)),
    }
}

pub open spec fn unit_outcome(r: Result<(), String>, p: usize) -> Result<nat, (Seq<char>, nat)> {
    match r {
        Ok(_) => Ok(p as nat),
        Err(m) => Err((m@, p as nat)),
    }
}

pub open spec fn params_outcome(r: Result<Vec<Param>, String>, p: usize) -> Parsed<Seq<ParamV>> {
    match r {
        Ok(s) => Ok((params_view(s@), p as nat)),
        Err(m) => Err((m@, p as nat)),
    }
}

pub open spec fn opt_box_stmt_view(s: Option<Box<Stmt>>) -> Option<Box<StmtV>> {
    match s {
        Some(b) => Some(Box::new(stmt_view(*b))),
        None => None,
    }
}

/// The views of expressions with one more expression pushed.
pub proof fn lemma_exprs_push(s: Seq<Expr>, e: Expr)
    ensures
        exprs_view(s.push(e)) == exprs_view(s).push(expr_view(e)),
{
    assert(s.push(e).drop_last() =~= s);
}

/// The views of statements with one more statement pushed.
pub proof fn lemma_stmts_push(s: Seq<Stmt>, x: Stmt)
    ensures
        stmts_view(s.push(x)) == stmts_view(s).push(stmt_view(x)),
{
    assert(s.push(x).drop_last() =~= s);
}

pub struct Parser {
    tokens: Vec<Token>,
    pos: usize,
}

impl Parser {
    /// The token sequence as values.
    pub closed spec fn toks(&self) -> Seq<TokenView> {
        self.tokens@.map_values(|t: Token| t@)
    }

    /// The current position in the token sequence.
    pub closed spec fn position(&self) -> nat {
        self.pos as nat
    }

    /// The parser's invariant: the position lies within the tokens.
    pub closed spec fn wf(&self) -> bool {
        self.pos <= self.tokens@.len() && self.tokens@.len() < usize::MAX
    }

    /// A parser at the start of `tokens`.
    pub fn new(tokens: Vec<Token>) -> (r: Parser)
        requires
            tokens@.len() < usize::MAX,
        ensures
            r.wf(),
            r.toks() == tokens@.map_values(|t: Token| t@),
            r.position() == 0,
    {
        Parser { tokens, pos: 0 }
    }

    fn lookahead(&self) -> (r: TokenType)
        requires
            self.wf(),
        ensures
            r == la(self.toks(), self.pos as nat),
    {
        if self.pos < self.tokens.len() {
            self.tokens[self.pos].token_type
        } else {
            TokenType::EOF
        }
    }

    fn peek_ahead(&self, offset: usize) -> (r: TokenType)
        requires
            self.wf(),
            offset <= 1,
        ensures
            r == la(self.toks(), (self.pos + offset) as nat),
    {
        let idx = self.pos + offset;
        if idx < self.tokens.len() {
            self.tokens[idx].token_type
        } else {
            TokenType::EOF
        }
    }

    fn advance(&mut self)
        requires
            old(self).wf(),
        ensures
            final(self).wf(),
            final(self).toks() == old(self).toks(),
            final(self).pos as nat == adv(old(self).toks(), old(self).pos as nat),
    {
        if self.pos < self.tokens.len() {
            self.pos = self.pos + 1;
        }
    }

    fn current_line(&self) -> (r: usize)
        requires
            self.wf(),
        ensures
            r as nat == line_at(self.toks(), self.pos as nat),
    {
        if self.pos < self.tokens.len() {
            self.tokens[self.pos].line
        } else {
            0
        }
    }

    fn current_text(&self) -> (r: String)
        requires
            self.wf(),
        ensures
            r@ == text_at(self.toks(), self.pos as nat),
    {
        if self.pos < self.tokens.len() {
            self.tokens[self.pos].lexeme.clone()
        } else {
            String::new()
        }
    }

    /// `Syntax error at line L: detail` for the current token.
    fn syntax_error(&self, detail: &str) -> (r: String)
        requires
            self.wf(),
        ensures
            r@ == syntax_error(self.toks(), self.pos as nat, detail@),
    {
        let mut r = String::from_str("Syntax error at line ");
        let line = usize_to_string(self.current_line());
        push_str(&mut r, line.as_str());
        push_str(&mut r, ": ");
        push_str(&mut r, detail);
        r
    }

    /// `expected E, found F`.
    fn expected_found(expected: &str, found: TokenType) -> (r: String)
        ensures
            r@ == expected_found(expected@, found),
    {
        let mut r = String::from_str("expected ");
        push_str(&mut r, expected);
        push_str(&mut r, ", found ");
        push_str(&mut r, found.name());
        r
    }

    /// `prefix` followed by the name of `t`.
    fn with_name(prefix: &str, t: TokenType) -> (r: String)
        ensures
            r@ == prefix@ + token_type_name(t),
    {
        let mut r = String::from_str(prefix);
        push_str(&mut r, t.name());
        r
    }

    fn match_token(&mut self, expected: TokenType) -> (r: Result<(), String>)
        requires
            old(self).wf(),
        ensures
            final(self).wf(),
            final(self).toks() == old(self).toks(),
            final(self).pos >= old(self).pos,
            r is Ok && expected != TokenType::EOF ==> final(self).pos > old(self).pos,
            unit_outcome(r, final(self).pos) == match_tok(old(self).toks(), old(self).pos as nat, expected),
    {
        let found = self.lookahead();
        if found == expected {
            self.advance();
            Ok(())
        } else {
            let detail = Self::expected_found(expected.name(), found);
            Err(self.syntax_error(detail.as_str()))
        }
    }

    fn take_identifier(&mut self) -> (r: Result<String, String>)
        requires
            old(self).wf(),
        ensures
            final(self).wf(),
            final(self).toks() == old(self).toks(),
            final(self).pos >= old(self).pos,
            r is Ok ==> final(self).pos == old(self).pos + 1,
            name_outcome(r, final(self).pos) == take_ident(old(self).toks(), old(self).pos as nat),
    {
        let found = self.lookahead();
        if found == TokenType::Identifier {
            let name = self.current_text();
            self.advance();
            Ok(name)
        } else {
            let detail = Self::expected_found("identifier", found);
            Err(self.syntax_error(detail.as_str()))
        }
    }

    fn parse_type(&mut self) -> (r: Result<Type, String>)
        requires
            old(self).wf(),
        ensures
            final(self).wf(),
            final(self).toks() == old(self).toks(),
            final(self).pos >= old(self).pos,
            r is Ok ==> final(self).pos == old(self).pos + 1,
            type_outcome(r, final(self).pos) == p_type(old(self).toks(), old(self).pos as nat),
    {
        let ty = match self.lookahead() {
            TokenType::Int => Type::Int,
            TokenType::Float => Type::Float,
            TokenType::Char => Type::Char,
            TokenType::Bool => Type::Bool,
            TokenType::String => Type::String,
            _ => {
                let detail = Self::with_name("expected type keyword, found ", self.lookahead());
                return Err(self.syntax_error(detail.as_str()));
            },
        };
        self.advance();
        Ok(ty)
    }
}

} // verus!

verus! {

impl Parser {
    fn parse_expr(&mut self) -> (r: Result<Expr, String>)
        requires
            old(self).wf(),
        ensures
            final(self).wf(),
            final(self).toks() == old(self).toks(),
            final(self).pos >= old(self).pos,
            r is Ok ==> final(self).pos > old(self).pos,
            expr_outcome(r, final(self).pos) == p_expr(old(self).toks(), old(self).pos as nat),
        decreases old(self).tokens@.len() - old(self).pos, 18nat,
    {
        self.parse_logical()
    }

    fn parse_logical(&mut self) -> (r: Result<Expr, String>)
        requires
            old(self).wf(),
        ensures
            final(self).wf(),
            final(self).toks() == old(self).toks(),
            final(self).pos >= old(self).pos,
            r is Ok ==> final(self).pos > old(self).pos,
            expr_outcome(r, final(self).pos) == p_logical(old(self).toks(), old(self).pos as nat),
        decreases old(self).tokens@.len() - old(self).pos, 17nat,
    {
        let ghost toks = self.toks();
        let ghost p0 = self.pos as nat;
        let mut left = match self.parse_comparison() {
            Ok(e) => e,
            Err(m) => return Err(m),
        };
        while self.lookahead() == TokenType::LogicalAnd || self.lookahead() == TokenType::LogicalOr
            invariant
                self.wf(),
                self.toks() == toks,
                self.pos > p0,
                p0 == old(self).pos,
                toks == old(self).toks(),
                logical_rest(toks, left@, self.pos as nat) == p_logical(toks, p0),
            decreases self.tokens@.len() - self.pos,
        {
            let op = if self.lookahead() == TokenType::LogicalAnd { BinOpKind::And } else { BinOpKind::Or };
            self.advance();
            let right = match self.parse_comparison() {
                Ok(e) => e,
                Err(m) => return Err(m),
            };
            left = Expr::BinOp { op, left: Box::new(left), right: Box::new(right) };
        }
        Ok(left)
    }

    fn parse_comparison(&mut self) -> (r: Result<Expr, String>)
        requires
            old(self).wf(),
        ensures
            final(self).wf(),
            final(self).toks() == old(self).toks(),
            final(self).pos >= old(self).pos,
            r is Ok ==> final(self).pos > old(self).pos,
            expr_outcome(r, final(self).pos) == p_comparison(old(self).toks(), old(self).pos as nat),
        decreases old(self).tokens@.len() - old(self).pos, 15nat,
    {
        let ghost toks = self.toks();
        let ghost p0 = self.pos as nat;
        let mut left = match self.parse_additive() {
            Ok(e) => e,
            Err(m) => return Err(m),
        };
        loop
            invariant
                self.wf(),
                self.toks() == toks,
                self.pos > p0,
                p0 == old(self).pos,
                toks == old(self).toks(),
                comparison_rest(toks, left@, self.pos as nat) == p_comparison(toks, p0),
            decreases self.tokens@.len() - self.pos,
        {
            let op = match self.lookahead() {
                TokenType::Equal => BinOpKind::Eq,
                TokenType::NotEqual => BinOpKind::NotEq,
                TokenType::LessThan => BinOpKind::Lt,
                TokenType::GreaterThan => BinOpKind::Gt,
                TokenType::LessEqual => BinOpKind::LtEq,
                TokenType::GreaterEqual => BinOpKind::GtEq,
                _ => return Ok(left),
            };
            self.advance();
            let right = match self.parse_additive() {
                Ok(e) => e,
                Err(m) => return Err(m),
            };
            left = Expr::BinOp { op, left: Box::new(left), right: Box::new(right) };
        }
    }

    fn parse_additive(&mut self) -> (r: Result<Expr, String>)
        requires
            old(self).wf(),
        ensures
            final(self).wf(),
            final(self).toks() == old(self).toks(),
            final(self).pos >= old(self).pos,
            r is Ok ==> final(self).pos > old(self).pos,
            expr_outcome(r, final(self).pos) == p_additive(old(self).toks(), old(self).pos as nat),
        decreases old(self).tokens@.len() - old(self).pos, 13nat,
    {
        let ghost toks = self.toks();
        let ghost p0 = self.pos as nat;
        let mut left = match self.parse_term() {
            Ok(e) => e,
            Err(m) => return Err(m),
        };
        while self.lookahead() == TokenType::Plus || self.lookahead() == TokenType::Minus
            invariant
                self.wf(),
                self.toks() == toks,
                self.pos > p0,
                p0 == old(self).pos,
                toks == old(self).toks(),
                additive_rest(toks, left@, self.pos as nat) == p_additive(toks, p0),
            decreases self.tokens@.len() - self.pos,
        {
            let op = if self.lookahead() == TokenType::Plus { BinOpKind::Add } else { BinOpKind::Sub };
            self.advance();
            let right = match self.parse_term() {
                Ok(e) => e,
                Err(m) => return Err(m),
            };
            left = Expr::BinOp { op, left: Box::new(left), right: Box::new(right) };
        }
        Ok(left)
    }

    fn parse_term(&mut self) -> (r: Result<Expr, String>)
        requires
            old(self).wf(),
        ensures
            final(self).wf(),
            final(self).toks() == old(self).toks(),
            final(self).pos >= old(self).pos,
            r is Ok ==> final(self).pos > old(self).pos,
            expr_outcome(r, final(self).pos) == p_term(old(self).toks(), old(self).pos as nat),
        decreases old(self).tokens@.len() - old(self).pos, 11nat,
    {
        let ghost toks = self.toks();
        let ghost p0 = self.pos as nat;
        let mut left = match self.parse_unary() {
            Ok(e) => e,
            Err(m) => return Err(m),
        };
        loop
            invariant
                self.wf(),
                self.toks() == toks,
                self.pos > p0,
                p0 == old(self).pos,
                toks == old(self).toks(),
                term_rest(toks, left@, self.pos as nat) == p_term(toks, p0),
            decreases self.tokens@.len() - self.pos,
        {
            let op = match self.lookahead() {
                TokenType::Multiply => BinOpKind::Mul,
                TokenType::Divide => BinOpKind::Div,
                TokenType::Modulo => BinOpKind::Mod,
                _ => return Ok(left),
            };
            self.advance();
            let right = match self.parse_unary() {
                Ok(e) => e,
                Err(m) => return Err(m),
            };
            left = Expr::BinOp { op, left: Box::new(left), right: Box::new(right) };
        }
    }

    fn parse_unary(&mut self) -> (r: Result<Expr, String>)
        requires
            old(self).wf(),
        ensures
            final(self).wf(),
            final(self).toks() == old(self).toks(),
            final(self).pos >= old(self).pos,
            r is Ok ==> final(self).pos > old(self).pos,
            expr_outcome(r, final(self).pos) == p_unary(old(self).toks(), old(self).pos as nat),
        decreases old(self).tokens@.len() - old(self).pos, 9nat,
    {
        let op = match self.lookahead() {
            TokenType::Minus => UnaryOpKind::Neg,
            TokenType::Increment => UnaryOpKind::PreInc,
            TokenType::Decrement => UnaryOpKind::PreDec,
            _ => return self.parse_factor(),
        };
        self.advance();
        match self.parse_unary() {
            Ok(operand) => Ok(Expr::UnaryOp { op, operand: Box::new(operand) }),
            Err(m) => Err(m),
        }
    }

    fn parse_factor(&mut self) -> (r: Result<Expr, String>)
        requires
            old(self).wf(),
        ensures
            final(self).wf(),
            final(self).toks() == old(self).toks(),
            final(self).pos >= old(self).pos,
            r is Ok ==> final(self).pos > old(self).pos,
            expr_outcome(r, final(self).pos) == p_factor(old(self).toks(), old(self).pos as nat),
        decreases old(self).tokens@.len() - old(self).pos, 8nat,
    {
        match self.lookahead() {
            TokenType::Identifier => self.parse_name_factor(),
            TokenType::IntegerLiteral => {
                let text = self.current_text();
                let v = match parse_i64(text.as_str()) {
                    Some(v) => v,
                    None => 0,
                };
                self.advance();
                Ok(Expr::IntLit(v))
            },
            TokenType::FloatLiteral => {
                let text = self.current_text();
                self.advance();
                Ok(Expr::FloatLit(text))
            },
            TokenType::BoolLiteral => {
                let text = self.current_text();
                let v = str_equal(text.as_str(), "true");
                self.advance();
                Ok(Expr::BoolLit(v))
            },
            TokenType::CharLiteral => {
                let text = self.current_text();
                let cs = chars_of(text.as_str());
                let v = if cs.len() > 0 { cs[0] } else { '\0' };
                self.advance();
                Ok(Expr::CharLit(v))
            },
            TokenType::StringLiteral => {
                let text = self.current_text();
                self.advance();
                Ok(Expr::StrLit(text))
            },
            TokenType::LeftParen => {
                self.advance();
                let e = match self.parse_expr() {
                    Ok(e) => e,
                    Err(m) => return Err(m),
                };
                match self.match_token(TokenType::RightParen) {
                    Ok(_) => {},
                    Err(m) => return Err(m),
                }
                Ok(e)
            },
            _ => {
                let detail = Self::with_name("unexpected token in expression: ", self.lookahead());
                Err(self.syntax_error(detail.as_str()))
            },
        }
    }

    #[verifier::rlimit(40)]
    fn parse_name_factor(&mut self) -> (r: Result<Expr, String>)
        requires
            old(self).wf(),
            la(old(self).toks(), old(self).pos as nat) == TokenType::Identifier,
        ensures
            final(self).wf(),
            final(self).toks() == old(self).toks(),
            final(self).pos >= old(self).pos,
            r is Ok ==> final(self).pos > old(self).pos,
            expr_outcome(r, final(self).pos) == p_name_factor(old(self).toks(), old(self).pos as nat),
        decreases old(self).tokens@.len() - old(self).pos, 7nat,
    {
        let name = match self.take_identifier() {
            Ok(n) => n,
            Err(m) => return Err(m),
        };
        match self.lookahead() {
            TokenType::LeftParen => {
                self.advance();
                let args = match self.parse_arg_list() {
                    Ok(a) => a,
                    Err(m) => return Err(m),
                };
                match self.match_token(TokenType::RightParen) {
                    Ok(_) => {},
                    Err(m) => return Err(m),
                }
                Ok(Expr::Call { name, args })
            },
            TokenType::LeftBracket => {
                self.advance();
                let index = match self.parse_expr() {
                    Ok(e) => e,
                    Err(m) => return Err(m),
                };
                match self.match_token(TokenType::RightBracket) {
                    Ok(_) => {},
                    Err(m) => return Err(m),
                }
                Ok(Expr::Index { name, index: Box::new(index) })
            },
            TokenType::Increment => {
                self.advance();
                {
                    let ghost n = name@;
                    let operand = Expr::Ident(name);
                    assert(expr_view(operand) == ExprV::Ident(n));
                    Ok(Expr::UnaryOp { op: UnaryOpKind::PostInc, operand: Box::new(operand) })
                }
            },
            TokenType::Decrement => {
                self.advance();
                {
                    let ghost n = name@;
                    let operand = Expr::Ident(name);
                    assert(expr_view(operand) == ExprV::Ident(n));
                    Ok(Expr::UnaryOp { op: UnaryOpKind::PostDec, operand: Box::new(operand) })
                }
            },
            _ => Ok(Expr::Ident(name)),
        }
    
    }

    fn parse_arg_list(&mut self) -> (r: Result<Vec<Expr>, String>)
        requires
            old(self).wf(),
        ensures
            final(self).wf(),
            final(self).toks() == old(self).toks(),
            final(self).pos >= old(self).pos,
            exprs_outcome(r, final(self).pos) == p_arg_list(old(self).toks(), old(self).pos as nat),
        decreases old(self).tokens@.len() - old(self).pos, 20nat,
    {
        let ghost toks = self.toks();
        let ghost p0 = self.pos as nat;
        let mut args: Vec<Expr> = Vec::new();
        if self.lookahead() == TokenType::RightParen {
            assert(exprs_view(args@) =~= Seq::<ExprV>::empty());
            return Ok(args);
        }
        let first = match self.parse_expr() {
            Ok(e) => e,
            Err(m) => return Err(m),
        };
        args.push(first);
        proof {
            lemma_exprs_push(Seq::empty(), first);
            assert(args@ =~= Seq::<Expr>::empty().push(first));
            assert(exprs_view(Seq::<Expr>::empty()) =~= Seq::<ExprV>::empty());
        }
        while self.lookahead() == TokenType::Comma
            invariant
                self.wf(),
                self.toks() == toks,
                self.pos >= p0,
                p0 == old(self).pos,
                toks == old(self).toks(),
                args_rest(toks, exprs_view(args@), self.pos as nat) == p_arg_list(toks, p0),
            decreases self.tokens@.len() - self.pos,
        {
            self.advance();
            let e = match self.parse_expr() {
                Ok(e) => e,
                Err(m) => return Err(m),
            };
            let ghost before = args@;
            args.push(e);
            proof { lemma_exprs_push(before, e); }
        }
        Ok(args)
    }

    #[verifier::rlimit(40)]
    fn parse_func_call_expr(&mut self) -> (r: Result<Expr, String>)
        requires
            old(self).wf(),
        ensures
            final(self).wf(),
            final(self).toks() == old(self).toks(),
            final(self).pos >= old(self).pos,
            r is Ok ==> final(self).pos > old(self).pos,
            expr_outcome(r, final(self).pos) == p_func_call(old(self).toks(), old(self).pos as nat),
    {
        reveal(p_func_call);
        let name = match self.take_identifier() {
            Ok(n) => n,
            Err(m) => return Err(m),
        };
        match self.match_token(TokenType::LeftParen) {
            Ok(_) => {},
            Err(m) => return Err(m),
        }
        let args = match self.parse_arg_list() {
            Ok(a) => a,
            Err(m) => return Err(m),
        };
        match self.match_token(TokenType::RightParen) {
            Ok(_) => {},
            Err(m) => return Err(m),
        }
        Ok(Expr::Call { name, args })
    }
}

} // verus!

verus! {

pub open spec fn opt_stmt_outcome(r: Result<Option<Box<Stmt>>, String>, p: usize) -> Parsed<Option<Box<StmtV>>> {
    match r {
        Ok(s) => Ok((opt_box_stmt_view(s), p as nat)),
        Err(m) => Err((m@, p as nat)),
    }
}

pub open spec fn opt_expr_outcome(r: Result<Option<Expr>, String>, p: usize) -> Parsed<Option<ExprV>> {
    match r {
        Ok(e) => Ok((opt_expr_view(e), p as nat)),
        Err(m) => Err((m@, p as nat)),
    }
}

pub open spec fn param_outcome(r: Result<Param, String>, p: usize) -> Parsed<ParamV> {
    match r {
        Ok(x) => Ok((x@, p as nat)),
        Err(m) => Err((m@, p as nat)),
    }
}

pub open spec fn function_outcome(r: Result<(Vec<Param>, Vec<Stmt>), String>, p: usize) -> Parsed<(Seq<ParamV>, Seq<StmtV>)> {
    match r {
        Ok((ps, b)) => Ok(((params_view(ps@), stmts_view(b@)), p as nat)),
        Err(m) => Err((m@, p as nat)),
    }
}

pub open spec fn preprocessor_outcome(
    r: Result<(Vec<String>, Vec<(String, String)>), String>,
    p: usize,
) -> Result<(Seq<Seq<char>>, Seq<(Seq<char>, Seq<char>)>, nat), (Seq<char>, nat)> {
    match r {
        Ok((i, d)) => Ok((i@.map_values(|s: String| s@), d@.map_values(|x: (String, String)| (x.0@, x.1@)), p as nat)),
        Err(m) => Err((m@, p as nat)),
    }
}

pub open spec fn program_outcome(r: Result<Program, String>, p: usize) -> Parsed<ProgramV> {
    match r {
        Ok(prog) => Ok((prog@, p as nat)),
        Err(m) => Err((m@, p as nat)),
    }
}

impl Parser {
    fn parse_assign_stmt(&mut self) -> (r: Result<Stmt, String>)
        requires
            old(self).wf(),
        ensures
            final(self).wf(),
            final(self).toks() == old(self).toks(),
            final(self).pos >= old(self).pos,
            r is Ok ==> final(self).pos > old(self).pos,
            stmt_outcome(r, final(self).pos) == p_assign(old(self).toks(), old(self).pos as nat),
    {
        reveal(p_assign);
        let name = match self.take_identifier() {
            Ok(n) => n,
            Err(m) => return Err(m),
        };
        match self.match_token(TokenType::Assign) {
            Ok(_) => {},
            Err(m) => return Err(m),
        }
        let value = match self.parse_expr() {
            Ok(e) => e,
            Err(m) => return Err(m),
        };
        Ok(Stmt::Assign { name, value })
    }

    #[verifier::rlimit(40)]
    fn parse_index_assign(&mut self) -> (r: Result<Stmt, String>)
        requires
            old(self).wf(),
        ensures
            final(self).wf(),
            final(self).toks() == old(self).toks(),
            final(self).pos >= old(self).pos,
            r is Ok ==> final(self).pos > old(self).pos,
            stmt_outcome(r, final(self).pos) == p_index_assign(old(self).toks(), old(self).pos as nat),
    {
        reveal(p_index_assign);
        let name = match self.take_identifier() {
            Ok(n) => n,
            Err(m) => return Err(m),
        };
        match self.match_token(TokenType::LeftBracket) {
            Ok(_) => {},
            Err(m) => return Err(m),
        }
        let index = match self.parse_expr() {
            Ok(e) => e,
            Err(m) => return Err(m),
        };
        match self.match_token(TokenType::RightBracket) {
            Ok(_) => {},
            Err(m) => return Err(m),
        }
        match self.match_token(TokenType::Assign) {
            Ok(_) => {},
            Err(m) => return Err(m),
        }
        let value = match self.parse_expr() {
            Ok(e) => e,
            Err(m) => return Err(m),
        };
        Ok(Stmt::IndexAssign { name, index, value })
    }

    fn parse_param(&mut self) -> (r: Result<Param, String>)
        requires
            old(self).wf(),
        ensures
            final(self).wf(),
            final(self).toks() == old(self).toks(),
            final(self).pos >= old(self).pos,
            r is Ok ==> final(self).pos > old(self).pos,
            param_outcome(r, final(self).pos) == p_param(old(self).toks(), old(self).pos as nat),
    {
        let ty = match self.parse_type() {
            Ok(t) => t,
            Err(m) => return Err(m),
        };
        let name = match self.take_identifier() {
            Ok(n) => n,
            Err(m) => return Err(m),
        };
        Ok(Param { ty, name })
    }

    fn parse_param_list(&mut self) -> (r: Result<Vec<Param>, String>)
        requires
            old(self).wf(),
        ensures
            final(self).wf(),
            final(self).toks() == old(self).toks(),
            final(self).pos >= old(self).pos,
            params_outcome(r, final(self).pos) == p_param_list(old(self).toks(), old(self).pos as nat),
    {
        let ghost toks = self.toks();
        let ghost p0 = self.pos as nat;
        let mut params: Vec<Param> = Vec::new();
        match self.lookahead() {
            TokenType::Int | TokenType::Float | TokenType::Char | TokenType::Bool | TokenType::String => {},
            _ => {
                assert(params_view(params@) =~= Seq::<ParamV>::empty());
                return Ok(params);
            },
        }
        let first = match self.parse_param() {
            Ok(x) => x,
            Err(m) => return Err(m),
        };
        params.push(first);
        assert(params_view(params@) =~= seq![first@]);
        while self.lookahead() == TokenType::Comma
            invariant
                self.wf(),
                self.toks() == toks,
                self.pos >= p0,
                p0 == old(self).pos,
                toks == old(self).toks(),
                params_rest(toks, params_view(params@), self.pos as nat) == p_param_list(toks, p0),
            decreases self.tokens@.len() - self.pos,
        {
            self.advance();
            let x = match self.parse_param() {
                Ok(x) => x,
                Err(m) => return Err(m),
            };
            let ghost before = params@;
            params.push(x);
            assert(params_view(params@) =~= params_view(before).push(x@));
        }
        Ok(params)
    }

    fn parse_preprocessor_list(&mut self) -> (r: Result<(Vec<String>, Vec<(String, String)>), String>)
        requires
            old(self).wf(),
        ensures
            final(self).wf(),
            final(self).toks() == old(self).toks(),
            final(self).pos >= old(self).pos,
            preprocessor_outcome(r, final(self).pos) == p_preprocessor(old(self).toks(), old(self).pos as nat, Seq::empty(), Seq::empty()),
    {
        let ghost toks = self.toks();
        let ghost p0 = self.pos as nat;
        let mut includes: Vec<String> = Vec::new();
        let mut defines: Vec<(String, String)> = Vec::new();
        assert(includes@.map_values(|s: String| s@) =~= Seq::<Seq<char>>::empty());
        assert(defines@.map_values(|x: (String, String)| (x.0@, x.1@)) =~= Seq::<(Seq<char>, Seq<char>)>::empty());
        loop
            invariant
                self.wf(),
                self.toks() == toks,
                self.pos >= p0,
                p0 == old(self).pos,
                toks == old(self).toks(),
                p_preprocessor(toks, self.pos as nat, includes@.map_values(|s: String| s@), defines@.map_values(|x: (String, String)| (x.0@, x.1@)))
                    == p_preprocessor(toks, p0, Seq::empty(), Seq::empty()),
            decreases self.tokens@.len() - self.pos,
        {
            let ghost inc = includes@.map_values(|s: String| s@);
            let ghost def = defines@.map_values(|x: (String, String)| (x.0@, x.1@));
            match self.lookahead() {
                TokenType::Include => {
                    self.advance();
                    match self.lookahead() {
                        TokenType::StringLiteral => {
                            let text = self.current_text();
                            includes.push(text);
                            self.advance();
                            assert(includes@.map_values(|s: String| s@) =~= inc.push(text@));
                        },
                        TokenType::LessThan => {
                            self.advance();
                            let ghost q = self.pos as nat;
                            let mut hdr = String::new();
                            while self.lookahead() != TokenType::GreaterThan && self.lookahead() != TokenType::EOF
                                invariant
                                    self.wf(),
                                    self.toks() == toks,
                                    self.pos >= q,
                                    p_header(toks, self.pos as nat, hdr@) == p_header(toks, q, Seq::empty()),
                                decreases self.tokens@.len() - self.pos,
                            {
                                let text = self.current_text();
                                push_str(&mut hdr, text.as_str());
                                self.advance();
                            }
                            match self.match_token(TokenType::GreaterThan) {
                                Ok(_) => {},
                                Err(m) => return Err(m),
                            }
                            includes.push(hdr);
                            assert(includes@.map_values(|s: String| s@) =~= inc.push(hdr@));
                        },
                        _ => {},
                    }
                },
                TokenType::Define => {
                    self.advance();
                    let name = match self.take_identifier() {
                        Ok(n) => n,
                        Err(m) => return Err(m),
                    };
                    let t = self.lookahead();
                    let val = if !(t == TokenType::EOF || t == TokenType::Include || t == TokenType::Define) {
                        let v = self.current_text();
                        self.advance();
                        v
                    } else {
                        String::new()
                    };
                    let ghost entry = (name@, val@);
                    defines.push((name, val));
                    assert(defines@.map_values(|x: (String, String)| (x.0@, x.1@)) =~= def.push(entry));
                },
                _ => {
                    return Ok((includes, defines));
                },
            }
        }
    }
}

} // verus!

verus! {

impl Parser {
    fn parse_stmt_list(&mut self) -> (r: Result<Vec<Stmt>, String>)
        requires
            old(self).wf(),
        ensures
            final(self).wf(),
            final(self).toks() == old(self).toks(),
            final(self).pos >= old(self).pos,
            stmts_outcome(r, final(self).pos) == p_stmt_list(old(self).toks(), old(self).pos as nat, Seq::empty()),
        decreases old(self).tokens@.len() - old(self).pos, 30nat,
    {
        let ghost toks = self.toks();
        let ghost p0 = self.pos as nat;
        let mut stmts: Vec<Stmt> = Vec::new();
        assert(stmts_view(stmts@) =~= Seq::<StmtV>::empty());
        loop
            invariant
                self.wf(),
                self.toks() == toks,
                self.pos >= p0,
                p0 == old(self).pos,
                toks == old(self).toks(),
                p_stmt_list(toks, self.pos as nat, stmts_view(stmts@)) == p_stmt_list(toks, p0, Seq::empty()),
            decreases self.tokens@.len() - self.pos,
        {
            match self.lookahead() {
                TokenType::Int | TokenType::Float | TokenType::Char | TokenType::Bool | TokenType::String
                | TokenType::Identifier | TokenType::If | TokenType::While | TokenType::For
                | TokenType::Return | TokenType::LeftBrace => {
                    let s = match self.parse_stmt() {
                        Ok(s) => s,
                        Err(m) => return Err(m),
                    };
                    let ghost before = stmts@;
                    stmts.push(s);
                    proof { lemma_stmts_push(before, s); }
                },
                _ => return Ok(stmts),
            }
        }
    }

    /// `;` after a simple statement.
    fn semicolon_after(&mut self, s: Stmt) -> (r: Result<Stmt, String>)
        requires
            old(self).wf(),
        ensures
            final(self).wf(),
            final(self).toks() == old(self).toks(),
            final(self).pos >= old(self).pos,
            r is Ok ==> final(self).pos > old(self).pos,
            stmt_outcome(r, final(self).pos) == then_semicolon(old(self).toks(), Ok((s@, old(self).pos as nat))),
    {
        match self.match_token(TokenType::Semicolon) {
            Ok(_) => Ok(s),
            Err(m) => Err(m),
        }
    }

    fn parse_inc_dec(&mut self, op: UnaryOpKind) -> (r: Result<Stmt, String>)
        requires
            old(self).wf(),
        ensures
            final(self).wf(),
            final(self).toks() == old(self).toks(),
            final(self).pos >= old(self).pos,
            r is Ok ==> final(self).pos > old(self).pos,
            stmt_outcome(r, final(self).pos) == p_inc_dec(old(self).toks(), old(self).pos as nat, op),
    {
        reveal(p_inc_dec);
        let name = match self.take_identifier() {
            Ok(n) => n,
            Err(m) => return Err(m),
        };
        self.advance();
        self.semicolon_after(Stmt::IncDec { name, op })
    }

    #[verifier::rlimit(60)]
    fn parse_stmt(&mut self) -> (r: Result<Stmt, String>)
        requires
            old(self).wf(),
        ensures
            final(self).wf(),
            final(self).toks() == old(self).toks(),
            final(self).pos >= old(self).pos,
            r is Ok ==> final(self).pos > old(self).pos,
            stmt_outcome(r, final(self).pos) == p_stmt(old(self).toks(), old(self).pos as nat),
        decreases old(self).tokens@.len() - old(self).pos, 29nat,
    {
        match self.lookahead() {
            TokenType::Int | TokenType::Float | TokenType::Char | TokenType::Bool | TokenType::String => self.parse_decl(),
            TokenType::Identifier => self.parse_ident_stmt(),
            TokenType::If => self.parse_if(),
            TokenType::While => self.parse_while(),
            TokenType::For => self.parse_for(),
            TokenType::Return => self.parse_return(),
            TokenType::LeftBrace => match self.parse_block() {
                Ok(b) => Ok(Stmt::Block(b)),
                Err(m) => Err(m),
            },
            _ => {
                let detail = Self::with_name("unexpected token ", self.lookahead());
                Err(self.syntax_error(detail.as_str()))
            },
        }
    }

    #[verifier::rlimit(60)]
    fn parse_ident_stmt(&mut self) -> (r: Result<Stmt, String>)
        requires
            old(self).wf(),
            la(old(self).toks(), old(self).pos as nat) == TokenType::Identifier,
        ensures
            final(self).wf(),
            final(self).toks() == old(self).toks(),
            final(self).pos >= old(self).pos,
            r is Ok ==> final(self).pos > old(self).pos,
            stmt_outcome(r, final(self).pos) == p_ident_stmt(old(self).toks(), old(self).pos as nat),
    {
        match self.peek_ahead(1) {
            TokenType::LeftParen => {
                let call = match self.parse_func_call_expr() {
                    Ok(c) => c,
                    Err(m) => return Err(m),
                };
                self.semicolon_after(Stmt::ExprStmt(call))
            },
            TokenType::Assign => {
                let s = match self.parse_assign_stmt() {
                    Ok(s) => s,
                    Err(m) => return Err(m),
                };
                self.semicolon_after(s)
            },
            TokenType::LeftBracket => {
                let s = match self.parse_index_assign() {
                    Ok(s) => s,
                    Err(m) => return Err(m),
                };
                self.semicolon_after(s)
            },
            TokenType::Increment => self.parse_inc_dec(UnaryOpKind::PostInc),
            TokenType::Decrement => self.parse_inc_dec(UnaryOpKind::PostDec),
            _ => {
                let detail = Self::with_name("unexpected token after identifier: ", self.peek_ahead(1));
                Err(self.syntax_error(detail.as_str()))
            },
        }
    }

    fn parse_return(&mut self) -> (r: Result<Stmt, String>)
        requires
            old(self).wf(),
            la(old(self).toks(), old(self).pos as nat) == TokenType::Return,
        ensures
            final(self).wf(),
            final(self).toks() == old(self).toks(),
            final(self).pos >= old(self).pos,
            r is Ok ==> final(self).pos > old(self).pos,
            stmt_outcome(r, final(self).pos) == p_return(old(self).toks(), old(self).pos as nat),
    {
        {
            self.advance();
            if self.lookahead() == TokenType::Semicolon {
                self.advance();
                Ok(Stmt::Return(None))
            } else {
                let e = match self.parse_expr() {
                    Ok(e) => e,
                    Err(m) => return Err(m),
                };
                self.semicolon_after(Stmt::Return(Some(e)))
            }
        }
    }

    #[verifier::rlimit(60)]
    fn parse_decl(&mut self) -> (r: Result<Stmt, String>)
        requires
            old(self).wf(),
        ensures
            final(self).wf(),
            final(self).toks() == old(self).toks(),
            final(self).pos >= old(self).pos,
            r is Ok ==> final(self).pos > old(self).pos,
            stmt_outcome(r, final(self).pos) == p_decl(old(self).toks(), old(self).pos as nat),
        decreases old(self).tokens@.len() - old(self).pos, 28nat,
    {
        let ty = match self.parse_type() {
            Ok(t) => t,
            Err(m) => return Err(m),
        };
        let name = match self.take_identifier() {
            Ok(n) => n,
            Err(m) => return Err(m),
        };
        match self.lookahead() {
            TokenType::Semicolon => {
                self.advance();
                Ok(Stmt::VarDecl { ty, name, init: None })
            },
            TokenType::Assign => {
                self.advance();
                let init = match self.parse_expr() {
                    Ok(e) => e,
                    Err(m) => return Err(m),
                };
                self.semicolon_after(Stmt::VarDecl { ty, name, init: Some(init) })
            },
            TokenType::LeftBracket => {
                self.advance();
                let size = match self.parse_expr() {
                    Ok(e) => e,
                    Err(m) => return Err(m),
                };
                match self.match_token(TokenType::RightBracket) {
                    Ok(_) => {},
                    Err(m) => return Err(m),
                }
                self.semicolon_after(Stmt::ArrayDecl { ty, name, size })
            },
            TokenType::LeftParen => {
                let (params, body) = match self.parse_function() {
                    Ok(f) => f,
                    Err(m) => return Err(m),
                };
                Ok(Stmt::FuncDecl { ty, name, params, body })
            },
            _ => {
                let detail = Self::with_name("expected ';', '=', '[', or '(' after identifier, found ", self.lookahead());
                Err(self.syntax_error(detail.as_str()))
            },
        }
    }

    fn parse_function(&mut self) -> (r: Result<(Vec<Param>, Vec<Stmt>), String>)
        requires
            old(self).wf(),
        ensures
            final(self).wf(),
            final(self).toks() == old(self).toks(),
            final(self).pos >= old(self).pos,
            r is Ok ==> final(self).pos > old(self).pos,
            function_outcome(r, final(self).pos) == p_function(old(self).toks(), old(self).pos as nat),
        decreases old(self).tokens@.len() - old(self).pos, 27nat,
    {
        match self.match_token(TokenType::LeftParen) {
            Ok(_) => {},
            Err(m) => return Err(m),
        }
        let params = match self.parse_param_list() {
            Ok(p) => p,
            Err(m) => return Err(m),
        };
        match self.match_token(TokenType::RightParen) {
            Ok(_) => {},
            Err(m) => return Err(m),
        }
        let body = match self.parse_block() {
            Ok(b) => b,
            Err(m) => return Err(m),
        };
        Ok((params, body))
    }

    fn parse_block(&mut self) -> (r: Result<Vec<Stmt>, String>)
        requires
            old(self).wf(),
        ensures
            final(self).wf(),
            final(self).toks() == old(self).toks(),
            final(self).pos >= old(self).pos,
            r is Ok ==> final(self).pos > old(self).pos,
            stmts_outcome(r, final(self).pos) == p_block(old(self).toks(), old(self).pos as nat),
        decreases old(self).tokens@.len() - old(self).pos, 26nat,
    {
        match self.match_token(TokenType::LeftBrace) {
            Ok(_) => {},
            Err(m) => return Err(m),
        }
        let stmts = match self.parse_stmt_list() {
            Ok(s) => s,
            Err(m) => return Err(m),
        };
        match self.match_token(TokenType::RightBrace) {
            Ok(_) => {},
            Err(m) => return Err(m),
        }
        Ok(stmts)
    }

    fn parse_condition(&mut self) -> (r: Result<Expr, String>)
        requires
            old(self).wf(),
        ensures
            final(self).wf(),
            final(self).toks() == old(self).toks(),
            final(self).pos >= old(self).pos,
            r is Ok ==> final(self).pos > old(self).pos,
            expr_outcome(r, final(self).pos) == p_condition(old(self).toks(), old(self).pos as nat),
    {
        match self.match_token(TokenType::LeftParen) {
            Ok(_) => {},
            Err(m) => return Err(m),
        }
        let c = match self.parse_expr() {
            Ok(e) => e,
            Err(m) => return Err(m),
        };
        match self.match_token(TokenType::RightParen) {
            Ok(_) => {},
            Err(m) => return Err(m),
        }
        Ok(c)
    }

    #[verifier::rlimit(60)]
    fn parse_if(&mut self) -> (r: Result<Stmt, String>)
        requires
            old(self).wf(),
        ensures
            final(self).wf(),
            final(self).toks() == old(self).toks(),
            final(self).pos >= old(self).pos,
            r is Ok ==> final(self).pos > old(self).pos,
            stmt_outcome(r, final(self).pos) == p_if(old(self).toks(), old(self).pos as nat),
        decreases old(self).tokens@.len() - old(self).pos, 27nat,
    {
        match self.match_token(TokenType::If) {
            Ok(_) => {},
            Err(m) => return Err(m),
        }
        let condition = match self.parse_condition() {
            Ok(c) => c,
            Err(m) => return Err(m),
        };
        let then_block = match self.parse_block() {
            Ok(b) => b,
            Err(m) => return Err(m),
        };
        let else_block = if self.lookahead() == TokenType::Else {
            self.advance();
            if self.lookahead() == TokenType::If {
                let s = match self.parse_if() {
                    Ok(s) => s,
                    Err(m) => return Err(m),
                };
                let mut v: Vec<Stmt> = Vec::new();
                v.push(s);
                proof { lemma_stmts_push(Seq::empty(), s); assert(v@ =~= Seq::<Stmt>::empty().push(s)); assert(stmts_view(Seq::<Stmt>::empty()) =~= Seq::<StmtV>::empty()); }
                Some(v)
            } else {
                match self.parse_block() {
                    Ok(b) => Some(b),
                    Err(m) => return Err(m),
                }
            }
        } else {
            None
        };
        Ok(Stmt::If { condition, then_block, else_block })
    }

    #[verifier::rlimit(40)]
    fn parse_while(&mut self) -> (r: Result<Stmt, String>)
        requires
            old(self).wf(),
        ensures
            final(self).wf(),
            final(self).toks() == old(self).toks(),
            final(self).pos >= old(self).pos,
            r is Ok ==> final(self).pos > old(self).pos,
            stmt_outcome(r, final(self).pos) == p_while(old(self).toks(), old(self).pos as nat),
        decreases old(self).tokens@.len() - old(self).pos, 27nat,
    {
        match self.match_token(TokenType::While) {
            Ok(_) => {},
            Err(m) => return Err(m),
        }
        let condition = match self.parse_condition() {
            Ok(c) => c,
            Err(m) => return Err(m),
        };
        let body = match self.parse_block() {
            Ok(b) => b,
            Err(m) => return Err(m),
        };
        Ok(Stmt::While { condition, body })
    }

    #[verifier::rlimit(40)]
    fn parse_for_init(&mut self) -> (r: Result<Option<Box<Stmt>>, String>)
        requires
            old(self).wf(),
        ensures
            final(self).wf(),
            final(self).toks() == old(self).toks(),
            final(self).pos >= old(self).pos,
            opt_stmt_outcome(r, final(self).pos) == p_for_init(old(self).toks(), old(self).pos as nat),
    {
        match self.lookahead() {
            TokenType::Int | TokenType::Float | TokenType::Char | TokenType::Bool | TokenType::String => {
                let ty = match self.parse_type() {
                    Ok(t) => t,
                    Err(m) => return Err(m),
                };
                let name = match self.take_identifier() {
                    Ok(n) => n,
                    Err(m) => return Err(m),
                };
                let init_expr = if self.lookahead() == TokenType::Assign {
                    self.advance();
                    match self.parse_expr() {
                        Ok(e) => Some(e),
                        Err(m) => return Err(m),
                    }
                } else {
                    None
                };
                Ok(Some(Box::new(Stmt::VarDecl { ty, name, init: init_expr })))
            },
            TokenType::Identifier => match self.parse_assign_stmt() {
                Ok(s) => Ok(Some(Box::new(s))),
                Err(m) => Err(m),
            },
            _ => Ok(None),
        }
    }

    fn parse_for_condition(&mut self) -> (r: Result<Option<Expr>, String>)
        requires
            old(self).wf(),
        ensures
            final(self).wf(),
            final(self).toks() == old(self).toks(),
            final(self).pos >= old(self).pos,
            opt_expr_outcome(r, final(self).pos) == p_for_condition(old(self).toks(), old(self).pos as nat),
    {
        if self.lookahead() != TokenType::Semicolon {
            match self.parse_expr() {
                Ok(e) => Ok(Some(e)),
                Err(m) => Err(m),
            }
        } else {
            Ok(None)
        }
    }

    #[verifier::rlimit(40)]
    fn parse_for_update(&mut self) -> (r: Result<Option<Box<Stmt>>, String>)
        requires
            old(self).wf(),
        ensures
            final(self).wf(),
            final(self).toks() == old(self).toks(),
            final(self).pos >= old(self).pos,
            opt_stmt_outcome(r, final(self).pos) == p_for_update(old(self).toks(), old(self).pos as nat),
    {
        if self.lookahead() != TokenType::RightParen {
            match self.peek_ahead(1) {
                TokenType::Increment => {
                    let name = match self.take_identifier() {
                        Ok(n) => n,
                        Err(m) => return Err(m),
                    };
                    self.advance();
                    Ok(Some(Box::new(Stmt::IncDec { name, op: UnaryOpKind::PostInc })))
                },
                TokenType::Decrement => {
                    let name = match self.take_identifier() {
                        Ok(n) => n,
                        Err(m) => return Err(m),
                    };
                    self.advance();
                    Ok(Some(Box::new(Stmt::IncDec { name, op: UnaryOpKind::PostDec })))
                },
                _ => match self.parse_assign_stmt() {
                    Ok(s) => Ok(Some(Box::new(s))),
                    Err(m) => Err(m),
                },
            }
        } else {
            Ok(None)
        }
    }

    #[verifier::rlimit(80)]
    fn parse_for(&mut self) -> (r: Result<Stmt, String>)
        requires
            old(self).wf(),
        ensures
            final(self).wf(),
            final(self).toks() == old(self).toks(),
            final(self).pos >= old(self).pos,
            r is Ok ==> final(self).pos > old(self).pos,
            stmt_outcome(r, final(self).pos) == p_for(old(self).toks(), old(self).pos as nat),
        decreases old(self).tokens@.len() - old(self).pos, 27nat,
    {
        match self.match_token(TokenType::For) {
            Ok(_) => {},
            Err(m) => return Err(m),
        }
        match self.match_token(TokenType::LeftParen) {
            Ok(_) => {},
            Err(m) => return Err(m),
        }
        let init = match self.parse_for_init() {
            Ok(i) => i,
            Err(m) => return Err(m),
        };
        match self.match_token(TokenType::Semicolon) {
            Ok(_) => {},
            Err(m) => return Err(m),
        }
        let condition = match self.parse_for_condition() {
            Ok(c) => c,
            Err(m) => return Err(m),
        };
        match self.match_token(TokenType::Semicolon) {
            Ok(_) => {},
            Err(m) => return Err(m),
        }
        let update = match self.parse_for_update() {
            Ok(u) => u,
            Err(m) => return Err(m),
        };
        match self.match_token(TokenType::RightParen) {
            Ok(_) => {},
            Err(m) => return Err(m),
        }
        let body = match self.parse_block() {
            Ok(b) => b,
            Err(m) => return Err(m),
        };
        Ok(Stmt::For { init, condition, update, body })
    }

    /// Parse a whole program: preprocessor lines, statements, then EOF.
    pub fn parse_program(&mut self) -> (r: Result<Program, String>)
        requires
            old(self).wf(),
        ensures
            final(self).wf(),
            final(self).toks() == old(self).toks(),
            program_outcome(r, final(self).position() as usize) == p_program(old(self).toks(), old(self).position()),
    {
        let (includes, defines) = match self.parse_preprocessor_list() {
            Ok(x) => x,
            Err(m) => return Err(m),
        };
        let stmts = match self.parse_stmt_list() {
            Ok(s) => s,
            Err(m) => return Err(m),
        };
        match self.match_token(TokenType::EOF) {
            Ok(_) => {},
            Err(m) => return Err(m),
        }
        Ok(Program { includes, defines, stmts })
    }
}

} // verus!

verus! {

/// The operator node that a comparison token stands for, as the language
/// defines it: `==`, `!=`, `<`, `>`, `<=`, `>=` give `Eq`, `NotEq`, `Lt`,
/// `Gt`, `LtEq`, `GtEq`.
pub open spec fn comparison_kind_of(t: TokenType) -> BinOpKind {
    if t == TokenType::Equal { BinOpKind::Eq }
    else if t == TokenType::NotEqual { BinOpKind::NotEq }
    else if t == TokenType::LessThan { BinOpKind::Lt }
    else if t == TokenType::GreaterThan { BinOpKind::Gt }
    else if t == TokenType::LessEqual { BinOpKind::LtEq }
    else { BinOpKind::GtEq }
}

/// Whether `t` is one of the six comparison tokens.
pub open spec fn is_comparison_token(t: TokenType) -> bool {
    t == TokenType::Equal || t == TokenType::NotEqual || t == TokenType::LessThan
        || t == TokenType::GreaterThan || t == TokenType::LessEqual || t == TokenType::GreaterEqual
}

/// Each comparison token gives its own operator: when the token after a
/// left operand is a comparison token and a right operand follows, the
/// comparison goes on with the node of that token's operator (`<=` gives
/// `LtEq`, `>=` gives `GtEq`, and so on) over the two operands.
pub proof fn law_comparison_operators(toks: Seq<TokenView>, left: ExprV, p: nat, right: ExprV, p2: nat)
    requires
        is_comparison_token(la(toks, p)),
        p_additive(toks, adv(toks, p)) == Ok::<(ExprV, nat), (Seq<char>, nat)>((right, p2)),
        p < p2,
    ensures
        comparison_rest(toks, left, p)
            == comparison_rest(toks, ExprV::BinOp(comparison_kind_of(la(toks, p)), Box::new(left), Box::new(right)), p2),
{
}

/// Any other token ends a comparison with the left operand as it is.
pub proof fn law_comparison_ends_at_other_tokens(toks: Seq<TokenView>, left: ExprV, p: nat)
    requires
        !is_comparison_token(la(toks, p)),
    ensures
        comparison_rest(toks, left, p) == Ok::<(ExprV, nat), (Seq<char>, nat)>((left, p)),
{
}

/// `+` and `-` between terms give `Add` and `Sub` nodes.
pub proof fn law_additive_operators(toks: Seq<TokenView>, left: ExprV, p: nat, right: ExprV, p2: nat)
    requires
        la(toks, p) == TokenType::Plus || la(toks, p) == TokenType::Minus,
        p_term(toks, adv(toks, p)) == Ok::<(ExprV, nat), (Seq<char>, nat)>((right, p2)),
        p < p2,
    ensures
        la(toks, p) == TokenType::Plus ==> additive_rest(toks, left, p)
            == additive_rest(toks, ExprV::BinOp(BinOpKind::Add, Box::new(left), Box::new(right)), p2),
        la(toks, p) == TokenType::Minus ==> additive_rest(toks, left, p)
            == additive_rest(toks, ExprV::BinOp(BinOpKind::Sub, Box::new(left), Box::new(right)), p2),
{
}

/// `*`, `/` and `%` between factors give `Mul`, `Div` and `Mod` nodes.
pub proof fn law_term_operators(toks: Seq<TokenView>, left: ExprV, p: nat, right: ExprV, p2: nat)
    requires
        la(toks, p) == TokenType::Multiply || la(toks, p) == TokenType::Divide || la(toks, p) == TokenType::Modulo,
        p_unary(toks, adv(toks, p)) == Ok::<(ExprV, nat), (Seq<char>, nat)>((right, p2)),
        p < p2,
    ensures
        la(toks, p) == TokenType::Multiply ==> term_rest(toks, left, p)
            == term_rest(toks, ExprV::BinOp(BinOpKind::Mul, Box::new(left), Box::new(right)), p2),
        la(toks, p) == TokenType::Divide ==> term_rest(toks, left, p)
            == term_rest(toks, ExprV::BinOp(BinOpKind::Div, Box::new(left), Box::new(right)), p2),
        la(toks, p) == TokenType::Modulo ==> term_rest(toks, left, p)
            == term_rest(toks, ExprV::BinOp(BinOpKind::Mod, Box::new(left), Box::new(right)), p2),
{
}

/// `&&` and `||` between comparisons give `And` and `Or` nodes.
pub proof fn law_logical_operators(toks: Seq<TokenView>, left: ExprV, p: nat, right: ExprV, p2: nat)
    requires
        la(toks, p) == TokenType::LogicalAnd || la(toks, p) == TokenType::LogicalOr,
        p_comparison(toks, adv(toks, p)) == Ok::<(ExprV, nat), (Seq<char>, nat)>((right, p2)),
        p < p2,
    ensures
        la(toks, p) == TokenType::LogicalAnd ==> logical_rest(toks, left, p)
            == logical_rest(toks, ExprV::BinOp(BinOpKind::And, Box::new(left), Box::new(right)), p2),
        la(toks, p) == TokenType::LogicalOr ==> logical_rest(toks, left, p)
            == logical_rest(toks, ExprV::BinOp(BinOpKind::Or, Box::new(left), Box::new(right)), p2),
{
}

/// A prefix `-`, `++` or `--` gives a `Neg`, `PreInc` or `PreDec` node over
/// the operand that follows.
pub proof fn law_prefix_operators(toks: Seq<TokenView>, p: nat, operand: ExprV, p2: nat)
    requires
        p_unary(toks, adv(toks, p)) == Ok::<(ExprV, nat), (Seq<char>, nat)>((operand, p2)),
    ensures
        la(toks, p) == TokenType::Minus ==> p_unary(toks, p)
            == Ok::<(ExprV, nat), (Seq<char>, nat)>((ExprV::UnaryOp(UnaryOpKind::Neg, Box::new(operand)), p2)),
        la(toks, p) == TokenType::Increment ==> p_unary(toks, p)
            == Ok::<(ExprV, nat), (Seq<char>, nat)>((ExprV::UnaryOp(UnaryOpKind::PreInc, Box::new(operand)), p2)),
        la(toks, p) == TokenType::Decrement ==> p_unary(toks, p)
            == Ok::<(ExprV, nat), (Seq<char>, nat)>((ExprV::UnaryOp(UnaryOpKind::PreDec, Box::new(operand)), p2)),
{
}

} // verus!
