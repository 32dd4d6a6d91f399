use mcpp_compiler::lexer::{Lexer, Token, TokenType, SymbolTable};

fn lex(src: &str) -> (Result<(), String>, Vec<(TokenType, String, usize, usize)>) {
    let mut lexer = Lexer::new(src.to_string());
    let r = lexer.tokenize();
    let toks = lexer
        .get_tokens()
        .iter()
        .map(|t| (t.token_type, t.lexeme.clone(), t.line, t.column))
        .collect();
    (r, toks)
}

#[test]
fn declaration_tokens_and_positions() {
    let (r, toks) = lex("int x = 5;");
    assert_eq!(r, Ok(()));
    assert_eq!(
        toks,
        vec![
            (TokenType::Int, "int".to_string(), 1, 1),
            (TokenType::Identifier, "x".to_string(), 1, 5),
            (TokenType::Assign, "=".to_string(), 1, 7),
            (TokenType::IntegerLiteral, "5".to_string(), 1, 9),
            (TokenType::Semicolon, ";".to_string(), 1, 10),
            (TokenType::EOF, "EOF".to_string(), 1, 11),
        ]
    );
}

#[test]
fn comments_are_skipped_and_lines_counted() {
    let (r, toks) = lex("// note\nfloat y; /* a\nb */ y");
    assert_eq!(r, Ok(()));
    let types: Vec<TokenType> = toks.iter().map(|t| t.0).collect();
    assert_eq!(
        types,
        vec![TokenType::Float, TokenType::Identifier, TokenType::Semicolon, TokenType::Identifier, TokenType::EOF]
    );
    assert_eq!(toks[0].2, 2);
    assert_eq!(toks[3].2, 3);
    assert!(toks.iter().all(|t| t.0 != TokenType::Comment));
}

#[test]
fn multi_character_operators_come_first() {
    let (r, toks) = lex("a<=b && c!=d || e++");
    assert_eq!(r, Ok(()));
    let types: Vec<TokenType> = toks.iter().map(|t| t.0).collect();
    assert_eq!(
        types,
        vec![
            TokenType::Identifier,
            TokenType::LessEqual,
            TokenType::Identifier,
            TokenType::LogicalAnd,
            TokenType::Identifier,
            TokenType::NotEqual,
            TokenType::Identifier,
            TokenType::LogicalOr,
            TokenType::Identifier,
            TokenType::Increment,
            TokenType::EOF,
        ]
    );
}

#[test]
fn literals_are_recognised() {
    let (r, toks) = lex("3.14 42 'c' \"hi\" true");
    assert_eq!(r, Ok(()));
    let types: Vec<TokenType> = toks.iter().map(|t| t.0).collect();
    assert_eq!(
        types,
        vec![
            TokenType::FloatLiteral,
            TokenType::IntegerLiteral,
            TokenType::CharLiteral,
            TokenType::StringLiteral,
            TokenType::BoolLiteral,
            TokenType::EOF,
        ]
    );
    assert_eq!(toks[3].1, "\"hi\"");
}

#[test]
fn invalid_character_is_an_error() {
    let (r, toks) = lex("int @");
    assert_eq!(r, Err("Lexical Error: Invalid character '@' at line 1, column 5".to_string()));
    assert_eq!(toks.len(), 1);
    assert_eq!(toks[0].0, TokenType::Int);
}

#[test]
fn empty_source_gives_only_eof() {
    let (r, toks) = lex("   \n ");
    assert_eq!(r, Ok(()));
    assert_eq!(toks, vec![(TokenType::EOF, "EOF".to_string(), 2, 2)]);
}

#[test]
fn symbol_table_records_identifiers_with_pending_type() {
    let mut lexer = Lexer::new("int x; y = x; if (x) {}".to_string());
    assert_eq!(lexer.tokenize(), Ok(()));
    let syms = lexer.get_symbol_table().get_symbols();
    let rows: Vec<(String, String, String, String, usize)> = syms
        .iter()
        .map(|s| (s.name.clone(), s.symbol_type.clone(), s.data_type.clone(), s.scope.clone(), s.line))
        .collect();
    assert_eq!(
        rows,
        vec![
            ("x".to_string(), "variable".to_string(), "int".to_string(), "global".to_string(), 1),
            ("y".to_string(), "variable".to_string(), "unknown".to_string(), "global".to_string(), 1),
            ("x".to_string(), "variable".to_string(), "unknown".to_string(), "global".to_string(), 1),
            ("x".to_string(), "variable".to_string(), "unknown".to_string(), "global".to_string(), 1),
        ]
    );
}

#[test]
fn compiler_format_of_a_token() {
    let t = Token::new(TokenType::Identifier, "count".to_string(), 3, 14);
    assert_eq!(t.to_compiler_format(), "<Identifier, count, 3, 14>");
}

#[test]
fn symbol_table_scope() {
    let mut st = SymbolTable::new();
    st.add_symbol("a".to_string(), "variable".to_string(), "int".to_string(), 1);
    st.set_scope("main".to_string());
    st.add_symbol("b".to_string(), "function".to_string(), "void".to_string(), 2);
    let s = st.get_symbols();
    assert_eq!(s.len(), 2);
    assert_eq!(s[0].scope, "global");
    assert_eq!(s[1].scope, "main");
    assert_eq!(s[1].line, 2);
}

#[test]
fn non_ascii_character_is_reported() {
    let (r, toks) = lex("x é");
    assert_eq!(r, Err("Lexical Error: Invalid character 'é' at line 1, column 3".to_string()));
    assert_eq!(toks, vec![(TokenType::Identifier, "x".to_string(), 1, 1)]);
}

#[test]
fn scan_after_non_ascii_literal_reads_by_bytes() {
    // The position counts characters and the patterns see the input from
    // that byte on: after the literal, the scan stands on the blank.
    let (r, toks) = lex("\"é\" x");
    assert_eq!(r, Err("Lexical Error: Invalid character 'x' at line 1, column 5".to_string()));
    assert_eq!(toks, vec![(TokenType::StringLiteral, "\"é\"".to_string(), 1, 1)]);
}

#[test]
fn scan_that_cannot_go_on() {
    let mut lexer = Lexer::new("\"é\"".to_string());
    assert_eq!(lexer.try_tokenize(), None);
    let mut ascii = Lexer::new("int a;".to_string());
    assert_eq!(ascii.try_tokenize(), Some(Ok(())));
    assert_eq!(ascii.get_tokens().len(), 4);
}
