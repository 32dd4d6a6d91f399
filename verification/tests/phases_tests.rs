use mcpp_compiler::code_gen::CodeGenerator;
use mcpp_compiler::phases::{IntermediateGenerator, SemanticAnalyzer};
use mcpp_compiler::syntax_check::syntax_analyzer;
use mcpp_compiler::token_classes::{analyze_words, classify, TokenClass};

fn lines(v: &[&str]) -> Option<Vec<String>> {
    Some(v.iter().map(|s| s.to_string()).collect())
}

#[test]
fn semantic_declarations_and_checks() {
    let mut sa = SemanticAnalyzer::new();
    assert_eq!(sa.step("int a,b;\n"), lines(&["Declared: a", "Declared: b"]));
    assert_eq!(sa.step("a = 5;"), lines(&["OK: a = 5"]));
    assert_eq!(sa.step("c = 1"), lines(&["ERROR: c not declared"]));
    assert_eq!(sa.step("int a;"), lines(&["ERROR: a already declared"]));
    assert_eq!(sa.step("   "), lines(&[]));
    assert_eq!(sa.step("int"), lines(&["Invalid declaration"]));
    assert_eq!(sa.step("print x"), lines(&["Invalid statement"]));
    assert_eq!(sa.symbols, vec!["a".to_string(), "b".to_string()]);
    assert_eq!(sa.step("EXIT "), None);
}

#[test]
fn semantic_declaration_without_semicolon_and_spaces() {
    let mut sa = SemanticAnalyzer::new();
    assert_eq!(sa.step("int x , y"), lines(&["Declared: x"]));
    assert_eq!(sa.symbols, vec!["x".to_string()]);
}

#[test]
fn intermediate_code_for_additions() {
    let mut ig = IntermediateGenerator::new();
    assert_eq!(ig.step("x = a + b;"), lines(&["t1 = a + b", "x = t1"]));
    assert_eq!(ig.step("y = c + d"), lines(&["t2 = c + d", "y = t2"]));
    assert_eq!(ig.step("z = w"), lines(&["z = w"]));
    assert_eq!(ig.step("x = a * b"), lines(&["x = a * b"]));
    assert_eq!(ig.step("a+b=c"), lines(&[]));
    assert_eq!(ig.step("a + b"), lines(&["Invalid statement"]));
    assert_eq!(ig.temp, 3);
    assert_eq!(ig.step("exit"), None);
}

#[test]
fn code_for_assignment_respects_precedence() {
    let mut cg = CodeGenerator::new();
    assert_eq!(cg.parse_and_generate("x = a + b * c"), lines(&["t1 = b * c", "t2 = a + t1", "x = t2"]));
    cg.reset();
    assert_eq!(cg.parse_and_generate("(a + b) * c"), lines(&["t1 = a + b", "t2 = t1 * c"]));
    cg.reset();
    assert_eq!(cg.parse_and_generate("y = a - b - c"), lines(&["t1 = a - b", "t2 = t1 - c", "y = t2"]));
}

#[test]
fn code_generation_that_would_not_end() {
    let mut cg = CodeGenerator::new();
    assert_eq!(cg.parse_and_generate("- a"), None);
}

#[test]
fn temporaries_continue_without_reset() {
    let mut cg = CodeGenerator::new();
    assert_eq!(cg.parse_and_generate("a + b"), lines(&["t1 = a + b"]));
    assert_eq!(cg.temp_count, 1);
    cg.reset();
    assert_eq!(cg.temp_count, 0);
    assert!(cg.operand_stack.is_empty());
}

#[test]
fn assignment_syntax() {
    assert_eq!(syntax_analyzer("x = a + 5"), (true, "x = a + 5".to_string()));
    assert_eq!(syntax_analyzer("  y=z  "), (true, "y=z".to_string()));
    assert_eq!(syntax_analyzer("x = = 3"), (false, "x = = 3".to_string()));
    assert_eq!(syntax_analyzer("1x = 2"), (false, "1x = 2".to_string()));
}

#[test]
fn word_classes() {
    assert!(classify("while") == TokenClass::Keyword);
    assert!(classify("<") == TokenClass::Operator);
    assert!(classify("{") == TokenClass::Delimiter);
    assert!(classify("123") == TokenClass::Number);
    assert!(classify("x1") == TokenClass::Identifier);
    let words = analyze_words("int x = 10;");
    let shown: Vec<(String, &str)> = words.iter().map(|(w, c)| (w.clone(), c.name())).collect();
    assert_eq!(
        shown,
        vec![
            ("int".to_string(), "KEYWORD"),
            ("x".to_string(), "IDENTIFIER"),
            ("=".to_string(), "OPERATOR"),
            ("10".to_string(), "NUMBER"),
            (";".to_string(), "DELIMITER"),
        ]
    );
}

#[test]
fn operator_with_too_few_operands_does_nothing() {
    let mut cg = CodeGenerator::new();
    assert_eq!(cg.process_operator(), None);
    cg.operand_stack.push("a".to_string());
    assert_eq!(cg.process_operator(), None);
    assert_eq!(cg.operand_stack, vec!["a".to_string()]);
    assert_eq!(cg.temp_count, 0);
    cg.operand_stack.push("b".to_string());
    cg.operator_stack.push("*".to_string());
    assert_eq!(cg.process_operator(), Some("t1 = a * b".to_string()));
    assert_eq!(cg.operand_stack, vec!["t1".to_string()]);
}
