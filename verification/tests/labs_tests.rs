use mcpp_compiler::allocation::AllocationSystem;
use mcpp_compiler::dag::DAGBuilder;
use mcpp_compiler::data_flow::{BasicBlock, ReachingDefinitions};
use mcpp_compiler::expr_tree::{ExprTree, IntermediateCodeConvertor};
use mcpp_compiler::lexical_analyzer::LexicalAnalyzer;
use mcpp_compiler::nfa::ThompsonNFA;
use mcpp_compiler::subset::SubsetConstruction;
use mcpp_compiler::tac::{SimpleCodeGenerator, TACRepresentations, TAC};

fn tac(op: &str, a1: &str, a2: Option<&str>, res: &str) -> TAC {
    TAC { op: op.to_string(), arg1: a1.to_string(), arg2: a2.map(|s| s.to_string()), result: res.to_string() }
}

fn demo_tacs() -> Vec<TAC> {
    vec![tac("*", "b", Some("c"), "t1"), tac("+", "a", Some("t1"), "t2")]
}

fn sorted(v: &[i32]) -> Vec<i32> {
    let mut w = v.to_vec();
    w.sort();
    w
}

#[test]
fn allocation_demo() {
    let mut mem = AllocationSystem::new(1024);
    assert_eq!(mem.stack_ptr, 1023);
    assert_eq!(mem.memory.len(), 1024);
    assert_eq!(mem.alloc_static("global_x", 4), 0);
    assert_eq!(mem.alloc_static("global_y", 2), 4);
    assert_eq!(mem.alloc_heap(16), Ok(0));
    assert_eq!(mem.alloc_stack(32), Ok(991));
    mem.pop_stack(32);
    assert_eq!(mem.stack_ptr, 1023);
    assert_eq!(mem.symbol_table, vec![("global_x".to_string(), 0), ("global_y".to_string(), 4)]);
}

#[test]
fn allocation_rebinds_a_static_name() {
    let mut mem = AllocationSystem::new(64);
    assert_eq!(mem.alloc_static("x", 4), 0);
    assert_eq!(mem.alloc_static("x", 4), 4);
    assert_eq!(mem.symbol_table, vec![("x".to_string(), 4)]);
    assert_eq!(mem.static_ptr, 8);
}

#[test]
fn allocation_errors() {
    let mut mem = AllocationSystem::new(10);
    assert_eq!(mem.alloc_stack(20), Err("Stack Overflow".to_string()));
    assert_eq!(mem.stack_ptr, 9);
    assert_eq!(mem.alloc_stack(9), Err("Stack Overflow".to_string()));
    assert_eq!(mem.stack_ptr, 0);
    let mut mem2 = AllocationSystem::new(10);
    assert_eq!(mem2.alloc_heap(9), Err("Out of Heap Memory".to_string()));
    assert_eq!(mem2.heap_ptr, 9);
    let mut mem3 = AllocationSystem::new(10);
    assert_eq!(mem3.alloc_heap(8), Ok(0));
}

#[test]
fn reaching_definitions_demo() {
    let b1 = BasicBlock::new(1, vec![1, 2], vec![3], vec![]);
    let b2 = BasicBlock::new(2, vec![3], vec![1], vec![1]);
    let mut rd = ReachingDefinitions::new(vec![b1, b2]);
    rd.analyze();
    assert_eq!(sorted(&rd.blocks[0].in_set), Vec::<i32>::new());
    assert_eq!(sorted(&rd.blocks[0].out_set), vec![1, 2]);
    assert_eq!(sorted(&rd.blocks[1].in_set), vec![1, 2]);
    assert_eq!(sorted(&rd.blocks[1].out_set), vec![2, 3]);
}

#[test]
fn reaching_definitions_through_a_loop() {
    let b1 = BasicBlock::new(1, vec![1], vec![], vec![2]);
    let b2 = BasicBlock::new(2, vec![2], vec![1], vec![1]);
    let mut rd = ReachingDefinitions::new(vec![b1, b2]);
    rd.analyze();
    assert_eq!(sorted(&rd.blocks[0].in_set), vec![2]);
    assert_eq!(sorted(&rd.blocks[0].out_set), vec![1, 2]);
    assert_eq!(sorted(&rd.blocks[1].in_set), vec![1, 2]);
    assert_eq!(sorted(&rd.blocks[1].out_set), vec![2]);
}

#[test]
fn quadruples_and_triples() {
    let rep = TACRepresentations::new(demo_tacs());
    let q = rep.quadruple_rows();
    assert_eq!(
        q,
        vec![
            ("*".to_string(), "b".to_string(), "c".to_string(), "t1".to_string()),
            ("+".to_string(), "a".to_string(), "t1".to_string(), "t2".to_string()),
        ]
    );
    let t = rep.triple_rows();
    assert_eq!(
        t,
        vec![
            (0, "*".to_string(), "b".to_string(), "c".to_string()),
            (1, "+".to_string(), "a".to_string(), "(0)".to_string()),
        ]
    );
    assert!(rep.is_temp("t9"));
    assert!(!rep.is_temp("x"));
    assert_eq!(rep.find_res("t2"), 1);
    assert_eq!(rep.find_res("t7"), -1);
}

#[test]
fn triples_of_unknown_temporary_and_unary() {
    let rep = TACRepresentations::new(vec![tac("-", "t5", None, "t1")]);
    assert_eq!(rep.quadruple_rows(), vec![("-".to_string(), "t5".to_string(), "-".to_string(), "t1".to_string())]);
    assert_eq!(rep.triple_rows(), vec![(0, "-".to_string(), "(-1)".to_string(), "-".to_string())]);
}

#[test]
fn simple_code_generator_demo() {
    let mut cg = SimpleCodeGenerator::new();
    let out = cg.generate(&demo_tacs());
    assert_eq!(out, vec!["MOV b, R0", "MUL R1, R0", "MOV R0, t1", "MOV a, R0", "ADD R0, R0", "MOV R0, t2"]);
}

#[test]
fn simple_code_generator_registers() {
    let mut cg = SimpleCodeGenerator::new();
    assert_eq!(cg.get_reg("x"), "R0");
    assert_eq!(cg.get_reg("y"), "R1");
    assert_eq!(cg.get_reg("x"), "R0");
    assert_eq!(cg.get_reg("z"), "R0");
    let mut cg2 = SimpleCodeGenerator::new();
    assert_eq!(cg2.generate(&vec![tac("%", "p", Some("q"), "r")]), vec!["MOV p, R0", "UNKNOWN R1, R0", "MOV R0, r"]);
}

#[test]
fn dag_reuses_common_subexpressions() {
    let mut dag = DAGBuilder::new();
    let n1 = dag.add_node("-", "b", Some("c"));
    assert_eq!(n1.value, "-");
    let n2 = dag.add_node("*", "a", Some(&n1.value));
    assert_eq!(dag.node_map.len(), 4);
    let right = n2.right.as_ref().unwrap();
    assert_eq!(right.value, "-");
    assert_eq!(right.left.as_ref().unwrap().value, "b");
    let again = dag.add_node("-", "b", Some("c"));
    assert_eq!(again.value, "-");
    assert_eq!(again.right.as_ref().unwrap().value, "c");
    assert_eq!(dag.node_map.len(), 4);
    let unary = dag.add_node("neg", "x", None);
    assert!(unary.right.is_none());
    assert_eq!(dag.node_map[4].0, "neg_x_-");
}

#[test]
fn postfix_and_prefix() {
    let ast = Box::new(ExprTree::new(
        "+",
        Some(Box::new(ExprTree::new_leaf("a"))),
        Some(Box::new(ExprTree::new(
            "*",
            Some(Box::new(ExprTree::new_leaf("b"))),
            Some(Box::new(ExprTree::new_leaf("c"))),
        ))),
    ));
    let node = Some(ast);
    assert_eq!(IntermediateCodeConvertor::to_postfix(&node), "a b c * +");
    assert_eq!(IntermediateCodeConvertor::to_prefix(&node), "+ a * b c");
    assert_eq!(IntermediateCodeConvertor::to_postfix(&None), "");
    let neg = Some(Box::new(ExprTree::new("-", Some(Box::new(ExprTree::new_leaf("x"))), None)));
    assert_eq!(IntermediateCodeConvertor::to_postfix(&neg), "x  -");
    assert_eq!(IntermediateCodeConvertor::to_prefix(&neg), "- x");
}

#[test]
fn thompson_concat() {
    let mut builder = ThompsonNFA::new();
    let nfa_a = builder.create_basic_nfa("a");
    assert_eq!((nfa_a.start, nfa_a.end), (1, 2));
    assert_eq!(nfa_a.states[0].transitions, vec![("a".to_string(), vec![2])]);
    let nfa_b = builder.create_basic_nfa("b");
    assert_eq!((nfa_b.start, nfa_b.end), (3, 4));
    assert_eq!(nfa_b.states.len(), 4);
    let nfa_ab = builder.concat(nfa_a, nfa_b);
    assert_eq!((nfa_ab.start, nfa_ab.end), (1, 4));
    assert_eq!(nfa_ab.states.len(), 6);
    assert_eq!(nfa_ab.states[1].epsilon_transitions, vec![3]);
    assert_eq!(builder.states.len(), 6);
}

#[test]
fn thompson_union_and_star() {
    let mut builder = ThompsonNFA::new();
    let nfa_a = builder.create_basic_nfa("a");
    let nfa_b = builder.create_basic_nfa("b");
    let u = builder.union(nfa_a, nfa_b);
    assert_eq!((u.start, u.end), (5, 6));
    assert_eq!(u.states.len(), 6);
    assert_eq!(u.states[4].epsilon_transitions, vec![1, 3]);
    assert_eq!(u.states[1].epsilon_transitions, vec![6]);
    assert_eq!(u.states[3].epsilon_transitions, vec![6]);
    let mut b2 = ThompsonNFA::new();
    let c = b2.create_basic_nfa("c");
    let d = b2.create_basic_nfa("d");
    let cd = b2.concat(c, d);
    let s = b2.kleene_star(cd);
    assert_eq!((s.start, s.end), (5, 6));
    assert_eq!(s.states.len(), 6);
    assert_eq!(s.states[4].epsilon_transitions, vec![1, 6]);
    assert_eq!(s.states[3].epsilon_transitions, vec![1, 6]);
}

#[test]
fn subset_table() {
    let t = SubsetConstruction::convert(0, &vec!["a", "b", "a"]);
    assert_eq!(t.len(), 1);
    assert!(t[0].0.is_empty());
    let syms: Vec<String> = t[0].1.iter().map(|e| e.0.clone()).collect();
    assert_eq!(syms, vec!["a".to_string(), "b".to_string()]);
    assert!(t[0].1.iter().all(|e| e.1.is_empty()));
    assert_eq!(SubsetConstruction::convert(0, &vec![]).len(), 0);
}

#[test]
fn lexical_analyzer_demo() {
    let lexer = LexicalAnalyzer::new();
    let toks = lexer.tokenize("int main() { return 0; }").unwrap();
    let shown: Vec<(String, String, usize, usize)> =
        toks.iter().map(|t| (t.token_type.clone(), t.value.clone(), t.line, t.column)).collect();
    let want: Vec<(&str, &str, usize, usize)> = vec![
        ("KEYWORD", "int", 1, 0),
        ("ID", "main", 1, 4),
        ("PUNC", "(", 1, 8),
        ("PUNC", ")", 1, 9),
        ("PUNC", "{", 1, 11),
        ("KEYWORD", "return", 1, 13),
        ("INT", "0", 1, 20),
        ("PUNC", ";", 1, 21),
        ("PUNC", "}", 1, 23),
    ];
    let want: Vec<(String, String, usize, usize)> =
        want.into_iter().map(|(a, b, c, d)| (a.to_string(), b.to_string(), c, d)).collect();
    assert_eq!(shown, want);
}

#[test]
fn lexical_analyzer_lines_and_comments() {
    let lexer = LexicalAnalyzer::new();
    let toks = lexer.tokenize("a\n// c\nb /* x\ny */ 2.5").unwrap();
    let shown: Vec<(String, String, usize, usize)> =
        toks.iter().map(|t| (t.token_type.clone(), t.value.clone(), t.line, t.column)).collect();
    assert_eq!(
        shown,
        vec![
            ("ID".to_string(), "a".to_string(), 1, 0),
            ("ID".to_string(), "b".to_string(), 3, 0),
            ("FLOAT".to_string(), "2.5".to_string(), 4, 1),
        ]
    );
}

#[test]
fn lexical_analyzer_stray_character() {
    let lexer = LexicalAnalyzer::new();
    match lexer.tokenize("x = @") {
        Ok(_) => panic!("expected an error"),
        Err(e) => assert_eq!(e, "Unexpected character \"@\" at line 1"),
    }
}
