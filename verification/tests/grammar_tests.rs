use mcpp_compiler::first_follow::FirstFollow;
use mcpp_compiler::grammar_transform::GrammarTransformer;
use mcpp_compiler::lr0::{Item, LR0};
use mcpp_compiler::precedence_sets::OperatorPrecedenceSets;
use mcpp_compiler::predictive::PredictiveParser;
use mcpp_compiler::shift_reduce::{ShiftReduceParser, SrAction};
use std::collections::BTreeSet;

fn g(entries: &[(&str, &[&str])]) -> Vec<(String, Vec<String>)> {
    entries
        .iter()
        .map(|(k, ps)| (k.to_string(), ps.iter().map(|p| p.to_string()).collect()))
        .collect()
}

fn pairs(v: &[(String, String)]) -> BTreeSet<(String, String)> {
    v.iter().cloned().collect()
}

fn set(items: &[(&str, &str)]) -> BTreeSet<(String, String)> {
    items.iter().map(|(a, b)| (a.to_string(), b.to_string())).collect()
}

#[test]
fn first_and_follow_of_sample_grammar() {
    let grammar = g(&[("S", &["aABb"]), ("A", &["c", "ε"]), ("B", &["d"])]);
    let ff = FirstFollow::new(grammar, "S".to_string());
    assert_eq!(pairs(&ff.first), set(&[("S", "a"), ("A", "c"), ("A", "ε"), ("B", "d")]));
    assert_eq!(pairs(&ff.follow), set(&[("S", "$"), ("A", "d")]));
}

#[test]
fn first_through_nullable_prefix() {
    let grammar = g(&[("S", &["ABc"]), ("A", &["ε", "a"]), ("B", &["ε"])]);
    let ff = FirstFollow::new(grammar, "S".to_string());
    assert_eq!(
        pairs(&ff.first),
        set(&[("S", "a"), ("S", "c"), ("A", "ε"), ("A", "a"), ("B", "ε")])
    );
    // FOLLOW(A) gets FIRST(B) without ε, and FOLLOW(S) since B can vanish.
    assert_eq!(pairs(&ff.follow), set(&[("S", "$"), ("A", "$")]));
}

#[test]
fn follow_at_end_of_production_inherits_head() {
    let grammar = g(&[("S", &["aA"]), ("A", &["b"])]);
    let ff = FirstFollow::new(grammar, "S".to_string());
    assert_eq!(pairs(&ff.follow), set(&[("S", "$"), ("A", "$")]));
}

#[test]
fn checked_new_refuses_empty_grammar() {
    assert!(FirstFollow::checked_new(Vec::new(), "S".to_string()).is_none());
    let ok = FirstFollow::checked_new(g(&[("S", &["a"])]), "S".to_string());
    assert!(ok.is_some());
}

#[test]
fn leading_and_trailing_of_expression_grammar() {
    let grammar = g(&[("E", &["E+T", "T"]), ("T", &["T*F", "F"]), ("F", &["(E)", "id"])]);
    let ops = OperatorPrecedenceSets::new(grammar);
    assert_eq!(
        pairs(&ops.leading),
        set(&[("E", "+"), ("E", "*"), ("E", "("), ("E", "i"), ("T", "*"), ("T", "("), ("T", "i"), ("F", "("), ("F", "i")])
    );
    assert_eq!(
        pairs(&ops.trailing),
        set(&[("E", "+"), ("E", "*"), ("E", ")"), ("E", "d"), ("T", "*"), ("T", ")"), ("T", "d"), ("F", ")"), ("F", "d")])
    );
}

#[test]
fn predictive_table_of_sample_grammar() {
    let grammar = g(&[("S", &["aABb"]), ("A", &["c", "ε"]), ("B", &["d"])]);
    let parser = PredictiveParser::new(grammar, "S".to_string());
    let cells: BTreeSet<(String, String, String)> = parser.table.iter().cloned().collect();
    let want: BTreeSet<(String, String, String)> = [("S", "a", "aABb"), ("A", "c", "c"), ("B", "d", "d")]
        .iter()
        .map(|(a, b, c)| (a.to_string(), b.to_string(), c.to_string()))
        .collect();
    assert_eq!(cells, want);
    assert!(parser.get_first_of_string("AB").is_empty());
    assert_eq!(parser.get_first_of_string("ε"), vec!["ε".to_string()]);
    assert_eq!(parser.get_first_of_string("xA"), vec!["x".to_string()]);
}

fn item(lhs: &str, rhs: &str, dot: usize) -> Item {
    Item { lhs: lhs.to_string(), rhs: rhs.to_string(), dot_pos: dot }
}

fn items(v: &[Item]) -> BTreeSet<(String, String, usize)> {
    v.iter().map(|i| (i.lhs.clone(), i.rhs.clone(), i.dot_pos)).collect()
}

#[test]
fn lr0_closure_and_goto() {
    let grammar = g(&[("E", &["E+T", "T"]), ("T", &["id"])]);
    let lr0 = LR0::new(grammar, "E".to_string());
    assert_eq!(lr0.start, "E'");
    let i0 = lr0.closure(vec![item("E'", "E", 0)]);
    let want: BTreeSet<(String, String, usize)> = [("E'", "E", 0), ("E", "E+T", 0), ("E", "T", 0), ("T", "id", 0)]
        .iter()
        .map(|(a, b, c)| (a.to_string(), b.to_string(), *c))
        .collect();
    assert_eq!(items(&i0), want);
    let i1 = lr0.goto(&i0, "E");
    let want1: BTreeSet<(String, String, usize)> =
        [("E'", "E", 1), ("E", "E+T", 1)].iter().map(|(a, b, c)| (a.to_string(), b.to_string(), *c)).collect();
    assert_eq!(items(&i1), want1);
    // The closure of a closure adds nothing.
    assert_eq!(items(&lr0.closure(i0)), want);
}

#[test]
fn left_recursion_is_removed() {
    let mut gt = GrammarTransformer::new(g(&[("E", &["E+T", "T"])]));
    gt.eliminate_left_recursion();
    assert_eq!(gt.grammar, g(&[("E", &["TE'"]), ("E'", &["+TE'", "ε"])]));
}

#[test]
fn grammar_without_left_recursion_is_kept() {
    let mut gt = GrammarTransformer::new(g(&[("A", &["a", "b"])]));
    gt.eliminate_left_recursion();
    assert_eq!(gt.grammar, g(&[("A", &["a", "b"])]));
}

#[test]
fn common_prefixes_are_factored() {
    let mut gt = GrammarTransformer::new(g(&[("A", &["ab", "ac", "d"])]));
    gt.left_factor();
    assert_eq!(gt.grammar, g(&[("A", &["aA''", "d"]), ("A''", &["b", "c"])]));
}

#[test]
fn factoring_a_single_symbol_leaves_epsilon() {
    let mut gt = GrammarTransformer::new(g(&[("A", &["a", "ab"])]));
    gt.left_factor();
    assert_eq!(gt.grammar, g(&[("A", &["aA''"]), ("A''", &["ε", "b"])]));
}

#[test]
fn shift_reduce_trace_of_sample_input() {
    let rules = vec![
        ("E".to_string(), "E+E".to_string()),
        ("E".to_string(), "E*E".to_string()),
        ("E".to_string(), "id".to_string()),
    ];
    let sr = ShiftReduceParser::new(rules);
    let trace = sr.parse(vec!["id", "+", "id", "*", "id"]);
    let rows: Vec<(String, String, String)> = trace
        .iter()
        .map(|s| {
            let a = match &s.action {
                SrAction::Shift => "SHIFT".to_string(),
                SrAction::Reduce(l, r) => format!("REDUCE {} -> {}", l, r),
                SrAction::Accept => "ACCEPT".to_string(),
                SrAction::Reject => "REJECT".to_string(),
            };
            (s.stack.clone(), s.buffer.clone(), a)
        })
        .collect();
    let want: Vec<(String, String, String)> = [
        ("", "id+id*id$", "SHIFT"),
        ("id", "+id*id$", "REDUCE E -> id"),
        ("E", "+id*id$", "SHIFT"),
        ("E+", "id*id$", "SHIFT"),
        ("E+id", "*id$", "REDUCE E -> id"),
        ("EE", "*id$", "SHIFT"),
        ("EE*", "id$", "SHIFT"),
        ("EE*id", "$", "REDUCE E -> id"),
        ("EEE", "$", "REJECT"),
    ]
    .iter()
    .map(|(a, b, c)| (a.to_string(), b.to_string(), c.to_string()))
    .collect();
    assert_eq!(rows, want);
}

#[test]
fn shift_reduce_accepts_single_reduction() {
    let sr = ShiftReduceParser::new(vec![("E".to_string(), "id".to_string())]);
    let trace = sr.parse(vec!["id"]);
    assert!(matches!(trace.last().unwrap().action, SrAction::Accept));
    assert_eq!(trace.len(), 3);
}

fn no_left_recursion(grammar: &[(String, Vec<String>)]) -> bool {
    grammar.iter().filter(|(k, _)| k.chars().count() == 1).all(|(k, ps)| ps.iter().all(|p| !p.starts_with(k.as_str())))
}

#[test]
fn left_recursion_removed_from_every_nonterminal() {
    let mut gt = GrammarTransformer::new(g(&[("E", &["E+T", "T"]), ("T", &["T*F", "F"]), ("F", &["(E)", "i"])]));
    gt.eliminate_left_recursion();
    assert_eq!(
        gt.grammar,
        g(&[
            ("E", &["TE'"]),
            ("E'", &["+TE'", "ε"]),
            ("T", &["FT'"]),
            ("T'", &["*FT'", "ε"]),
            ("F", &["(E)", "i"]),
        ])
    );
    assert!(no_left_recursion(&gt.grammar));
}

#[test]
fn left_recursion_with_only_recursive_productions() {
    let mut gt = GrammarTransformer::new(g(&[("A", &["Aa"])]));
    gt.eliminate_left_recursion();
    assert_eq!(gt.grammar, g(&[("A'", &["aA'", "ε"])]));
}

#[test]
fn factored_productions_begin_differently() {
    let mut gt = GrammarTransformer::new(g(&[("A", &["ab", "ac", "d", "ae"]), ("B", &["x", "xy"])]));
    gt.left_factor();
    assert_eq!(
        gt.grammar,
        g(&[("A", &["aA''", "d"]), ("A''", &["b", "c", "e"]), ("B", &["xB''"]), ("B''", &["ε", "y"])])
    );
    for (k, ps) in &gt.grammar {
        if k.chars().count() == 1 {
            let firsts: BTreeSet<char> = ps.iter().map(|p| p.chars().next().unwrap()).collect();
            assert_eq!(firsts.len(), ps.len());
        }
    }
}

#[test]
fn bounded_parse_agrees_with_parse() {
    let rules = vec![
        ("E".to_string(), "E+E".to_string()),
        ("E".to_string(), "E*E".to_string()),
        ("E".to_string(), "id".to_string()),
    ];
    let sr = ShiftReduceParser::new(rules);
    let full = sr.parse(vec!["id", "+", "id", "*", "id"]);
    let bounded = sr.parse_within(vec!["id", "+", "id", "*", "id"], 100).unwrap();
    assert_eq!(bounded.len(), full.len());
    for (a, b) in bounded.iter().zip(full.iter()) {
        assert_eq!((&a.stack, &a.buffer), (&b.stack, &b.buffer));
    }
    assert!(sr.parse_within(vec!["id", "+", "id", "*", "id"], 8).is_none());
    assert_eq!(sr.parse_within(vec!["id", "+", "id", "*", "id"], 9).unwrap().len(), 9);
}

#[test]
fn bounded_parse_of_a_parse_that_never_ends() {
    let sr = ShiftReduceParser::new(vec![("E".to_string(), "".to_string())]);
    assert!(sr.parse_within(vec!["a"], 50).is_none());
    let none = ShiftReduceParser::new(Vec::new());
    assert!(none.parse_within(vec!["a"], 50).is_none());
}

#[test]
fn first_and_follow_as_maps() {
    let grammar = g(&[("S", &["aABb"]), ("A", &["c", "ε"]), ("B", &["d"])]);
    let ff = FirstFollow::new(grammar, "S".to_string());
    assert_eq!(ff.first_set("B"), Some(vec!["d".to_string()]));
    assert_eq!(ff.first_set("x"), None);
    assert_eq!(ff.follow_set("S"), Some(vec!["$".to_string()]));
    assert_eq!(ff.follow_set("A"), Some(vec!["d".to_string()]));
    assert_eq!(ff.follow_set("B"), None);
}

#[test]
fn empty_first_set_keeps_its_key() {
    let grammar = g(&[("S", &["A"]), ("A", &["A"])]);
    let ff = FirstFollow::new(grammar, "S".to_string());
    assert_eq!(ff.first_set("A"), Some(Vec::new()));
    assert_eq!(ff.first_set("S"), Some(Vec::new()));
}

#[test]
fn growing_rules_always_end() {
    let rules = vec![
        ("E".to_string(), "E+E".to_string()),
        ("E".to_string(), "E*E".to_string()),
        ("E".to_string(), "id".to_string()),
    ];
    let sr = ShiftReduceParser::new(rules);
    for toks in [vec!["id"], vec!["+", "+"], vec!["id", "id", "*"], vec![]] {
        let rows = sr.parse_within(toks.clone(), 1000).unwrap();
        assert_eq!(rows.len(), sr.parse(toks).len());
    }
}
