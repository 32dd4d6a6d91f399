pub mod text;
pub mod pattern;
pub mod lexer;
pub mod parser;
pub mod grammar;
pub mod first_follow;
pub mod precedence_sets;
pub mod predictive;
pub mod lr0;
pub mod grammar_transform;
pub mod shift_reduce;
pub mod phases;
pub mod code_gen;
pub mod allocation;
pub mod data_flow;
pub mod lexical_analyzer;
pub mod tac;
pub mod dag;
pub mod expr_tree;
pub mod nfa;
pub mod subset;
pub mod token_classes;
pub mod syntax_check;
