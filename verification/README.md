# mcpp_compiler

A small compiler front end for the MCPP language and a set of classic
compiler-construction exercises, written in Verus: every function of the
library carries a contract that Verus proves, except ten small trusted
wrappers (in `text` and `pattern`) around `regex` and a few std string and
character methods, whose contracts are believed as documented.

- `src/` is the verified library:
  - `lexer`, `parser`: the MCPP lexer (tokens, symbol table) and the
    recursive-descent parser that builds the program tree;
  - `grammar`, `first_follow`, `predictive`, `precedence_sets`, `lr0`,
    `grammar_transform`, `shift_reduce`: grammars as lists of entries, FIRST
    and FOLLOW sets, predictive parse tables, LEADING and TRAILING sets, LR(0)
    closure and goto, removal of left recursion and left factoring, and a
    shift-reduce parser;
  - `lexical_analyzer`, `token_classes`, `syntax_check`, `nfa`, `subset`:
    regex-driven scanners, Thompson's construction, the subset table;
  - `phases`, `code_gen`, `tac`, `dag`, `expr_tree`, `data_flow`,
    `allocation`: the semantic and intermediate-code phases, code generation
    from expressions and from three-address code, DAGs, postfix and prefix
    forms, reaching definitions and storage allocation;
  - `text`, `pattern`: string helpers, and the calls into the `regex` crate.
- `tests/` runs the library on concrete inputs.
- `app/` is the command-line program: with no argument it lexes
  `source/main.jpp`; other arguments select the interactive phases and the
  demonstrations.
