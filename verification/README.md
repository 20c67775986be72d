# berg-compiler

A verified parser for the Berg language, written in Verus.

- `src/` is the library. Parsing runs in four stages: the sequencer
  (`sequencer.rs`, over the byte classification of `scanner.rs`) cuts the
  source into runs, the tokenizer (`tokenizer.rs`) makes the token stream
  alternate between operands and operators, the grouper (`grouper.rs`, with
  the tree invariant of `grouping.rs`) balances brackets and inserts
  precedence groups, and the binder (`binder.rs`) binds identifiers to fields
  and scopes to blocks. `parser.rs` is the entry point.
- The resulting `Ast` (`ast.rs`, `token.rs`, `block.rs`, `char_data.rs`) can
  be navigated as an expression tree (`navigation.rs`, `expression_tree.rs`,
  `expression.rs`), rendered with explicit grouping
  (`expression_formatter.rs`) and turned back into source text
  (`source_reconstruction.rs`). `source_layout.rs` states when an AST lays
  out a source (its tokens, whitespace runs and comments spell it in order)
  and proves that the reconstruction then gives the source back.
- `evaluation.rs` holds the lazy block evaluation: the arena of blocks with
  their states and field values, field lookup through parent scopes,
  circular-dependency detection, and the step that evaluating an expression
  comes down to at each root token. `conditional.rs` is the `if` / `else`
  state machine of the evaluator.
- `compiler_error.rs` holds the compiler's errors: their codes, where in the
  source they point, and their messages.
- String pools are `string_interner` interners, reached through the trusted
  functions of `interner.rs`.
- `app/` loads sources from files and hands their bytes to the parser.
- `tests/` exercises the library on concrete sources.
