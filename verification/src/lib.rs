//! A parser for the Berg language: source bytes are scanned into character
//! runs, turned into an alternating stream of expression and operator tokens,
//! grouped by precedence and bound to fields and blocks. The resulting token
//! list can be navigated as an expression tree, rendered with its grouping
//! made explicit, and turned back into source text.

pub mod fixity;
pub mod interner;
pub mod identifiers;
pub mod decimal;
pub mod precedence;
pub mod indices;
pub mod error_code;
pub mod token;
pub mod char_data;
pub mod block;
pub mod ast;
pub mod navigation;
pub mod token_text;
pub mod token_debug;
pub mod source_reconstruction;
pub mod source_layout;
pub mod expression_tree;
pub mod expression;
pub mod expression_formatter;
pub mod scanner;
pub mod binder;
pub mod grouper;
pub mod grouping;
pub mod tokenizer;
pub mod sequencer;
pub mod keywords;
pub mod parser;
pub mod evaluation;
pub mod compiler_error;
pub mod conditional;
