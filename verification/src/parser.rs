//! Parsing a source into an AST.
use crate::ast::Ast;
use crate::binder::{ast_consistent, ranges_within};
use crate::error_code::ErrorCode;
use crate::identifiers::well_known_names;
use crate::interner::interned;
use crate::keywords::{root_fields, spec_field_names};
use crate::scanner::spec_line_starts;
use crate::fixity::Fixity;
use crate::navigation::{fix, tree_wf};
use crate::char_data::line_starts_wf;
use crate::sequencer::{Sequencer, brackets_balanced, char_data_before, char_data_spells, fits_limits};
use crate::source_layout::{
    char_data_lays_out, cm_end, cm_start, comment_end, comment_start, ws_end, ws_run_end, ws_run_start, ws_start,
};
use vstd::prelude::*;

verus! {

/// Whether a source of `len` bytes is within the limits of the parser's
/// indices.
pub fn source_fits(len: usize) -> (fits: bool)
    ensures
        fits == fits_limits(len as int),
{
    let bound = (usize::MAX - 24) / 12;
    proof {
        assert(len <= bound <==> 12 * len + 24 <= usize::MAX) by (nonlinear_arith)
            requires
                bound == (usize::MAX - 24) / 12,
                usize::MAX >= 24;
    }
    len < 0xffff_ffffusize - 44 && len <= bound
}

/// Parses a source's bytes into an AST. The AST is always complete, even
/// for a source that could not be read (`source_open_error`) or does not
/// parse: errors stand in it as error terms and boundary errors. Its tokens
/// form a tree when every close bracket closes an open one (brackets left
/// open are closed with an error at the end). A close bracket with no open
/// one wraps the group's tokens so far in a group of its own while the
/// group keeps its last operator, so in `a + b ) * c` the precedence group
/// that `*` opens after `+` crosses the inserted parentheses.
pub fn parse(buffer: &[u8], source_open_error: Option<ErrorCode>) -> (ast: Ast)
    requires
        fits_limits(buffer@.len() as int),
    ensures
        ast_consistent(&ast),
        ast.source_open_error == source_open_error,
        ast.char_data.size == buffer@.len(),
        ast.char_data.line_starts@ == spec_line_starts(buffer@),
        well_known_names().is_prefix_of(interned(&ast.identifiers)),
        brackets_balanced(buffer@) ==> tree_wf(ast.tokens@),
        ranges_within(ast.token_ranges@, buffer@.len() as int),
        ast.tokens@.len() >= 1,
        fix(ast.tokens@.last()) == Fixity::Close,
        ast.fields@.len() >= spec_field_names().len(),
        forall|f: int| 0 <= f < spec_field_names().len() ==> (#[trigger] ast.fields@[f]).name.0 == spec_field_names()[f],
        char_data_spells(ast.char_data, buffer@),
        char_data_lays_out(&ast, buffer@),
{
    let fields = root_fields();
    let ast = Ast::new(source_open_error, fields);
    proof {
        assert forall|f: int| 0 <= f < ast.fields@.len() implies ((#[trigger] ast.fields@[f]).name.0 as int) < interned(
            &ast.identifiers,
        ).len() by {
            assert(spec_field_names()[f] <= 42);
        }
    }
    let sequencer = Sequencer::new(ast, buffer);
    let ast = sequencer.parse();
    proof {
        let cd = ast.char_data;
        assert(char_data_before(cd, buffer@.len() as int));
        assert(line_starts_wf(cd.line_starts@));
        assert forall|w: int| 0 <= w < cd.whitespace_ranges@.len() implies ws_start(&ast, w) < #[trigger] ws_end(&ast, w) by {
            assert(ws_run_start(cd, w) < ws_run_end(cd, w));
        }
        assert forall|v: int, w: int| 0 <= v < w < cd.whitespace_ranges@.len() implies #[trigger] ws_end(&ast, v) <= #[trigger] ws_start(&ast, w) by {
            assert(ws_run_end(cd, v) <= ws_run_start(cd, w));
        }
        assert forall|c: int| 0 <= c < cd.comments@.len() implies cm_start(&ast, c) < #[trigger] cm_end(&ast, c) by {
            assert(comment_start(cd, c) < comment_end(cd, c));
        }
        assert forall|b: int, c: int| 0 <= b < c < cd.comments@.len() implies #[trigger] cm_end(&ast, b) <= #[trigger] cm_start(&ast, c) by {
            assert(comment_end(cd, b) <= comment_start(cd, c));
        }
    }
    ast
}

} // verus!
