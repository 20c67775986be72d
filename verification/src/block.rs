use crate::identifiers::IdentifierIndex;
use crate::indices::{AstDelta, FieldIndex};
use crate::ast::Ast;
use crate::token::ExpressionBoundary;
use vstd::prelude::*;

verus! {

/// A block (scope) of the AST.
#[derive(Debug, Copy, Clone, PartialEq, Eq, Structural)]
pub struct AstBlock {
    pub boundary: ExpressionBoundary,
    /// Distance back to the parent block (0 for the root block).
    pub parent: usize,
    /// Distance from the block's open token to its close token.
    pub delta: AstDelta,
    /// First field in scope of this block (its own and its children's).
    pub scope_start: FieldIndex,
    /// Number of fields in scope of this block and its children.
    pub scope_count: usize,
}

/// A field of the AST.
#[derive(Debug, Copy, Clone, PartialEq, Eq, Structural)]
pub struct Field {
    pub name: IdentifierIndex,
    pub is_public: bool,
}

/// Why a field lookup failed.
#[derive(Debug, Copy, Clone, PartialEq, Eq, Structural)]
pub enum FieldError {
    PrivateField,
    NoSuchPublicField,
}

/// Looking for the field `name` among fields `f..end` of a block, skipping
/// the fields owned by its child blocks (from block `child` on): the first
/// such field if it is public, an error if it is private, or no such field.
pub open spec fn spec_public_field(
    blocks: Seq<AstBlock>,
    fields: Seq<Field>,
    child: int,
    f: int,
    end: int,
    name: IdentifierIndex,
) -> Result<FieldIndex, FieldError>
    decreases blocks.len() - child, end - f,
{
    if f >= end || child > blocks.len() {
        Err(FieldError::NoSuchPublicField)
    } else if 0 <= child < blocks.len() && f >= blocks[child].scope_start {
        spec_public_field(
            blocks,
            fields,
            child + 1,
            blocks[child].scope_start + blocks[child].scope_count,
            end,
            name,
        )
    } else if 0 <= f < fields.len() && fields[f].name == name {
        if fields[f].is_public {
            Ok(f as usize)
        } else {
            Err(FieldError::PrivateField)
        }
    } else {
        spec_public_field(blocks, fields, child, f + 1, end, name)
    }
}

impl AstBlock {
    /// The index of the public field `name` of this block (block `index` of
    /// the AST): fields of child blocks do not count.
    pub fn public_field_index(&self, index: usize, name: IdentifierIndex, ast: &Ast) -> (r: Result<FieldIndex, FieldError>)
        requires
            index < ast.blocks@.len(),
            self.scope_start + self.scope_count <= ast.fields@.len(),
            forall|b: int| 0 <= b < ast.blocks@.len() ==> (#[trigger] ast.blocks@[b]).scope_start + ast.blocks@[b].scope_count
                <= usize::MAX,
        ensures
            r == spec_public_field(
                ast.blocks@,
                ast.fields@,
                index + 1,
                self.scope_start as int,
                self.scope_start + self.scope_count,
                name,
            ),
    {
        let _blocks = ast.blocks.len();
        let _fields = ast.fields.len();
        let mut child_index = index + 1;
        let mut field_index = self.scope_start;
        let scope_end = self.scope_start + self.scope_count;
        while field_index < scope_end
            invariant
                child_index <= ast.blocks@.len(),
                scope_end <= ast.fields@.len(),
                scope_end == self.scope_start + self.scope_count,
                forall|b: int| 0 <= b < ast.blocks@.len() ==> (#[trigger] ast.blocks@[b]).scope_start
                    + ast.blocks@[b].scope_count <= usize::MAX,
                spec_public_field(ast.blocks@, ast.fields@, child_index as int, field_index as int, scope_end as int, name)
                    == spec_public_field(
                    ast.blocks@,
                    ast.fields@,
                    index + 1,
                    self.scope_start as int,
                    self.scope_start + self.scope_count,
                    name,
                ),
            decreases ast.blocks@.len() - child_index, scope_end - field_index,
        {
            if child_index < ast.blocks.len() {
                let child = ast.blocks[child_index];
                if field_index >= child.scope_start {
                    field_index = child.scope_start + child.scope_count;
                    child_index = child_index + 1;
                    continue;
                }
            }
            let field = ast.fields[field_index];
            if field.name == name {
                if field.is_public {
                    return Ok(field_index);
                } else {
                    return Err(FieldError::PrivateField);
                }
            }
            field_index = field_index + 1;
        }
        Err(FieldError::NoSuchPublicField)
    }
}

} // verus!
