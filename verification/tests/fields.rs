use berg_compiler::block::FieldError;
use berg_compiler::identifiers::{IdentifierIndex, PLUS};
use berg_compiler::parser::parse;

#[test]
fn declared_field_is_found_as_public() {
    let ast = parse(b":a", None);
    let name = ast.fields[12].name;
    assert_eq!(ast.blocks[1].public_field_index(1, name, &ast), Ok(12));
}

#[test]
fn undeclared_field_is_private() {
    let ast = parse(b"a", None);
    let name = ast.fields[12].name;
    assert_eq!(ast.blocks[1].public_field_index(1, name, &ast), Err(FieldError::PrivateField));
}

#[test]
fn unknown_name_is_no_such_public_field() {
    let ast = parse(b":a", None);
    assert_eq!(
        ast.blocks[1].public_field_index(1, IdentifierIndex(PLUS), &ast),
        Err(FieldError::NoSuchPublicField)
    );
}

#[test]
fn fields_of_child_blocks_are_not_the_parents() {
    let ast = parse(b"{:a}", None);
    assert_eq!(ast.blocks.len(), 3);
    let name = ast.fields[12].name;
    assert_eq!(ast.blocks[1].public_field_index(1, name, &ast), Err(FieldError::NoSuchPublicField));
    assert_eq!(ast.blocks[2].public_field_index(2, name, &ast), Ok(12));
}

#[test]
fn a_close_without_open_inserts_its_block_after_the_open_block() {
    let ast = parse(b"{a} }", None);
    assert_eq!(ast.blocks.len(), 4);
    assert_eq!(ast.blocks[2].boundary, berg_compiler::token::ExpressionBoundary::CurlyBraces);
    assert_eq!(ast.blocks[2].parent, 1);
    assert_eq!(ast.blocks[3].parent, 2);
}

#[test]
fn parsed_fields_start_with_the_keywords() {
    let ast = parse(b"x", None);
    let names = berg_compiler::keywords::field_names();
    for i in 0..names.len() {
        assert_eq!(ast.fields[i].name, names[i]);
    }
}
