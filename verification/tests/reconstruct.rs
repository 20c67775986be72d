use berg_compiler::expression_tree::AstExpressionTree;
use berg_compiler::indices::ByteRange;
use berg_compiler::parser::parse;
use berg_compiler::source_reconstruction::{SourceReconstruction, SourceReconstructionReader};

#[test]
fn reconstructs_simple_expression() {
    let ast = parse(b"1 + 2", None);
    assert_eq!(ast.to_bytes(), b"1 + 2".to_vec());
    assert_eq!(ast.to_string(), "1 + 2");
}

#[test]
fn reconstructs_whitespace_and_comments() {
    let source = b"a\tb # note\n  c";
    let ast = parse(source, None);
    assert_eq!(ast.to_bytes(), source.to_vec());
}

#[test]
fn reconstructs_line_endings() {
    let source = b"x\r\ny\rz\n";
    let ast = parse(source, None);
    assert_eq!(ast.to_bytes(), source.to_vec());
}

#[test]
fn reconstructs_error_terms() {
    let ast = parse(b"12ab + (", None);
    assert_eq!(ast.to_string(), "12ab + (");
}

#[test]
fn reconstructs_invalid_utf8_bytes() {
    let ast = parse(&[0xff, 0xfe], None);
    assert_eq!(ast.to_bytes(), vec![0xff, 0xfe]);
    assert_eq!(ast.to_string(), "\u{FFFD}\u{FFFD}");
}

#[test]
fn reconstructs_a_range() {
    let ast = parse(b"1 + 2", None);
    let part = SourceReconstruction::new(&ast, ByteRange::new(2, 5));
    assert_eq!(part.to_bytes(), b"+ 2".to_vec());
    let middle = SourceReconstruction::new(&ast, ByteRange::new(1, 4));
    assert_eq!(middle.to_string(), " + ");
}

#[test]
fn reader_reads_in_parts() {
    let ast = parse(b"10 + 20", None);
    let mut reader = SourceReconstructionReader::new(&ast, ByteRange::new(0, 7));
    assert_eq!(reader.read(1), b"1".to_vec());
    assert_eq!(reader.read(3), b"0 +".to_vec());
    assert_eq!(reader.read(10), b" 20".to_vec());
    assert_eq!(reader.read(10), Vec::<u8>::new());
}

#[test]
fn expression_text_is_its_source() {
    let ast = parse(b"1 + 2 * 3", None);
    let group = AstExpressionTree::new(&ast, 3);
    assert_eq!(group.to_string(), "2 * 3");
    assert_eq!(AstExpressionTree::new(&ast, 0).to_string(), "1 + 2 * 3");
}

#[test]
fn every_source_comes_back_whole() {
    let sources: [&[u8]; 20] = [
        b"",
        b"a",
        b"  a  ",
        b"a + b ) * c",
        b"{a} }",
        b"{ {a} } }",
        b"}{",
        b"((a",
        b"a;b;c",
        b":x = 1\n:y = x + 1",
        b"x.y.z",
        b"-(a)*b",
        b"f (1) {2}",
        b"a\n  b\n    c\n",
        b"1.5e10 + 0x",
        b"\t\t# only a comment",
        b"\xe2\x82\xac + 1",
        b"a\x00b",
        b"a  \n\n  b",
        b"(a}",
    ];
    for source in sources {
        let ast = parse(source, None);
        assert_eq!(ast.to_bytes(), source.to_vec(), "source {:?}", source);
    }
}
