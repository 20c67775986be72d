use berg_compiler::char_data::{LineColumn, LineColumnRange};
use berg_compiler::indices::ByteRange;
use berg_compiler::parser::parse;

#[test]
fn location_of_byte_on_second_line() {
    let ast = parse(b"ab\ncd", None);
    let location = ast.char_data.location(4);
    assert_eq!(location, LineColumn { line: 2, column: 2 });
    assert_eq!(ast.char_data.byte_index(location), 4);
}

#[test]
fn location_round_trips_for_every_byte() {
    let ast = parse(b"x = 1\n\ny\r\nzz", None);
    for index in 0..ast.char_data.size {
        let location = ast.char_data.location(index);
        assert_eq!(ast.char_data.byte_index(location), index);
    }
}

#[test]
fn range_of_bytes_is_inclusive() {
    let ast = parse(b"ab\ncd", None);
    let range = ast.char_data.range(&ByteRange::new(1, 4));
    assert_eq!(
        range,
        LineColumnRange { start: LineColumn { line: 1, column: 2 }, end: Some(LineColumn { line: 2, column: 1 }) }
    );
    let empty = ast.char_data.range(&ByteRange::new(3, 3));
    assert_eq!(empty.end, None);
}

#[test]
fn range_text_forms() {
    let at = |line, column| LineColumn { line, column };
    assert_eq!(LineColumnRange { start: at(3, 4), end: Some(at(3, 4)) }.to_string(), "3:4");
    assert_eq!(LineColumnRange { start: at(3, 4), end: Some(at(3, 10)) }.to_string(), "3:4-10");
    assert_eq!(LineColumnRange { start: at(1, 2), end: Some(at(12, 1)) }.to_string(), "1:2-12:1");
    assert_eq!(LineColumnRange { start: at(7, 1), end: None }.to_string(), "7:1<0>");
}
