use delo::test_runner::{
    compiler_error_output, expected_output, normalize_error, normalize_output, parse_test_file, program_output,
    section_title, trim,
};

#[test]
fn trim_decodes_and_strips_white_space() {
    assert_eq!(trim(b"  hello \n\t"), "hello");
    assert_eq!(trim(b""), "");
    assert_eq!(trim(b"a\xffb"), "a\u{fffd}b");
}

#[test]
fn normalize_error_drops_position_lines() {
    let input = "error: Unexpected character '$'\n@ /tmp/test_1.delo:1:3\n\n  |\n  @ indented\nend";
    assert_eq!(normalize_error(input), "error: Unexpected character '$'\n  |\nend");
}

#[test]
fn normalize_output_unifies_line_endings_and_trailing_space() {
    assert_eq!(normalize_output("a  \r\nb\t\r\n\r\nc"), "a\nb\n\nc");
    assert_eq!(normalize_output("x\n"), "x");
    assert_eq!(normalize_output(""), "");
}

#[test]
fn expected_and_actual_outputs_compare_after_normalizing() {
    assert_eq!(expected_output("\n  1\n2  \n\n"), "1\n2");
    assert_eq!(program_output(b"1\r\n2\r\n"), "1\n2");
    assert_eq!(compiler_error_output(b"error: bad\n@ f.delo:1:1\n"), "error: bad");
}

#[test]
fn test_file_with_two_tests() {
    let content = "// TEST: adds numbers\nprint(1 + 2)\n// EXPECT:\n3\n\n// TEST: prints text \nprint(\"hi\")\n// EXPECT:\nhi\n";
    let tests = parse_test_file(content, "tests/a.delo").unwrap();
    assert_eq!(tests.len(), 2);
    assert_eq!(tests[0].description, "adds numbers");
    assert_eq!(tests[0].code, "print(1 + 2)\n");
    assert_eq!(tests[0].expected, "3");
    assert_eq!(tests[1].description, "prints text");
    assert_eq!(tests[1].code, "print(\"hi\")\n");
    assert_eq!(tests[1].expected, "hi");
}

#[test]
fn lines_before_the_first_test_are_ignored() {
    let content = "preamble\n// TEST: t\nx\n// EXPECT:\ny";
    let tests = parse_test_file(content, "p").unwrap();
    assert_eq!(tests.len(), 1);
    assert_eq!(tests[0].code, "x\n");
    assert_eq!(tests[0].expected, "y");
}

#[test]
fn a_test_without_code_is_an_error() {
    let content = "// TEST: empty\n   \n// EXPECT:\n1\n";
    let err = parse_test_file(content, "dir/empty.delo").unwrap_err();
    assert_eq!(err, "No code found for test 'empty' in 'dir/empty.delo'");
}

#[test]
fn a_test_without_expectation_is_an_error() {
    let content = "// TEST: open\nprint(1)\n";
    let err = parse_test_file(content, "f.delo").unwrap_err();
    assert_eq!(err, "Missing '// EXPECT:' section for test 'open' in 'f.delo'");
}

#[test]
fn empty_file_has_no_tests() {
    assert_eq!(parse_test_file("", "f").unwrap().len(), 0);
}

#[test]
fn section_titles_from_names() {
    assert_eq!(section_title("01_basic_types", false), "BASIC TYPES");
    assert_eq!(section_title("2_string_ops.delo", true), "STRING OPS");
    assert_eq!(section_title("123", false), "");
    assert_eq!(section_title("x.delo.delo", true), "X");
}
