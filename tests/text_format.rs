use aureum::ascii_tree::Tree;
use aureum::formats::tap;
use aureum::formats::tap::diagnostic_entries;
use aureum::formats::tree::{draw_tree, text_block, tree_from_test_result};
use aureum::test_result::{TestResult, ValueComparison};
use aureum::utils::string::{decimal_text, indent_by, indent_with, natural_text, text_lines};

#[test]
fn test_text_block_empty() {
    assert_eq!(text_block(""), "╭\n│ \n╰ (No newline at end)");
}

#[test]
fn tree_test_text_block_only_newline() {
    assert_eq!(text_block("\n"), "╭\n│ \n╰");
}

#[test]
fn test_text_block_single_line_no_newline() {
    assert_eq!(text_block("foo"), "╭\n│ foo\n╰ (No newline at end)");
}

#[test]
fn test_text_block_single_line_with_newline() {
    assert_eq!(text_block("foo\n"), "╭\n│ foo\n╰");
}

#[test]
fn test_text_block_multiple_lines_no_newline() {
    assert_eq!(
        text_block("line 1\nline 2"),
        "╭\n│ line 1\n│ line 2\n╰ (No newline at end)"
    );
}

#[test]
fn test_text_block_multiple_lines_with_newline() {
    assert_eq!(text_block("line 1\nline 2\n"), "╭\n│ line 1\n│ line 2\n╰");
}

#[test]
fn test_text_block_multiple_lines_including_empty_lines() {
    assert_eq!(
        text_block("line 1\n\nline 3\n"),
        "╭\n│ line 1\n│ \n│ line 3\n╰"
    );
}

#[test]
fn test_indent_by() {
    assert_eq!(indent_with("- ", ""), "- ");
}

#[test]
fn string_test_text_block_only_newline() {
    assert_eq!(indent_with("- ", "\n"), "- \n");
}

#[test]
fn indent_by_spaces() {
    assert_eq!(indent_by(2, "a\nb"), "  a\n  b");
    assert_eq!(indent_by(0, "a\n"), "a\n");
}

#[test]
fn lines_drop_carriage_returns_and_final_newline() {
    assert_eq!(text_lines("a\r\nb\n"), vec![String::from("a"), String::from("b")]);
    assert_eq!(text_lines(""), Vec::<String>::new());
    assert_eq!(text_lines("\n\n"), vec![String::new(), String::new()]);
    assert_eq!(text_lines("x\r"), vec![String::from("x\r")]);
}

#[test]
fn numbers_in_decimal() {
    assert_eq!(natural_text(0), "0");
    assert_eq!(natural_text(1234567890), "1234567890");
    assert_eq!(decimal_text(-42), "-42");
    assert_eq!(decimal_text(i32::MIN as i64), "-2147483648");
}

#[test]
fn draw_nested_tree() {
    let l1 = Tree::Leaf(vec![String::from("line1"), String::from("line2")]);
    let l2 = Tree::Leaf(vec![String::from("only one line")]);
    let n1 = Tree::Node(String::from("node 1"), vec![l1, l2]);
    let n2 = Tree::Node(String::from("node 2"), vec![Tree::Leaf(vec![String::from("x")])]);
    let top = Tree::Node(String::from("top"), vec![n1, n2]);
    let expected = " top\n ├─ node 1\n │  ├─ line1\n │  │  line2\n │  └─ only one line\n └─ node 2\n    └─ x\n";
    assert_eq!(draw_tree(&top), expected);
}

#[test]
fn exit_code_difference_tree() {
    let result = TestResult {
        stdout: ValueComparison::NotChecked,
        stderr: ValueComparison::Matches(String::new()),
        exit_code: ValueComparison::Diff { expected: 0, got: 2 },
    };
    let categories = tree_from_test_result(&result);
    assert_eq!(categories.len(), 1);
    let drawn = draw_tree(&Tree::Node(String::from("t"), categories));
    assert_eq!(
        drawn,
        " t\n └─ Exit code\n    ├─ Expected\n    │  └─ 0\n    └─ Got\n       └─ 2\n"
    );
}

#[test]
fn stdout_difference_tree() {
    let result = TestResult {
        stdout: ValueComparison::Diff { expected: String::from("a\n"), got: String::from("b") },
        stderr: ValueComparison::NotChecked,
        exit_code: ValueComparison::NotChecked,
    };
    let categories = tree_from_test_result(&result);
    assert_eq!(
        categories,
        vec![Tree::Node(
            String::from("Standard output"),
            vec![
                Tree::Leaf(vec![
                    String::from("Expected"),
                    String::from("╭"),
                    String::from("│ a"),
                    String::from("╰"),
                ]),
                Tree::Leaf(vec![
                    String::from("Got"),
                    String::from("╭"),
                    String::from("│ b"),
                    String::from("╰ (No newline at end)"),
                ]),
            ],
        )]
    );
}

#[test]
fn tap_lines() {
    assert_eq!(tap::version_line(), "TAP version 14");
    assert_eq!(tap::plan_line(1, 12), "1..12");
    assert_eq!(tap::ok_line(3, "a.au.toml", 2), "ok      3 - a.au.toml");
    assert_eq!(tap::not_ok_line(12, "b", 2), "not ok 12 - b");
    assert_eq!(tap::diagnostics_block("x: 1\n"), "  ---\n  x: 1\n  ...");
    assert_eq!(tap::bail_out_line("stop"), "Bail out! stop");
}

#[test]
fn tap_diagnostics_in_yaml() {
    let result = TestResult {
        stdout: ValueComparison::NotChecked,
        stderr: ValueComparison::NotChecked,
        exit_code: ValueComparison::Diff { expected: 0, got: 2 },
    };
    assert_eq!(tap::format_test_result(&result), "exit-code:\n  expected: 0\n  got: 2\n");
    let text = TestResult {
        stdout: ValueComparison::Diff { expected: String::from("yes"), got: String::from("no") },
        stderr: ValueComparison::Matches(String::new()),
        exit_code: ValueComparison::NotChecked,
    };
    let yaml = tap::format_test_result(&text);
    assert!(yaml.starts_with("stdout:\n"));
    assert!(yaml.contains("expected: yes"));
    assert!(!yaml.contains("stderr"));
}

#[test]
fn diagnostic_entries_in_name_order() {
    let result = TestResult {
        stdout: ValueComparison::Diff { expected: String::from("a"), got: String::from("b") },
        stderr: ValueComparison::NotChecked,
        exit_code: ValueComparison::Diff { expected: 0, got: 3 },
    };
    assert_eq!(
        diagnostic_entries(&result),
        vec![
            (
                String::from("exit-code"),
                vec![(String::from("expected"), Err(0)), (String::from("got"), Err(3))]
            ),
            (
                String::from("stdout"),
                vec![
                    (String::from("expected"), Ok(String::from("a"))),
                    (String::from("got"), Ok(String::from("b")))
                ]
            ),
        ]
    );
    assert_eq!(
        tap::format_test_result(&result),
        "exit-code:\n  expected: 0\n  got: 3\nstdout:\n  expected: a\n  got: b\n"
    );
}

#[test]
fn framed_block_with_carriage_returns() {
    assert_eq!(text_block("a\r\nb\r\n"), "╭\n│ a\n│ b\n╰");
}
