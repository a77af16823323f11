use vstd::prelude::*;

use crate::ascii_tree::{tree_text, write_tree, Tree};
use crate::test_id::texts_of;
use crate::test_result::{TestResult, ValueComparison};
use crate::utils::string::{decimal_of, decimal_text, indent_with, indented, lines_of, text_lines};

verus! {

/// The drawing of `tree`.
pub fn draw_tree(tree: &Tree) -> (r: String)
    ensures
        r@ == tree_text(*tree, Seq::empty()),
{
    let mut output = String::new();
    write_tree(&mut output, tree);
    output
}

/// A text shown in a frame, one `│ ` in front of each line, with a note
/// where the text lacks a final newline.
pub open spec fn text_block_of(content: Seq<char>) -> Seq<char> {
    let body = indented("│ "@, content);
    if content.len() > 0 && content.last() == '\n' {
        "╭\n"@ + body + "╰"@
    } else {
        "╭\n"@ + body + "\n╰ (No newline at end)"@
    }
}

pub fn text_block(content: &str) -> (r: String)
    ensures
        r@ == text_block_of(content@),
{
    let prefixed_content = indent_with("│ ", content);
    let n = content.unicode_len();
    let mut out = String::from_str("╭\n");
    out.append(prefixed_content.as_str());
    if n > 0 && content.get_char(n - 1) == '\n' {
        out.append("╰");
    } else {
        out.append("\n╰ (No newline at end)");
    }
    out
}

// ERROR FORMATTING

/// `t` is a leaf of exactly the lines `lines`.
pub open spec fn leaf_of(t: Tree, lines: Seq<Seq<char>>) -> bool {
    t matches Tree::Leaf(v) && texts_of(v@) == lines
}

/// Two leaves: the expected text and the text got, each framed under its heading.
pub open spec fn is_string_diff(cs: Seq<Tree>, expected: Seq<char>, got: Seq<char>) -> bool {
    &&& cs.len() == 2
    &&& leaf_of(cs[0], lines_of("Expected\n"@ + text_block_of(expected)))
    &&& leaf_of(cs[1], lines_of("Got\n"@ + text_block_of(got)))
}

/// Two nodes, `Expected` and `Got`, each over a leaf of one line.
pub open spec fn is_single_line_diff(cs: Seq<Tree>, expected: Seq<char>, got: Seq<char>) -> bool {
    &&& cs.len() == 2
    &&& cs[0] matches Tree::Node(t0, c0) && t0@ == "Expected"@ && c0@.len() == 1 && leaf_of(
        c0@[0],
        seq![expected],
    )
    &&& cs[1] matches Tree::Node(t1, c1) && t1@ == "Got"@ && c1@.len() == 1 && leaf_of(
        c1@[0],
        seq![got],
    )
}

/// `t` shows the text difference `c` under `heading`.
pub open spec fn text_diff_node(t: Tree, heading: Seq<char>, c: ValueComparison<String>) -> bool {
    match c {
        ValueComparison::Diff { expected, got } => t matches Tree::Node(title, cs) && title@
            == heading && is_string_diff(cs@, expected@, got@),
        _ => false,
    }
}

/// `t` shows the exit code difference `c`.
pub open spec fn code_diff_node(t: Tree, c: ValueComparison<i32>) -> bool {
    match c {
        ValueComparison::Diff { expected, got } => t matches Tree::Node(title, cs) && title@
            == "Exit code"@ && is_single_line_diff(cs@, decimal_of(expected as int), decimal_of(got as int)),
        _ => false,
    }
}

pub open spec fn diff_count<T>(c: ValueComparison<T>) -> int {
    if c is Diff {
        1
    } else {
        0
    }
}

/// `cs` holds one node per channel of `t` that differs, in the order
/// stdout, stderr, exit code.
pub open spec fn categories_fit(cs: Seq<Tree>, t: TestResult) -> bool {
    &&& cs.len() == diff_count(t.stdout) + diff_count(t.stderr) + diff_count(t.exit_code)
    &&& t.stdout is Diff ==> text_diff_node(cs[0], "Standard output"@, t.stdout)
    &&& t.stderr is Diff ==> text_diff_node(cs[diff_count(t.stdout)], "Standard error"@, t.stderr)
    &&& t.exit_code is Diff ==> code_diff_node(
        cs[diff_count(t.stdout) + diff_count(t.stderr)],
        t.exit_code,
    )
}

/// One node per channel that differs, in the order stdout, stderr, exit code.
pub fn tree_from_test_result(test_result: &TestResult) -> (r: Vec<Tree>)
    ensures
        categories_fit(r@, *test_result),
{
    let mut categories: Vec<Tree> = Vec::new();
    if let ValueComparison::Diff { expected, got } = &test_result.stdout {
        categories.push(Tree::Node(String::from_str("Standard output"), show_string_diff(expected, got)));
    }
    let ghost first = categories@;
    if let ValueComparison::Diff { expected, got } = &test_result.stderr {
        categories.push(Tree::Node(String::from_str("Standard error"), show_string_diff(expected, got)));
        assert(categories@[first.len() as int] == categories@.last());
    }
    let ghost second = categories@;
    if let ValueComparison::Diff { expected, got } = &test_result.exit_code {
        categories.push(Tree::Node(String::from_str("Exit code"), show_i32_diff(*expected, *got)));
        assert(categories@[second.len() as int] == categories@.last());
    }
    categories
}

fn show_string_diff(expected: &String, got: &String) -> (r: Vec<Tree>)
    ensures
        is_string_diff(r@, expected@, got@),
{
    let mut e = String::from_str("Expected\n");
    e.append(text_block(expected.as_str()).as_str());
    let mut g = String::from_str("Got\n");
    g.append(text_block(got.as_str()).as_str());
    let expected_lines = string_to_lines(e.as_str());
    let got_lines = string_to_lines(g.as_str());
    let mut r: Vec<Tree> = Vec::new();
    r.push(Tree::Leaf(expected_lines));
    r.push(Tree::Leaf(got_lines));
    r
}

fn string_to_lines(s: &str) -> (r: Vec<String>)
    ensures
        texts_of(r@) == lines_of(s@),
{
    text_lines(s)
}

fn show_i32_diff(expected: i32, got: i32) -> (r: Vec<Tree>)
    ensures
        is_single_line_diff(r@, decimal_of(expected as int), decimal_of(got as int)),
{
    show_single_line_diff(decimal_text(expected as i64), decimal_text(got as i64))
}

fn one_line_leaf(line: String) -> (r: Tree)
    ensures
        leaf_of(r, seq![line@]),
{
    let mut lines: Vec<String> = Vec::new();
    lines.push(line);
    let r = Tree::Leaf(lines);
    assert(texts_of(lines@) =~= seq![line@]);
    r
}

fn show_single_line_diff(expected: String, got: String) -> (r: Vec<Tree>)
    ensures
        is_single_line_diff(r@, expected@, got@),
{
    let mut expected_children: Vec<Tree> = Vec::new();
    expected_children.push(one_line_leaf(expected));
    let mut got_children: Vec<Tree> = Vec::new();
    got_children.push(one_line_leaf(got));
    let mut r: Vec<Tree> = Vec::new();
    r.push(Tree::Node(String::from_str("Expected"), expected_children));
    r.push(Tree::Node(String::from_str("Got"), got_children));
    r
}

} // verus!
