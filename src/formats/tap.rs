use vstd::prelude::*;

use crate::test_result::{TestResult, ValueComparison};
use crate::utils::string::{digits_of, indent_by, indented, natural_text, opt_text};

verus! {

pub open spec fn spaces(n: int) -> Seq<char> {
    Seq::new(n as nat, |i: int| ' ')
}

/// `s` right-aligned in a field of `width` characters.
pub open spec fn padded(s: Seq<char>, width: int) -> Seq<char> {
    if s.len() < width {
        spaces(width - s.len()) + s
    } else {
        s
    }
}

/// The test point `ok`/`not ok` of test `n`, its number right-aligned in `width`.
pub open spec fn test_point(status: Seq<char>, n: usize, message: Seq<char>, width: usize) -> Seq<char> {
    status + padded(digits_of(n as nat), width as int) + " - "@ + message
}

fn right_aligned(n: usize, width: usize) -> (r: String)
    ensures
        r@ == padded(digits_of(n as nat), width as int),
{
    let digits = natural_text(n as u64);
    let len = digits.as_str().unicode_len();
    let mut out = String::new();
    if len < width {
        let mut i: usize = 0;
        while i < width - len
            invariant
                len < width,
                i <= width - len,
                out@ =~= spaces(i as int),
            decreases width - len - i,
        {
            proof {
                reveal_strlit(" ");
            }
            out.append(" ");
            i = i + 1;
        }
    }
    out.append(digits.as_str());
    out
}

pub fn version_line() -> (r: String)
    ensures
        r@ == "TAP version 14"@,
{
    String::from_str("TAP version 14")
}

/// The plan: the numbers of the first and the last test.
pub fn plan_line(start: usize, end: usize) -> (r: String)
    ensures
        r@ == digits_of(start as nat) + ".."@ + digits_of(end as nat),
{
    let mut out = natural_text(start as u64);
    out.append("..");
    out.append(natural_text(end as u64).as_str());
    out
}

pub fn ok_line(test_number: usize, message: &str, indent_level: usize) -> (r: String)
    ensures
        r@ == test_point("ok     "@, test_number, message@, indent_level),
{
    let mut out = String::from_str("ok     ");
    out.append(right_aligned(test_number, indent_level).as_str());
    out.append(" - ");
    out.append(message);
    out
}

pub fn not_ok_line(test_number: usize, message: &str, indent_level: usize) -> (r: String)
    ensures
        r@ == test_point("not ok "@, test_number, message@, indent_level),
{
    let mut out = String::from_str("not ok ");
    out.append(right_aligned(test_number, indent_level).as_str());
    out.append(" - ");
    out.append(message);
    out
}

/// A diagnostics block: the text between `---` and `...`, indented by two.
pub fn diagnostics_block(diagnostics: &str) -> (r: String)
    ensures
        r@ == indented(spaces(2), "---\n"@ + diagnostics@ + "..."@),
{
    let mut code_block = String::from_str("---\n");
    code_block.append(diagnostics);
    code_block.append("...");
    let r = indent_by(2, code_block.as_str());
    assert(Seq::new(2 as nat, |i: int| ' ') =~= spaces(2));
    r
}

pub fn bail_out_line(message: &str) -> (r: String)
    ensures
        r@ == "Bail out! "@ + message@,
{
    let mut out = String::from_str("Bail out! ");
    out.append(message);
    out
}

// DIAGNOSTICS

/// What `serde_yaml::to_string` writes for a mapping from each entry's name
/// to a mapping from its field names to their values, in the order given;
/// a value is a text (`Ok`) or a number (`Err`). `None` where it fails.
pub uninterp spec fn yaml_of(entries: Seq<(Seq<char>, Seq<(Seq<char>, Result<Seq<char>, i32>)>)>) -> Option<Seq<char>>;

/// One diagnostic entry: a channel, with its fields and their values.
pub type DiagnosticEntry = (String, Vec<(String, Result<String, i32>)>);

pub open spec fn value_view(v: Result<String, i32>) -> Result<Seq<char>, i32> {
    match v {
        Ok(text) => Ok(text@),
        Err(n) => Err(n),
    }
}

pub open spec fn fields_view(f: Seq<(String, Result<String, i32>)>) -> Seq<(Seq<char>, Result<Seq<char>, i32>)> {
    f.map_values(|p: (String, Result<String, i32>)| (p.0@, value_view(p.1)))
}

pub open spec fn entries_view(e: Seq<DiagnosticEntry>) -> Seq<(Seq<char>, Seq<(Seq<char>, Result<Seq<char>, i32>)>)> {
    e.map_values(|p: DiagnosticEntry| (p.0@, fields_view(p.1@)))
}

/// Relies on `serde_yaml::to_string`: the YAML text of the nested mapping
/// that the entries make, one for one.
#[verifier::external_body]
fn yaml_text(entries: Vec<DiagnosticEntry>) -> (r: Option<String>)
    ensures
        opt_text(r) == yaml_of(entries_view(entries@)),
{
    let mut map = serde_yaml::Mapping::new();
    for (name, fields) in entries {
        let mut inner = serde_yaml::Mapping::new();
        for (key, value) in fields {
            let value: serde_yaml::Value = match value { Ok(text) => text.into(), Err(n) => n.into() };
            inner.insert(key.into(), value);
        }
        map.insert(name.into(), inner.into());
    }
    serde_yaml::to_string(&map).ok()
}

/// The fields of one difference: what was expected and what came.
pub open spec fn diff_fields(expected: Result<Seq<char>, i32>, got: Result<Seq<char>, i32>) -> Seq<(Seq<char>, Result<Seq<char>, i32>)> {
    seq![("expected"@, expected), ("got"@, got)]
}

pub open spec fn text_entry(name: Seq<char>, c: ValueComparison<String>) -> Seq<(Seq<char>, Seq<(Seq<char>, Result<Seq<char>, i32>)>)> {
    match c {
        ValueComparison::Diff { expected, got } => seq![(name, diff_fields(Ok(expected@), Ok(got@)))],
        _ => Seq::empty(),
    }
}

pub open spec fn code_entry(c: ValueComparison<i32>) -> Seq<(Seq<char>, Seq<(Seq<char>, Result<Seq<char>, i32>)>)> {
    match c {
        ValueComparison::Diff { expected, got } => seq![("exit-code"@, diff_fields(Err(expected), Err(got)))],
        _ => Seq::empty(),
    }
}

/// The diagnostics of a run, one entry per channel that differs, in the
/// order of their names: `exit-code`, `stderr`, `stdout`.
pub open spec fn diagnostics_of(t: TestResult) -> Seq<(Seq<char>, Seq<(Seq<char>, Result<Seq<char>, i32>)>)> {
    code_entry(t.exit_code) + text_entry("stderr"@, t.stderr) + text_entry("stdout"@, t.stdout)
}

fn diff_entry(name: &str, expected: Result<String, i32>, got: Result<String, i32>) -> (r: DiagnosticEntry)
    ensures
        r.0@ == name@,
        fields_view(r.1@) == diff_fields(value_view(expected), value_view(got)),
{
    let mut fields: Vec<(String, Result<String, i32>)> = Vec::new();
    fields.push((String::from_str("expected"), expected));
    fields.push((String::from_str("got"), got));
    assert(fields_view(fields@) =~= diff_fields(value_view(expected), value_view(got)));
    (String::from_str(name), fields)
}

pub fn diagnostic_entries(test_result: &TestResult) -> (r: Vec<DiagnosticEntry>)
    ensures
        entries_view(r@) == diagnostics_of(*test_result),
{
    let mut entries: Vec<DiagnosticEntry> = Vec::new();
    if let ValueComparison::Diff { expected, got } = test_result.exit_code {
        entries.push(diff_entry("exit-code", Err(expected), Err(got)));
    }
    assert(entries_view(entries@) =~= code_entry(test_result.exit_code));
    let ghost first = entries_view(entries@);
    if let ValueComparison::Diff { expected, got } = &test_result.stderr {
        entries.push(diff_entry("stderr", Ok(expected.clone()), Ok(got.clone())));
    }
    assert(entries_view(entries@) =~= first + text_entry("stderr"@, test_result.stderr));
    let ghost second = entries_view(entries@);
    if let ValueComparison::Diff { expected, got } = &test_result.stdout {
        entries.push(diff_entry("stdout", Ok(expected.clone()), Ok(got.clone())));
    }
    assert(entries_view(entries@) =~= second + text_entry("stdout"@, test_result.stdout));
    entries
}

/// The diagnostics of a failed run as YAML.
pub fn format_test_result(test_result: &TestResult) -> (r: String)
    ensures
        r@ == match yaml_of(diagnostics_of(*test_result)) {
            Some(t) => t,
            None => "Failed to convert to YAML\n"@,
        },
{
    match yaml_text(diagnostic_entries(test_result)) {
        Some(text) => text,
        None => String::from_str("Failed to convert to YAML\n"),
    }
}

} // verus!
