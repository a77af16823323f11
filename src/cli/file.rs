use vstd::prelude::*;

use crate::test_id::{dotted_path, TestId};
use crate::utils::file::{
    is_absolute_path, path_is_absolute, relative_form, relative_form_of, split_file_name,
    split_file_name_spec,
};
use crate::utils::string::opt_text;

verus! {

/// What a path on the command line asks for: the document on standard
/// input, every document a pattern matches, or one test of one document.
#[derive(PartialEq, Eq, PartialOrd, Ord, Clone, Debug)]
pub enum TestPath {
    Pipe,
    Glob(String),
    SpecificFile { source_file: String, test_id: TestId },
}

/// `r` is what the selector `s` asks for.
pub open spec fn test_path_of(s: Seq<char>, r: TestPath) -> bool {
    if s == "-"@ {
        r is Pipe
    } else {
        match split_file_name_spec(s) {
            (path, Some(suffix)) => r matches TestPath::SpecificFile { source_file, test_id }
                && source_file@ == path && test_id@ == dotted_path(suffix),
            (_, None) => r matches TestPath::Glob(pattern) && pattern@ == s,
        }
    }
}

/// Reads a selector: `-`, `file:group.case`, or a path or pattern.
pub fn parse_test_path(s: &str) -> (r: TestPath)
    ensures
        test_path_of(s@, r),
{
    let given = String::from_str(s);
    let pipe = String::from_str("-");
    if given == pipe {
        return TestPath::Pipe;
    }
    match split_file_name(s) {
        (path, Some(suffix)) => TestPath::SpecificFile {
            source_file: path,
            test_id: TestId::from(suffix.as_str()),
        },
        (_, None) => TestPath::Glob(given),
    }
}

/// What `pathdiff::diff_paths` gives: the path that leads from `base` to `path`.
pub uninterp spec fn path_diff_of(path: Seq<char>, base: Seq<char>) -> Option<Seq<char>>;

/// Relies on `pathdiff::diff_paths`: the path from `base` to `path`, where
/// there is one.
#[verifier::external_body]
fn path_diff(path: &str, base: &str) -> (r: Option<String>)
    ensures
        opt_text(r) == path_diff_of(path@, base@),
{
    pathdiff::diff_paths(path, base).map(|p| p.to_string_lossy().into_owned())
}

/// The form of `path` relative to the directory `base`: a relative path as
/// it is, an absolute one as seen from `base`.
pub open spec fn relative_to(path: Seq<char>, base: Seq<char>) -> Option<Seq<char>> {
    if !is_absolute_path(path) {
        relative_form_of(path)
    } else {
        match path_diff_of(path, base) {
            Some(d) => relative_form_of(d),
            None => None,
        }
    }
}

pub fn get_relative_path(path: &str, base: &str) -> (r: Option<String>)
    ensures
        opt_text(r) == relative_to(path@, base@),
{
    if !path_is_absolute(path) {
        relative_form(path)
    } else {
        match path_diff(path, base) {
            Some(d) => relative_form(d.as_str()),
            None => None,
        }
    }
}

} // verus!
