use vstd::prelude::*;

use crate::utils::string::opt_text;

verus! {

#[verifier::external_type_specification]
#[verifier::external_body]
pub struct ExWhichError(which::Error);

/// What `relative_path::RelativePath::parent` gives for a non-empty path:
/// the path without its last component.
pub uninterp spec fn parent_of(path: Seq<char>) -> Seq<char>;

/// Relies on `relative_path::RelativePath::parent`: no parent for the empty
/// path, otherwise the path without its last component.
#[verifier::external_body]
fn relative_parent(path: &str) -> (r: Option<String>)
    ensures
        r is None <==> path@.len() == 0,
        r is Some ==> r->Some_0@ == parent_of(path@),
{
    relative_path::RelativePath::new(path).parent().map(|p| p.as_str().to_string())
}

/// Relies on `which::which_in_global`: the first executable named
/// `binary_name` in the directory `dir`, if any. What it finds depends on the disk.
#[verifier::external_body]
fn which_in_dir(binary_name: &str, dir: &str) -> (r: Result<Option<String>, which::Error>) {
    match which::which_in_global(binary_name, Some(dir)) {
        Ok(mut found) => Ok(found.next().map(|p| p.to_string_lossy().into_owned())),
        Err(e) => Err(e),
    }
}

/// Relies on `which::which`: the executable named `binary_name` on the
/// search path. What it finds depends on the disk and the environment.
#[verifier::external_body]
fn which_on_search_path(binary_name: &str) -> (r: Result<String, which::Error>) {
    which::which(binary_name).map(|p| p.to_string_lossy().into_owned())
}

/// The directory that holds the document at `path`; `.` where the path has no parent.
pub fn parent_dir(path: &str) -> (r: String)
    ensures
        r@ == (if path@.len() == 0 {
            seq!['.']
        } else {
            parent_of(path@)
        }),
{
    match relative_parent(path) {
        Some(p) => p,
        None => {
            proof {
                reveal_strlit(".");
            }
            String::from_str(".")
        },
    }
}

/// What the search beside the document decides: a path found there is the
/// answer; a failed search is returned as it is; where nothing was found,
/// `None` asks for the search path to be tried.
pub fn after_local_search(local: Result<Option<String>, which::Error>) -> (r: Option<
    Result<String, which::Error>,
>)
    ensures
        local matches Ok(Some(p)) ==> (r matches Some(Ok(q)) && q@ == p@),
        local matches Ok(None) ==> r is None,
        local is Err ==> r == Some(Err::<String, which::Error>(local->Err_0)),
{
    match local {
        Ok(Some(path)) => Some(Ok(path)),
        Ok(None) => None,
        Err(e) => Some(Err(e)),
    }
}

/// Finds an executable, first in `in_dir` and then on the search path.
/// The search path is tried only where nothing was found in `in_dir`; what
/// either search finds depends on the disk.
pub fn find_executable_path(binary_name: &str, in_dir: &str) -> (r: Result<String, which::Error>) {
    match after_local_search(which_in_dir(binary_name, in_dir)) {
        Some(decided) => decided,
        None => which_on_search_path(binary_name),
    }
}

/// What `std::path::Path::file_name` gives for a path: its last component,
/// if it is a name.
pub uninterp spec fn file_name_of(path: Seq<char>) -> Option<Seq<char>>;

/// What `std::path::PathBuf::set_file_name` makes of a path and a new name.
pub uninterp spec fn with_file_name_of(path: Seq<char>, name: Seq<char>) -> Seq<char>;

/// Relies on `std::path::Path::file_name`: the last component of the path
/// when it is a name.
#[verifier::external_body]
fn path_file_name(path: &str) -> (r: Option<String>)
    ensures
        opt_text(r) == file_name_of(path@),
{
    std::path::Path::new(path).file_name().map(|n| n.to_string_lossy().into_owned())
}

/// Relies on `std::path::PathBuf::set_file_name`: the path with its last
/// component replaced by `name`.
#[verifier::external_body]
fn path_with_file_name(path: &str, name: &str) -> (r: String)
    ensures
        r@ == with_file_name_of(path@, name@),
{
    let mut p = std::path::PathBuf::from(path);
    p.set_file_name(name);
    p.to_string_lossy().into_owned()
}


/// The index of the first `c` in `s`, or the length of `s` where there is none.
pub open spec fn first_index_of(s: Seq<char>, c: char) -> int
    decreases s.len(),
{
    if s.len() == 0 {
        0
    } else if s[0] == c {
        0
    } else {
        1 + first_index_of(s.drop_first(), c)
    }
}

proof fn lemma_first_index(s: Seq<char>, c: char, k: int)
    requires
        0 <= k <= s.len(),
        forall|j: int| 0 <= j < k ==> s[j] != c,
        k == s.len() || s[k] == c,
    ensures
        first_index_of(s, c) == k,
    decreases k,
{
    if k > 0 {
        assert forall|j: int| 0 <= j < k - 1 implies s.drop_first()[j] != c by {
            assert(s.drop_first()[j] == s[j + 1]);
        }
        lemma_first_index(s.drop_first(), c, k - 1);
    }
}

/// Where the file name of `path` holds a colon: the path with the name cut
/// before the first colon, and the text after it. Otherwise the path alone.
pub open spec fn split_file_name_spec(path: Seq<char>) -> (Seq<char>, Option<Seq<char>>) {
    match file_name_of(path) {
        Some(name) => match colon_split(name) {
            Some((prefix, suffix)) => (with_file_name_of(path, prefix), Some(suffix)),
            None => (path, None),
        },
        None => (path, None),
    }
}

/// The text before the first colon of `name` and the text after it; `None`
/// where `name` holds no colon.
pub open spec fn colon_split(name: Seq<char>) -> Option<(Seq<char>, Seq<char>)> {
    let i = first_index_of(name, ':');
    if i < name.len() {
        Some((name.subrange(0, i), name.subrange(i + 1, name.len() as int)))
    } else {
        None
    }
}

pub fn split_at_first_colon(name: &str) -> (r: Option<(String, String)>)
    ensures
        match r {
            Some((a, b)) => colon_split(name@) == Some((a@, b@)),
            None => colon_split(name@) is None,
        },
{
    let n = name.unicode_len();
    let mut i: usize = 0;
    while i < n && name.get_char(i) != ':'
        invariant
            n == name@.len(),
            i <= n,
            forall|j: int| 0 <= j < i ==> name@[j] != ':',
        decreases n - i,
    {
        i = i + 1;
    }
    proof {
        lemma_first_index(name@, ':', i as int);
    }
    if i < n {
        Some(
            (
                String::from_str(name.substring_char(0, i)),
                String::from_str(name.substring_char(i + 1, n)),
            ),
        )
    } else {
        None
    }
}

/// Splits a selector `path:test.id` at the first colon of its file name.
pub fn split_file_name(p: &str) -> (r: (String, Option<String>))
    ensures
        (r.0@, opt_text(r.1)) == split_file_name_spec(p@),
{
    if let Some(file_name) = path_file_name(p) {
        if let Some((prefix, suffix)) = split_at_first_colon(file_name.as_str()) {
            let new_path = path_with_file_name(p, prefix.as_str());
            return (new_path, Some(suffix));
        }
    }
    (String::from_str(p), None)
}

/// What `std::path::Path::is_absolute` says of a path on this platform.
pub uninterp spec fn is_absolute_path(path: Seq<char>) -> bool;

/// What `relative_path::RelativePathBuf::from_path` makes of a path, shown
/// with `/` separators; `None` where it refuses the path.
pub uninterp spec fn relative_form_of(path: Seq<char>) -> Option<Seq<char>>;

/// Relies on `std::path::Path::is_absolute`.
#[verifier::external_body]
pub(crate) fn path_is_absolute(path: &str) -> (r: bool)
    ensures
        r == is_absolute_path(path@),
{
    std::path::Path::new(path).is_absolute()
}

/// Relies on `relative_path::RelativePathBuf::from_path`: the path in
/// relative form, refused where it is not relative.
#[verifier::external_body]
pub(crate) fn relative_form(path: &str) -> (r: Option<String>)
    ensures
        opt_text(r) == relative_form_of(path@),
{
    relative_path::RelativePathBuf::from_path(path).ok().map(|p| p.to_string())
}

/// A file name without a final `.exe`.
pub open spec fn without_exe(name: Seq<char>) -> Seq<char> {
    if name.len() >= 4 && name.subrange(name.len() - 4, name.len() as int) == ".exe"@ {
        name.subrange(0, name.len() - 4)
    } else {
        name
    }
}

/// How the file name of an absolute path is shown.
pub open spec fn shown_name(name: Seq<char>) -> Seq<char> {
    "<absolute path to '"@ + without_exe(name) + "'>"@
}

pub fn shown_file_name(file_name: &str) -> (r: String)
    ensures
        r@ == shown_name(file_name@),
{
    let n = file_name.unicode_len();
    let mut shown = String::from_str(file_name);
    if n >= 4 {
        let tail = String::from_str(file_name.substring_char(n - 4, n));
        let exe = String::from_str(".exe");
        if tail == exe {
            shown = String::from_str(file_name.substring_char(0, n - 4));
        }
    }
    let mut out = String::from_str("<absolute path to '");
    out.append(shown.as_str());
    out.append("'>");
    out
}

/// How a path is shown the same way on every platform: an absolute path
/// by its file name alone, a relative one with `/` separators.
pub open spec fn displayed_path(path: Seq<char>) -> Seq<char> {
    if is_absolute_path(path) {
        match file_name_of(path) {
            Some(name) => shown_name(name),
            None => "<root directory>"@,
        }
    } else {
        match relative_form_of(path) {
            Some(r) => r,
            None => "<invalid path>"@,
        }
    }
}

pub fn display_path(path: &str) -> (r: String)
    ensures
        r@ == displayed_path(path@),
{
    if path_is_absolute(path) {
        match path_file_name(path) {
            Some(file_name) => shown_file_name(file_name.as_str()),
            None => String::from_str("<root directory>"),
        }
    } else {
        match relative_form(path) {
            Some(r) => r,
            None => String::from_str("<invalid path>"),
        }
    }
}

} // verus!
