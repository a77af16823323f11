use vstd::prelude::*;

use crate::test_id::{join_with, TestId};

verus! {

/// A fully resolved test, ready to run. Paths are held as text.
#[derive(Clone, Debug)]
pub struct TestCase {
    pub source_file: String,
    pub id: TestId,
    pub description: Option<String>,
    pub program: String,
    pub arguments: Vec<String>,
    pub stdin: Option<String>,
    pub expected_stdout: Option<String>,
    pub expected_stderr: Option<String>,
    pub expected_exit_code: Option<i32>,
}

/// The name under which a test is shown: the document, then `:` and the
/// dotted id unless the id is the root.
pub open spec fn shown_id(source_file: Seq<char>, id: Seq<Seq<char>>) -> Seq<char> {
    if id.len() == 0 {
        source_file
    } else {
        source_file + seq![':'] + join_with(id, '.')
    }
}

impl TestCase {
    pub fn id(&self) -> (r: String)
        ensures
            r@ == shown_id(self.source_file@, self.id@),
    {
        let file_path = self.source_file.clone();
        if self.id.is_root() {
            file_path
        } else {
            proof {
                reveal_strlit(":");
            }
            let mut out = file_path;
            out.append(":");
            let id_text = self.id.to_string();
            out.append(id_text.as_str());
            out
        }
    }
}

} // verus!
