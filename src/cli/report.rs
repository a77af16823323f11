use vstd::prelude::*;

use crate::ascii_tree::Tree;
use crate::formats::tree::leaf_of;
use crate::test_id::join_with;
use crate::toml_config::{
    error_views, lookup, requirement_views, show_validation_error, validation_message,
    DataView, ParsedTomlConfig, ProgramPath, Requirement, RequirementView, TestDetails,
    TomlConfigData,
};
use crate::utils::file::{display_path, displayed_path};

verus! {

/// The mark in front of a requirement: whether it could be read.
pub open spec fn presence_mark(present: bool) -> Seq<char> {
    if present {
        "✅"@
    } else {
        "❌"@
    }
}

/// The file names among the requirements, in order.
pub open spec fn file_names(s: Seq<RequirementView>) -> Seq<Seq<char>>
    decreases s.len(),
{
    if s.len() == 0 {
        Seq::empty()
    } else {
        let init = file_names(s.drop_last());
        match s.last() {
            RequirementView::ExternalFile(p) => init.push(p),
            RequirementView::EnvVar(_) => init,
        }
    }
}

/// The variable names among the requirements, in order.
pub open spec fn env_names(s: Seq<RequirementView>) -> Seq<Seq<char>>
    decreases s.len(),
{
    if s.len() == 0 {
        Seq::empty()
    } else {
        let init = env_names(s.drop_last());
        match s.last() {
            RequirementView::ExternalFile(_) => init,
            RequirementView::EnvVar(n) => init.push(n),
        }
    }
}

/// `t` is a node titled `title` whose children are one-line leaves, one per
/// name, each marked by whether `table` holds a value for it.
pub open spec fn presence_node(
    t: Tree,
    title: Seq<char>,
    names: Seq<Seq<char>>,
    table: Map<Seq<char>, Option<Seq<char>>>,
) -> bool {
    t matches Tree::Node(heading, cs) && heading@ == title && cs@.len() == names.len() && forall|
        i: int,
    |
        0 <= i < names.len() ==> leaf_of(
            #[trigger] cs@[i],
            seq![presence_mark(lookup(table, names[i]) is Some) + " "@ + names[i]],
        )
}

/// The requirement nodes of one leaf: the files, then the variables, each
/// node only where there is something to list.
pub open spec fn requirements_fit(r: Seq<Tree>, reqs: Seq<RequirementView>, d: DataView) -> bool {
    let files = file_names(reqs);
    let env = env_names(reqs);
    let f = if files.len() > 0 {
        1int
    } else {
        0
    };
    &&& r.len() == f + (if env.len() > 0 {
        1int
    } else {
        0
    })
    &&& files.len() > 0 ==> presence_node(r[0], "Files"@, files, d.files)
    &&& env.len() > 0 ==> presence_node(r[f], "Environment"@, env, d.env)
}

fn str_to_tree(msg: String) -> (r: Tree)
    ensures
        leaf_of(r, seq![msg@]),
{
    let mut lines: Vec<String> = Vec::new();
    lines.push(msg);
    let r = Tree::Leaf(lines);
    assert(crate::test_id::texts_of(lines@) =~= seq![msg@]);
    r
}

fn presence_line(present: bool, name: &String) -> (r: String)
    ensures
        r@ == presence_mark(present) + " "@ + name@,
{
    let mut out = if present {
        String::from_str("✅")
    } else {
        String::from_str("❌")
    };
    out.append(" ");
    out.append(name.as_str());
    out
}

/// The requirements of one leaf, each marked by whether it could be read.
pub fn requirements_map(requirements: &Vec<Requirement>, data: &TomlConfigData) -> (r: Vec<Tree>)
    ensures
        requirements_fit(r@, requirement_views(requirements@), data@),
{
    let ghost reqs = requirement_views(requirements@);
    let mut files: Vec<Tree> = Vec::new();
    let mut env_vars: Vec<Tree> = Vec::new();
    let mut i: usize = 0;
    while i < requirements.len()
        invariant
            reqs == requirement_views(requirements@),
            i <= requirements@.len(),
            files@.len() == file_names(reqs.subrange(0, i as int)).len(),
            env_vars@.len() == env_names(reqs.subrange(0, i as int)).len(),
            forall|j: int|
                0 <= j < files@.len() ==> leaf_of(
                    #[trigger] files@[j],
                    seq![presence_mark(lookup(data@.files, file_names(reqs.subrange(0, i as int))[j]) is Some) + " "@ + file_names(reqs.subrange(0, i as int))[j]],
                ),
            forall|j: int|
                0 <= j < env_vars@.len() ==> leaf_of(
                    #[trigger] env_vars@[j],
                    seq![presence_mark(lookup(data@.env, env_names(reqs.subrange(0, i as int))[j]) is Some) + " "@ + env_names(reqs.subrange(0, i as int))[j]],
                ),
        decreases requirements@.len() - i,
    {
        let ghost before = reqs.subrange(0, i as int);
        let ghost after = reqs.subrange(0, i + 1);
        assert(after.drop_last() =~= before);
        assert(after.last() == reqs[i as int]);
        match &requirements[i] {
            Requirement::ExternalFile(path) => {
                let has_value = data.get_file(path).is_some();
                files.push(str_to_tree(presence_line(has_value, path)));
                assert(file_names(after) == file_names(before).push(path@));
                assert(env_names(after) == env_names(before));
            },
            Requirement::EnvVar(var_name) => {
                let has_value = data.get_env_var(var_name).is_some();
                env_vars.push(str_to_tree(presence_line(has_value, var_name)));
                assert(env_names(after) == env_names(before).push(var_name@));
                assert(file_names(after) == file_names(before));
            },
        }
        i = i + 1;
    }
    assert(reqs.subrange(0, i as int) =~= reqs);
    let mut categories: Vec<Tree> = Vec::new();
    if files.len() > 0 {
        categories.push(Tree::Node(String::from_str("Files"), files));
    }
    let ghost head = categories@;
    if env_vars.len() > 0 {
        categories.push(Tree::Node(String::from_str("Environment"), env_vars));
        assert(categories@[head.len() as int] == categories@.last());
    }
    categories
}

/// How the program of a leaf is shown: where it was found, or why not.
pub open spec fn program_line(p: ProgramPath, hide_absolute_paths: bool) -> Seq<char> {
    match p {
        ProgramPath::NotSpecified => "❌ Not specified"@,
        ProgramPath::MissingProgram { requested_path: _ } => "❌ Not found"@,
        ProgramPath::ResolvedPath { requested_path: _, resolved_path } => "✅ "@ + (if hide_absolute_paths {
            displayed_path(resolved_path@)
        } else {
            resolved_path@
        }),
    }
}

/// `t` is a node titled `title` whose children are the one-line leaves `lines`.
pub open spec fn lines_node(t: Tree, title: Seq<char>, lines: Seq<Seq<char>>) -> bool {
    t matches Tree::Node(heading, cs) && heading@ == title && cs@.len() == lines.len() && forall|
        i: int,
    | 0 <= i < lines.len() ==> leaf_of(#[trigger] cs@[i], seq![lines[i]])
}

/// The nodes shown for one leaf: in verbose mode the program and the
/// requirements; then the validation errors, where there are any.
pub open spec fn details_nodes_fit(
    r: Seq<Tree>,
    t: TestDetails,
    d: DataView,
    verbose: bool,
    hide_absolute_paths: bool,
) -> bool {
    let reqs = requirement_views(t.requirements@);
    let has_reqs = file_names(reqs).len() > 0 || env_names(reqs).len() > 0;
    let v = if verbose {
        1int + if has_reqs {
            1int
        } else {
            0
        }
    } else {
        0
    };
    &&& r.len() == v + (if t.test_case is Err {
        1int
    } else {
        0
    })
    &&& verbose ==> lines_node(
        r[0],
        "Program to run"@,
        seq![program_line(t.program_path, hide_absolute_paths)],
    )
    &&& verbose && has_reqs ==> (r[1] matches Tree::Node(heading, cs) && heading@ == "Requirements"@
        && requirements_fit(cs@, reqs, d))
    &&& t.test_case is Err ==> lines_node(
        r[v],
        "Validation errors"@,
        error_views(t.test_case->Err_0@).map_values(
            |e: crate::toml_config::ValidationErrorView| "❌ "@ + validation_message(e),
        ),
    )
}

fn program_to_run(p: &ProgramPath, hide_absolute_paths: bool) -> (r: String)
    ensures
        r@ == program_line(*p, hide_absolute_paths),
{
    match p {
        ProgramPath::NotSpecified => String::from_str("❌ Not specified"),
        ProgramPath::MissingProgram { requested_path: _ } => String::from_str("❌ Not found"),
        ProgramPath::ResolvedPath { requested_path: _, resolved_path } => {
            let path = if hide_absolute_paths {
                display_path(resolved_path.as_str())
            } else {
                resolved_path.clone()
            };
            let mut out = String::from_str("✅ ");
            out.append(path.as_str());
            out
        },
    }
}

/// The nodes shown for the details of one leaf.
pub fn details_nodes(
    test_details: &TestDetails,
    data: &TomlConfigData,
    verbose: bool,
    hide_absolute_paths: bool,
) -> (r: Vec<Tree>)
    ensures
        details_nodes_fit(r@, *test_details, data@, verbose, hide_absolute_paths),
{
    let mut categories: Vec<Tree> = Vec::new();
    if verbose {
        let mut program: Vec<Tree> = Vec::new();
        program.push(str_to_tree(program_to_run(&test_details.program_path, hide_absolute_paths)));
        categories.push(Tree::Node(String::from_str("Program to run"), program));
        let requirements = requirements_map(&test_details.requirements, data);
        if requirements.len() > 0 {
            categories.push(Tree::Node(String::from_str("Requirements"), requirements));
        }
    }
    let ghost head = categories@;
    if let Err(validation_errors) = &test_details.test_case {
        let ghost msgs = error_views(validation_errors@).map_values(
            |e: crate::toml_config::ValidationErrorView| "❌ "@ + validation_message(e),
        );
        let mut nodes: Vec<Tree> = Vec::new();
        let mut i: usize = 0;
        while i < validation_errors.len()
            invariant
                msgs == error_views(validation_errors@).map_values(
                    |e: crate::toml_config::ValidationErrorView| "❌ "@ + validation_message(e),
                ),
                i <= validation_errors@.len(),
                nodes@.len() == i,
                forall|j: int| 0 <= j < i ==> leaf_of(#[trigger] nodes@[j], seq![msgs[j]]),
            decreases validation_errors@.len() - i,
        {
            let mut line = String::from_str("❌ ");
            line.append(show_validation_error(&validation_errors[i]).as_str());
            assert(line@ == msgs[i as int]);
            nodes.push(str_to_tree(line));
            i = i + 1;
        }
        categories.push(Tree::Node(String::from_str("Validation errors"), nodes));
        assert(categories@[head.len() as int] == categories@.last());
    }
    categories
}

/// `t` shows a resolved document: under the document's heading, the nodes
/// of its only leaf when that leaf is the root, else one node per leaf,
/// titled by its id.
pub open spec fn config_tree_fit(
    t: Tree,
    source_file: Seq<char>,
    c: ParsedTomlConfig,
    verbose: bool,
    hide_absolute_paths: bool,
) -> bool {
    let tests = c.tests@;
    t matches Tree::Node(heading, nodes) && heading@ == "📋 "@ + source_file && (if tests.len() == 1
        && tests[0].0@.len() == 0 {
        details_nodes_fit(nodes@, tests[0].1, c.data@, verbose, hide_absolute_paths)
    } else {
        nodes@.len() == tests.len() && forall|i: int|
            0 <= i < tests.len() ==> (#[trigger] nodes@[i] matches Tree::Node(title, cs) && title@
                == join_with(tests[i].0@, '.') && details_nodes_fit(
                cs@,
                tests[i].1,
                c.data@,
                verbose,
                hide_absolute_paths,
            ))
    })
}

/// The tree that reports on a resolved document.
pub fn config_details_tree(
    source_file: &str,
    config: &ParsedTomlConfig,
    verbose: bool,
    hide_absolute_paths: bool,
) -> (r: Tree)
    ensures
        config_tree_fit(r, source_file@, *config, verbose, hide_absolute_paths),
{
    let mut heading = String::from_str("📋 ");
    heading.append(source_file);
    let n = config.tests.len();
    if n == 1 && config.tests[0].0.is_root() {
        let nodes = details_nodes(&config.tests[0].1, &config.data, verbose, hide_absolute_paths);
        return Tree::Node(heading, nodes);
    }
    let mut nodes: Vec<Tree> = Vec::new();
    let mut i: usize = 0;
    while i < n
        invariant
            n == config.tests@.len(),
            i <= n,
            nodes@.len() == i,
            forall|j: int|
                0 <= j < i ==> (#[trigger] nodes@[j] matches Tree::Node(title, cs) && title@
                    == join_with(config.tests@[j].0@, '.') && details_nodes_fit(
                    cs@,
                    config.tests@[j].1,
                    config.data@,
                    verbose,
                    hide_absolute_paths,
                )),
        decreases n - i,
    {
        let children = details_nodes(&config.tests[i].1, &config.data, verbose, hide_absolute_paths);
        nodes.push(Tree::Node(config.tests[i].0.to_string(), children));
        i = i + 1;
    }
    Tree::Node(heading, nodes)
}

} // verus!
