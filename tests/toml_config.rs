use aureum::test_id::TestId;
use aureum::test_result::{test_result_from_output, RunError, ValueComparison};
use aureum::test_runner::{
    count_passed, in_input_order, listed_results, process_exit_code, summary_line, summary_message,
    summary_result_text, tap_message, RunResult,
};
use aureum::toml_config::{
    any_issues_in_toml_config, build_test_details, gather_requirements,
    get_requirements_from_leaf_config, get_requirements_from_leaves, merge_toml_configs,
    resolve_leaves, show_validation_error, split_toml_config, test_cases_of, test_details_with_program,
    ConfigValue, ProgramPath, Requirement, TestCaseValidationError, TomlConfig, TomlConfigData,
};
use aureum::utils::file::{
    after_local_search, display_path, find_executable_path, parent_dir, shown_file_name, split_at_first_colon,
    split_file_name,
};
use aureum::cli::file::{get_relative_path, parse_test_path, TestPath};
use aureum::cli::report::config_details_tree;
use aureum::cli::{parse_output_format, OutputFormat};
use aureum::formats::tree::draw_tree;
use std::path::Path;

fn empty_config() -> TomlConfig {
    TomlConfig {
        description: None,
        program: None,
        program_arguments: None,
        stdin: None,
        expected_stdout: None,
        expected_stderr: None,
        expected_exit_code: None,
        tests: None,
    }
}

fn text(s: &str) -> Option<ConfigValue<String>> {
    Some(ConfigValue::Literal(String::from(s)))
}

fn resolved(program: &str) -> ProgramPath {
    ProgramPath::ResolvedPath {
        requested_path: String::from(program),
        resolved_path: format!("/bin/{}", program),
    }
}

#[test]
fn merge_with_empty_override_keeps_parent_fields() {
    let mut parent = empty_config();
    parent.program = text("echo");
    parent.expected_stdout = text("hi\n");
    parent.program_arguments = Some(vec![ConfigValue::Literal(String::from("hi"))]);
    parent.tests = Some(vec![(String::from("x"), empty_config())]);
    let merged = merge_toml_configs(parent, empty_config());
    assert!(matches!(merged.program, Some(ConfigValue::Literal(ref p)) if p == "echo"));
    assert!(matches!(merged.expected_stdout, Some(ConfigValue::Literal(ref p)) if p == "hi\n"));
    assert_eq!(merged.program_arguments.map(|a| a.len()), Some(1));
    assert!(merged.tests.is_none());
}

#[test]
fn merge_prefers_the_sub_config() {
    let mut parent = empty_config();
    parent.program = text("echo");
    parent.expected_exit_code = Some(ConfigValue::Literal(0));
    let mut sub = empty_config();
    sub.expected_exit_code = Some(ConfigValue::Literal(1));
    let merged = merge_toml_configs(parent, sub);
    assert!(matches!(merged.expected_exit_code, Some(ConfigValue::Literal(1))));
    assert!(matches!(merged.program, Some(ConfigValue::Literal(ref p)) if p == "echo"));
}

#[test]
fn scenario_single_root_test_case() {
    let mut config = empty_config();
    config.program = text("echo");
    config.program_arguments = Some(vec![ConfigValue::Literal(String::from("hi"))]);
    config.expected_stdout = text("hi\n");
    let leaves = split_toml_config(config);
    assert_eq!(leaves.len(), 1);
    assert!(leaves[0].0.is_root());
    let (id, leaf) = leaves.into_iter().next().unwrap();
    let data = TomlConfigData::new();
    let details =
        test_details_with_program(leaf, String::from("t.au.toml"), id, &data, resolved("echo"));
    let test_case = details.test_case.unwrap();
    assert_eq!(test_case.arguments, vec![String::from("hi")]);
    assert_eq!(test_case.program, "/bin/echo");
    assert_eq!(test_case.id(), "t.au.toml");
    let result = test_result_from_output(&test_case, b"hi\n".to_vec(), vec![], Some(0)).ok().unwrap();
    assert_eq!(result.stdout, ValueComparison::Matches(String::from("hi\n")));
    assert_eq!(result.stderr, ValueComparison::NotChecked);
    assert_eq!(result.exit_code, ValueComparison::NotChecked);
    assert!(result.is_success());
}

#[test]
fn scenario_two_sub_tests_one_invalid() {
    let mut a = empty_config();
    a.expected_exit_code = Some(ConfigValue::Literal(1));
    let b = empty_config();
    let mut config = empty_config();
    config.program = text("echo");
    config.tests = Some(vec![(String::from("a"), a), (String::from("b"), b)]);
    let leaves = split_toml_config(config);
    assert_eq!(leaves.len(), 2);
    assert_eq!(leaves[0].0.to_string(), "a");
    assert_eq!(leaves[1].0.to_string(), "b");
    let data = TomlConfigData::new();
    let mut outcomes = vec![];
    for (id, leaf) in leaves {
        outcomes.push(test_details_with_program(leaf, String::from("d.au.toml"), id, &data, resolved("echo")));
    }
    let case_a = outcomes[0].test_case.as_ref().ok().unwrap();
    assert_eq!(case_a.expected_exit_code, Some(1));
    assert_eq!(case_a.id(), "d.au.toml:a");
    let errors_b = outcomes[1].test_case.as_ref().err().unwrap();
    assert_eq!(errors_b, &vec![TestCaseValidationError::ExpectationRequired]);
}

#[test]
fn scenario_missing_env_var() {
    let mut config = empty_config();
    config.program = text("echo");
    config.expected_stdout = Some(ConfigValue::FetchFromEnv { env: String::from("MISSING_VAR") });
    let requirements = get_requirements_from_leaf_config(&config);
    assert_eq!(requirements, vec![Requirement::EnvVar(String::from("MISSING_VAR"))]);
    let data = gather_requirements(&requirements, vec![None]);
    let details =
        test_details_with_program(config, String::from("e.au.toml"), TestId::root(), &data, resolved("echo"));
    let errors = details.test_case.err().unwrap();
    assert_eq!(errors, vec![TestCaseValidationError::MissingEnvVar(String::from("MISSING_VAR"))]);
}

#[test]
fn scenario_exit_code_difference() {
    let mut config = empty_config();
    config.program = text("sh");
    config.expected_exit_code = Some(ConfigValue::Literal(0));
    let data = TomlConfigData::new();
    let details =
        test_details_with_program(config, String::from("f.au.toml"), TestId::root(), &data, resolved("sh"));
    let test_case = details.test_case.ok().unwrap();
    let result = test_result_from_output(&test_case, vec![], vec![], Some(2)).ok().unwrap();
    assert_eq!(result.exit_code, ValueComparison::Diff { expected: 0, got: 2 });
    assert_eq!(result.stdout, ValueComparison::NotChecked);
    assert_eq!(result.stderr, ValueComparison::NotChecked);
    assert!(!result.is_success());
}

#[test]
fn one_file_read_serves_two_leaves() {
    let mut parent = empty_config();
    parent.program = text("cat");
    parent.expected_stdout = Some(ConfigValue::ReadFromFile { file: String::from("x") });
    parent.tests = Some(vec![
        (String::from("one"), empty_config()),
        (String::from("two"), empty_config()),
    ]);
    let leaves = split_toml_config(parent);
    let requirements = get_requirements_from_leaves(&leaves);
    assert_eq!(requirements, vec![Requirement::ExternalFile(String::from("x"))]);
    let data = gather_requirements(&requirements, vec![Some(String::from("content"))]);
    let mut stdouts = vec![];
    for (id, leaf) in leaves {
        let details = test_details_with_program(leaf, String::from("g.au.toml"), id, &data, resolved("cat"));
        stdouts.push(details.test_case.ok().unwrap().expected_stdout);
    }
    assert_eq!(stdouts[0], Some(String::from("content")));
    assert_eq!(stdouts[0], stdouts[1]);
    assert_eq!(data.get_file(&String::from("x")), Some(String::from("content")));
    assert_eq!(data.file_requirements(), vec![(String::from("x"), true)]);
    assert!(!data.any_missing_file_requirements());
}

#[test]
fn every_error_is_recorded() {
    let mut config = empty_config();
    config.program = Some(ConfigValue::ReadFromFile { file: String::from("p") });
    config.program_arguments = Some(vec![
        ConfigValue::FetchFromEnv { env: String::from("A") },
        ConfigValue::WrappedLiteral { value: String::from("ok") },
    ]);
    config.expected_exit_code = Some(ConfigValue::FetchFromEnv { env: String::from("CODE") });
    let requirements = get_requirements_from_leaf_config(&config);
    assert_eq!(
        requirements,
        vec![
            Requirement::ExternalFile(String::from("p")),
            Requirement::EnvVar(String::from("A")),
            Requirement::EnvVar(String::from("CODE")),
        ]
    );
    let values: Vec<Option<String>> = requirements
        .iter()
        .map(|r| match r {
            Requirement::ExternalFile(_) => None,
            Requirement::EnvVar(n) if n == "CODE" => Some(String::from("zero")),
            Requirement::EnvVar(_) => None,
        })
        .collect();
    let data = gather_requirements(&requirements, values);
    assert!(data.any_missing_file_requirements());
    assert!(data.any_missing_env_requirements());
    let details = test_details_with_program(
        config,
        String::from("h.au.toml"),
        TestId::root(),
        &data,
        ProgramPath::NotSpecified,
    );
    let errors = details.test_case.err().unwrap();
    assert_eq!(
        errors,
        vec![
            TestCaseValidationError::MissingExternalFile(String::from("p")),
            TestCaseValidationError::MissingEnvVar(String::from("A")),
            TestCaseValidationError::FailedToParseString,
            TestCaseValidationError::ProgramRequired,
        ]
    );
}

#[test]
fn numbers_read_from_outside_are_parsed() {
    let mut config = empty_config();
    config.program = text("true");
    config.expected_exit_code = Some(ConfigValue::ReadFromFile { file: String::from("code") });
    let requirements = get_requirements_from_leaf_config(&config);
    let data = gather_requirements(&requirements, vec![Some(String::from("-7"))]);
    let details =
        test_details_with_program(config, String::from("n.au.toml"), TestId::root(), &data, resolved("true"));
    assert_eq!(details.test_case.ok().unwrap().expected_exit_code, Some(-7));
}

#[test]
fn program_not_found_is_reported() {
    let mut config = empty_config();
    config.program = text("surely-no-such-program-here");
    config.expected_stdout = text("");
    let data = TomlConfigData::new();
    let details = build_test_details(config, String::from("m.au.toml"), TestId::root(), &data);
    assert_eq!(
        details.test_case.err().unwrap(),
        vec![TestCaseValidationError::ProgramNotFound(String::from("surely-no-such-program-here"))]
    );
}

#[test]
fn whole_document_resolution() {
    let mut config = empty_config();
    config.program = text("echo");
    config.tests = Some(vec![(String::from("a"), empty_config())]);
    let leaves = split_toml_config(config);
    let parsed = resolve_leaves(&String::from("z.au.toml"), leaves, TomlConfigData::new());
    assert_eq!(parsed.tests.len(), 1);
    assert!(any_issues_in_toml_config(&parsed));
}

#[test]
fn validation_messages() {
    assert_eq!(
        show_validation_error(&TestCaseValidationError::MissingExternalFile(String::from("f"))),
        "Missing external file 'f'"
    );
    assert_eq!(
        show_validation_error(&TestCaseValidationError::MissingEnvVar(String::from("V"))),
        "Missing environment variable 'V'"
    );
    assert_eq!(
        show_validation_error(&TestCaseValidationError::ProgramNotFound(String::from("p"))),
        "The program 'p' was not found"
    );
    assert_eq!(
        show_validation_error(&TestCaseValidationError::ExpectationRequired),
        "At least one expectation is required"
    );
    assert_eq!(
        show_validation_error(&TestCaseValidationError::ProgramRequired),
        "The field 'program' is required"
    );
    assert_eq!(
        show_validation_error(&TestCaseValidationError::FailedToParseString),
        "Failed to parse string"
    );
}

#[test]
fn run_errors_are_told_apart() {
    let mut config = empty_config();
    config.program = text("x");
    config.expected_stdout = text("a");
    let details = test_details_with_program(
        config,
        String::from("r.au.toml"),
        TestId::root(),
        &TomlConfigData::new(),
        resolved("x"),
    );
    let test_case = details.test_case.ok().unwrap();
    assert!(matches!(
        test_result_from_output(&test_case, vec![0xff], vec![], Some(0)),
        Err(RunError::FailedToDecodeUtf8)
    ));
    assert!(matches!(
        test_result_from_output(&test_case, b"a".to_vec(), vec![], None),
        Err(RunError::MissingExitCode)
    ));
}

fn run_result(stdout: &str, description: Option<&str>) -> RunResult {
    let mut config = empty_config();
    config.program = text("echo");
    config.expected_stdout = text("ok\n");
    config.description = description.map(|d| ConfigValue::Literal(String::from(d)));
    let test_case = test_details_with_program(
        config,
        String::from("s.au.toml"),
        TestId::root(),
        &TomlConfigData::new(),
        resolved("echo"),
    )
    .test_case
    .ok()
    .unwrap();
    let result = test_result_from_output(&test_case, stdout.as_bytes().to_vec(), vec![], Some(0));
    RunResult { test_case, result }
}

#[test]
fn parallel_and_sequential_orders_agree() {
    let sequential = vec![
        (0usize, run_result("ok\n", None)),
        (1usize, run_result("no\n", None)),
        (2usize, run_result("ok\n", None)),
    ];
    let shuffled = vec![
        (2usize, run_result("ok\n", None)),
        (0usize, run_result("ok\n", None)),
        (1usize, run_result("no\n", None)),
    ];
    let a = in_input_order(sequential);
    let b = in_input_order(shuffled);
    let oa: Vec<bool> = a.iter().map(|r| r.is_success()).collect();
    let ob: Vec<bool> = b.iter().map(|r| r.is_success()).collect();
    assert_eq!(oa, vec![true, false, true]);
    assert_eq!(oa, ob);
    assert_eq!(count_passed(&a), 2);
    assert_eq!(count_passed(&a), count_passed(&b));
    assert_eq!(listed_results(false, &a), vec![1]);
    assert_eq!(listed_results(true, &a), vec![0, 1, 2]);
}

#[test]
fn summary_texts() {
    assert_eq!(summary_line(3, 0), "Test result: OK (3 passed, 0 failed)");
    assert_eq!(summary_line(1, 2), "Test result: FAIL (1 passed, 2 failed)");
    let passing = run_result("ok\n", Some("greets"));
    assert_eq!(summary_message(&passing.test_case), "s.au.toml - greets");
    assert_eq!(tap_message(&passing.test_case), "s.au.toml # greets");
    assert_eq!(summary_result_text(&passing), "✅ s.au.toml - greets\n");
    let failing = run_result("no\n", None);
    let text = summary_result_text(&failing);
    assert!(text.starts_with(" ❌ s.au.toml\n └─ Standard output\n"));
}

#[test]
fn output_formats() {
    assert_eq!(parse_output_format("summary"), Ok(OutputFormat::Summary));
    assert_eq!(parse_output_format("tap"), Ok(OutputFormat::Tap));
    assert!(parse_output_format("xml").is_err());
}

#[test]
fn parent_directories() {
    assert_eq!(parent_dir("a/b.au.toml"), "a");
    assert_eq!(parent_dir("b.au.toml"), "");
    assert_eq!(parent_dir(""), ".");
}

fn assert_split_file_name(input_path: &str, expected_path: &str, expected_suffix: Option<&str>) {
    let (output_path, suffix) = split_file_name(input_path);
    assert_eq!(output_path, expected_path);
    assert_eq!(suffix, expected_suffix.map(|x| x.to_owned()));
}

#[test]
fn test_split_file_name_no_colon() {
    assert_split_file_name("example", "example", None);
}

#[test]
fn test_split_file_name_with_colon() {
    assert_split_file_name("example:ID", "example", Some("ID"));
}

#[test]
fn test_split_file_name_with_colon_and_sub_dir() {
    assert_split_file_name("sub_dir/example:ID", "sub_dir/example", Some("ID"));
}

#[test]
fn test_split_file_name_with_colon_and_absolute_path() {
    assert_split_file_name("/sub_dir/example:ID", "/sub_dir/example", Some("ID"));
}

#[test]
fn split_file_name_keeps_later_colons() {
    assert_split_file_name("x:a.b:c", "x", Some("a.b:c"));
}

fn assert_executable_exists(binary_name: &str) {
    let executable_path = find_executable_path(binary_name, "tests/file_utils").ok().unwrap();
    assert!(Path::new(&executable_path).is_absolute());
}

#[test]
fn file_utils_test_test_program_exists_in_path() {
    assert_executable_exists("bash");
}

#[test]
fn file_utils_test_test_program_exists_at_absolute_path() {
    assert_executable_exists("/bin/bash");
}

#[test]
fn file_util_test_test_program_exists_in_path() {
    assert_executable_exists("bash");
}

#[test]
fn file_util_test_test_program_exists_at_absolute_path() {
    assert_executable_exists("/bin/bash");
}

#[test]
fn test_display_path_with_absolute_path() {
    let displayed_path = display_path("/example");

    assert_eq!(displayed_path, "<absolute path to 'example'>");
}

#[test]
fn test_display_path_with_root_dir() {
    let displayed_path = display_path("/");

    assert_eq!(displayed_path, "<root directory>");
}

#[test]
fn test_display_path_with_file_name() {
    let displayed_path = display_path("example");

    assert_eq!(displayed_path, "example");
}

#[test]
fn test_display_path_with_relative_path() {
    let displayed_path = display_path("sub_dir/example");

    assert_eq!(displayed_path, "sub_dir/example");
}

#[test]
fn display_path_drops_exe_suffix() {
    assert_eq!(display_path("/bin/tool.exe"), "<absolute path to 'tool'>");
}

#[test]
fn document_requirements_include_sub_tests() {
    let mut grandchild = empty_config();
    grandchild.stdin = Some(ConfigValue::ReadFromFile { file: String::from("in.txt") });
    let mut child = empty_config();
    child.expected_stdout = Some(ConfigValue::FetchFromEnv { env: String::from("OUT") });
    child.tests = Some(vec![(String::from("g"), grandchild)]);
    let mut document = empty_config();
    document.program = Some(ConfigValue::ReadFromFile { file: String::from("in.txt") });
    document.description = text("plain");
    document.tests = Some(vec![(String::from("c"), child)]);
    let requirements = document.get_requirements();
    assert_eq!(
        requirements,
        vec![
            Requirement::ExternalFile(String::from("in.txt")),
            Requirement::EnvVar(String::from("OUT")),
        ]
    );
}

#[test]
fn document_with_one_valid_and_one_invalid_leaf() {
    let mut a = empty_config();
    a.expected_exit_code = Some(ConfigValue::Literal(1));
    let mut config = empty_config();
    config.program = text("/bin/sh");
    config.tests = Some(vec![(String::from("a"), a), (String::from("b"), empty_config())]);
    let leaves = split_toml_config(config);
    let parsed = resolve_leaves(&String::from("doc.au.toml"), leaves, TomlConfigData::new());
    assert!(any_issues_in_toml_config(&parsed));
    let sorted = test_cases_of(parsed);
    assert_eq!(sorted.test_cases.len(), 1);
    assert_eq!(sorted.test_cases[0].id(), "doc.au.toml:a");
    assert_eq!(sorted.validation_errors.len(), 1);
    assert_eq!(sorted.validation_errors[0].0.to_string(), "b");
    assert_eq!(sorted.validation_errors[0].1, vec![TestCaseValidationError::ExpectationRequired]);
}

#[test]
fn verbose_report_of_a_document() {
    let mut config = empty_config();
    config.program = text("/bin/sh");
    config.stdin = Some(ConfigValue::ReadFromFile { file: String::from("in.txt") });
    config.expected_stdout = Some(ConfigValue::FetchFromEnv { env: String::from("WANT") });
    let leaves = split_toml_config(config);
    let requirements = get_requirements_from_leaves(&leaves);
    let data = gather_requirements(&requirements, vec![Some(String::from("x")), None]);
    let parsed = resolve_leaves(&String::from("v.au.toml"), leaves, data);
    let drawn = draw_tree(&config_details_tree("v.au.toml", &parsed, true, true));
    assert_eq!(
        drawn,
        " 📋 v.au.toml\n ├─ Program to run\n │  └─ ✅ <absolute path to 'sh'>\n ├─ Requirements\n │  ├─ Files\n │  │  └─ ✅ in.txt\n │  └─ Environment\n │     └─ ❌ WANT\n └─ Validation errors\n    └─ ❌ Missing environment variable 'WANT'\n"
    );
    let quiet = draw_tree(&config_details_tree("v.au.toml", &parsed, false, true));
    assert_eq!(
        quiet,
        " 📋 v.au.toml\n └─ Validation errors\n    └─ ❌ Missing environment variable 'WANT'\n"
    );
}

#[test]
fn colon_splits() {
    assert_eq!(
        split_at_first_colon("a:b:c"),
        Some((String::from("a"), String::from("b:c")))
    );
    assert_eq!(split_at_first_colon(":x"), Some((String::new(), String::from("x"))));
    assert_eq!(split_at_first_colon("plain"), None);
}

#[test]
fn shown_file_names() {
    assert_eq!(shown_file_name("run.exe"), "<absolute path to 'run'>");
    assert_eq!(shown_file_name("exe"), "<absolute path to 'exe'>");
    assert_eq!(shown_file_name(".exe"), "<absolute path to ''>");
}

#[test]
fn exit_codes() {
    assert_eq!(process_exit_code(false, false, true), 2);
    assert_eq!(process_exit_code(true, true, true), 1);
    assert_eq!(process_exit_code(true, false, false), 1);
    assert_eq!(process_exit_code(true, false, true), 0);
}

#[test]
fn numbers_at_the_edges_of_i32() {
    let mut config = empty_config();
    config.program = text("true");
    config.expected_exit_code = Some(ConfigValue::FetchFromEnv { env: String::from("N") });
    let requirements = get_requirements_from_leaf_config(&config);
    let data = gather_requirements(&requirements, vec![Some(String::from("2147483648"))]);
    let details =
        test_details_with_program(config, String::from("i.au.toml"), TestId::root(), &data, resolved("true"));
    assert_eq!(details.test_case.err().unwrap(), vec![TestCaseValidationError::FailedToParseString]);

    let mut config = empty_config();
    config.program = text("true");
    config.expected_exit_code = Some(ConfigValue::FetchFromEnv { env: String::from("N") });
    let data = gather_requirements(&requirements, vec![Some(String::from("-2147483648"))]);
    let details =
        test_details_with_program(config, String::from("i.au.toml"), TestId::root(), &data, resolved("true"));
    assert_eq!(details.test_case.ok().unwrap().expected_exit_code, Some(i32::MIN));
}

#[test]
fn data_keeps_names_in_order() {
    let mut config = empty_config();
    config.program = Some(ConfigValue::FetchFromEnv { env: String::from("B") });
    config.stdin = Some(ConfigValue::ReadFromFile { file: String::from("z") });
    config.expected_stdout = Some(ConfigValue::FetchFromEnv { env: String::from("A") });
    config.expected_stderr = Some(ConfigValue::ReadFromFile { file: String::from("y") });
    let requirements = get_requirements_from_leaf_config(&config);
    let values: Vec<Option<String>> = requirements
        .iter()
        .map(|r| match r {
            Requirement::ExternalFile(p) if p == "y" => Some(String::from("why")),
            Requirement::EnvVar(n) if n == "B" => Some(String::from("bee")),
            _ => None,
        })
        .collect();
    let data = gather_requirements(&requirements, values);
    assert_eq!(
        data.file_requirements(),
        vec![(String::from("y"), true), (String::from("z"), false)]
    );
    assert_eq!(
        data.env_requirements(),
        vec![(String::from("A"), false), (String::from("B"), true)]
    );
    assert_eq!(data.get_env_var(&String::from("B")), Some(String::from("bee")));
    assert_eq!(data.get_env_var(&String::from("Y")), None);
}

#[test]
fn wrapped_literals_need_nothing_from_outside() {
    let mut config = empty_config();
    config.program = Some(ConfigValue::WrappedLiteral { value: String::from("echo") });
    config.expected_stderr = Some(ConfigValue::WrappedLiteral { value: String::new() });
    assert!(get_requirements_from_leaf_config(&config).is_empty());
}

#[test]
fn test_path_selectors() {
    assert_eq!(parse_test_path("-"), TestPath::Pipe);
    assert_eq!(
        parse_test_path("dir/a.au.toml:group.case"),
        TestPath::SpecificFile {
            source_file: String::from("dir/a.au.toml"),
            test_id: TestId::from("group.case"),
        }
    );
    assert_eq!(parse_test_path("tests/*.au.toml"), TestPath::Glob(String::from("tests/*.au.toml")));
    assert_eq!(
        parse_test_path("a.au.toml:"),
        TestPath::SpecificFile { source_file: String::from("a.au.toml"), test_id: TestId::root() }
    );
}

#[test]
fn relative_paths() {
    assert_eq!(get_relative_path("a/b.au.toml", "/work"), Some(String::from("a/b.au.toml")));
    assert_eq!(get_relative_path("/work/a/b.au.toml", "/work"), Some(String::from("a/b.au.toml")));
    assert_eq!(get_relative_path("/other/c.au.toml", "/work"), Some(String::from("../other/c.au.toml")));
}

#[test]
fn empty_sub_test_table_is_the_root_leaf() {
    let mut config = empty_config();
    config.program = text("echo");
    config.tests = Some(vec![]);
    let leaves = split_toml_config(config);
    assert_eq!(leaves.len(), 1);
    assert!(leaves[0].0.is_root());
    assert!(matches!(leaves[0].1.program, Some(ConfigValue::Literal(ref p)) if p == "echo"));
}

#[test]
fn local_search_decisions() {
    assert_eq!(
        after_local_search(Ok(Some(String::from("./tool")))).map(|r| r.ok()),
        Some(Some(String::from("./tool")))
    );
    assert!(after_local_search(Ok(None)).is_none());
}
