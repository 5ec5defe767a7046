//! Portable case root resolution.

use awslog_core::paths::{self, Refusal, RootSources};
use awslog_core::scan::FilePath;

fn path(text: &str) -> FilePath {
    FilePath { parts: text.split('/').map(str::to_owned).collect() }
}

fn shown(path: &FilePath) -> String {
    path.parts.join("/")
}

fn sources<'a>(
    env: Option<&'a FilePath>,
    cli: Option<&'a FilePath>,
    exe: &'a FilePath,
) -> RootSources<'a> {
    RootSources { env_dir: env, cli_dir: cli, exe_dir: exe }
}

#[test]
fn env_var_wins_over_cli_and_exe_dir() {
    let env = path("/from/env");
    let cli = path("/from/cli");
    let exe = path("/from/exe");

    let root = paths::resolve(&sources(Some(&env), Some(&cli), &exe));

    assert_eq!(shown(&root), "/from/env");
}

#[test]
fn cli_wins_over_exe_dir() {
    let cli = path("/from/cli");
    let exe = path("/from/exe");

    let root = paths::resolve(&sources(None, Some(&cli), &exe));

    assert_eq!(shown(&root), "/from/cli");
}

#[test]
fn falls_back_to_cases_beside_executable() {
    let exe = path("/opt/tool");

    let root = paths::resolve(&sources(None, None, &exe));

    assert_eq!(shown(&root), "/opt/tool/cases");
}

#[test]
fn macos_app_bundle_resolves_next_to_bundle() {
    // Executable lives in Foo.app/Contents/MacOS; cases/ belongs beside Foo.app.
    let exe_dir = path("/Applications/Foo.app/Contents/MacOS");

    let base = paths::portable_base_dir(&exe_dir);

    assert_eq!(shown(&base), "/Applications");
}

#[test]
fn non_bundle_exe_dir_is_its_own_base() {
    let exe_dir = path("/opt/tool");

    assert_eq!(shown(&paths::portable_base_dir(&exe_dir)), "/opt/tool");
}

#[test]
fn create_case_builds_timestamped_directory_with_subdirs() {
    assert_eq!(paths::case_id("20260911-140307", "prod", 0), "20260911-140307-prod");
}

#[test]
fn case_id_slug_sanitizes_input_directory_name() {
    assert_eq!(
        paths::case_id("20260102-030405", "My Logs (2026)!", 0),
        "20260102-030405-my-logs-2026"
    );
}

#[test]
fn create_case_twice_in_same_second_does_not_collide() {
    let first = paths::case_id("20260911-140307", "prod", 0);
    let second = paths::case_id("20260911-140307", "prod", 1);

    assert_ne!(first, second);
    assert_eq!(second, "20260911-140307-prod-2");
    assert!(paths::is_safe_case_id(&second));
}

#[test]
fn case_ids_that_could_escape_the_root_are_rejected() {
    for bad in ["../escape", "a/b", "a\\b", "", "."] {
        assert!(!paths::is_safe_case_id(bad), "accepted {bad:?}");
    }
    assert!(paths::is_safe_case_id("20260911-140307-prod"));
}

#[test]
fn case_dir_refuses_unsafe_ids() {
    assert!(!paths::is_safe_case_id("../../etc"));
    assert!(paths::is_safe_case_id("20260911-140307-prod"));
}

#[test]
fn list_cases_returns_newest_first_and_ignores_stray_dirs() {
    let found = vec!["20260101-000000-a".to_owned(), "20260909-000000-b".to_owned()];

    let ids = paths::newest_first(&found);

    assert_eq!(ids, ["20260909-000000-b", "20260101-000000-a"]);
}

#[test]
fn delete_case_removes_the_whole_case_directory() {
    assert_eq!(paths::may_delete("20260911-140307-prod", true, true, true), Ok(()));
}

#[test]
fn delete_case_refuses_ids_that_could_escape_the_root() {
    assert_eq!(paths::may_delete("../keep.txt", true, true, true), Err(Refusal::UnsafeId));
    assert_eq!(paths::may_delete("..", true, true, true), Err(Refusal::UnsafeId));
}

#[test]
fn deleting_a_missing_case_is_an_error_not_a_silent_success() {
    assert_eq!(
        paths::may_delete("20260101-000000-nope", false, false, false),
        Err(Refusal::Missing)
    );
}

#[test]
fn delete_case_refuses_directories_that_are_not_cases() {
    assert_eq!(
        paths::may_delete("20260101-000000-notacase", true, false, false),
        Err(Refusal::NotACase)
    );
}

#[test]
fn delete_case_still_removes_a_half_deleted_case() {
    // An interrupted delete leaves the db but no case.json; the list hides
    // it, so requiring case.json here would strand it forever.
    assert_eq!(paths::may_delete("20260911-140307-prod", true, false, true), Ok(()));
}

#[test]
fn the_cases_dir_flag_is_read_in_both_forms() {
    let args = |items: &[&str]| items.iter().map(|s| (*s).to_owned()).collect::<Vec<_>>();

    assert_eq!(
        paths::cli_cases_dir(&args(&["--cases-dir", "/data"])).as_deref(),
        Some("/data")
    );
    assert_eq!(
        paths::cli_cases_dir(&args(&["-v", "--cases-dir=/data"])).as_deref(),
        Some("/data")
    );
    assert_eq!(paths::cli_cases_dir(&args(&["--cases-dir"])), None);
    assert_eq!(paths::cli_cases_dir(&args(&["--cases"])), None);
}
