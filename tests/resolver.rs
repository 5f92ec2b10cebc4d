use minishell::builtin::{parse_builtin, Builtin};
use minishell::resolver::{find_in_dir, is_executable, resolve, Entry};

fn entry(name: &str, mode: Option<u32>) -> Entry {
    Entry { name: name.to_string(), mode }
}

#[test]
fn builtin_names_are_recognised() {
    assert_eq!(parse_builtin("echo"), Some(Builtin::Echo));
    assert_eq!(parse_builtin("exit"), Some(Builtin::Exit));
    assert_eq!(parse_builtin("type"), Some(Builtin::Type));
    assert_eq!(parse_builtin("pwd"), Some(Builtin::Pwd));
    assert_eq!(parse_builtin("cd"), Some(Builtin::Cd));
}

#[test]
fn other_names_are_not_builtins() {
    assert_eq!(parse_builtin("Echo"), None);
    assert_eq!(parse_builtin("ech"), None);
    assert_eq!(parse_builtin("echoo"), None);
    assert_eq!(parse_builtin(""), None);
    assert_eq!(parse_builtin("ls"), None);
}

#[test]
fn execute_bits() {
    assert!(is_executable(0o755));
    assert!(is_executable(0o001));
    assert!(is_executable(0o010));
    assert!(is_executable(0o100));
    assert!(!is_executable(0o644));
    assert!(!is_executable(0));
}

#[test]
fn first_executable_in_a_directory() {
    let dir = vec![
        entry("cat", Some(0o755)),
        entry("ls", Some(0o644)),
        entry("ls", None),
        entry("ls", Some(0o700)),
        entry("ls", Some(0o755)),
    ];
    assert_eq!(find_in_dir("ls", &dir), Some(3));
    assert_eq!(find_in_dir("cat", &dir), Some(0));
    assert_eq!(find_in_dir("grep", &dir), None);
}

#[test]
fn earlier_directory_wins() {
    let dirs = vec![
        vec![entry("a", Some(0o755))],
        vec![entry("tool", Some(0o755))],
        vec![entry("tool", Some(0o755))],
    ];
    assert_eq!(resolve("tool", &dirs), Some((1, 0)));
}

#[test]
fn non_executable_earlier_entry_is_skipped() {
    let dirs = vec![
        vec![entry("tool", Some(0o644))],
        vec![],
        vec![entry("x", Some(0o755)), entry("tool", Some(0o711))],
    ];
    assert_eq!(resolve("tool", &dirs), Some((2, 1)));
}

#[test]
fn missing_name_is_not_found() {
    let dirs = vec![vec![entry("tool", Some(0o644))], vec![entry("other", Some(0o755))]];
    assert_eq!(resolve("tool", &dirs), None);
    assert_eq!(resolve("tool", &vec![]), None);
}

#[test]
fn type_reports_path_found_on_fake_search_path() {
    let dirs = vec![
        vec![entry("prog", Some(0o600))],
        vec![entry("prog", Some(0o755))],
    ];
    let roots = ["/opt/a", "/opt/b"];
    let found = resolve("prog", &dirs).map(|(d, i)| format!("{}/{}", roots[d], dirs[d][i].name));
    assert_eq!(
        minishell::dispatch::type_report("prog", found.as_deref()),
        "prog is /opt/b/prog"
    );
    let missing = resolve("nope", &dirs).map(|(d, _)| roots[d].to_string());
    assert_eq!(minishell::dispatch::type_report("nope", missing.as_deref()), "nope: not found");
}
