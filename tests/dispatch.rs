use minishell::dispatch::{
    cd_failure_message, cd_target, echo_line, not_found_message, plan, type_report, Action,
};
use minishell::tokenizer::tokenize;

fn plan_of(line: &str) -> Action {
    plan(&tokenize(line))
}

fn strs(v: &[&str]) -> Vec<String> {
    v.iter().map(|s| s.to_string()).collect()
}

#[test]
fn empty_line_does_nothing() {
    assert_eq!(plan_of(""), Action::Nothing);
    assert_eq!(plan_of("   "), Action::Nothing);
}

#[test]
fn echo_without_arguments_prints_empty_line() {
    assert_eq!(plan_of("echo"), Action::Print(String::new()));
    assert_eq!(echo_line(&vec![]), "");
}

#[test]
fn echo_collapses_unquoted_spaces() {
    assert_eq!(plan_of("echo a    b   c"), Action::Print("a b c".to_string()));
}

#[test]
fn echo_keeps_quoted_spaces() {
    assert_eq!(plan_of("echo 'a    b'  c"), Action::Print("a    b c".to_string()));
    assert_eq!(echo_line(&strs(&["x  y", "z"])), "x  y z");
}

#[test]
fn exit_ends_the_loop() {
    assert_eq!(plan_of("exit"), Action::Exit);
    assert_eq!(plan_of("exit 0"), Action::Exit);
    assert_eq!(plan_of("exit now; echo more"), Action::Exit);
}

#[test]
fn pwd_and_cd() {
    assert_eq!(plan_of("pwd"), Action::Pwd);
    assert_eq!(plan_of("cd /tmp"), Action::ChangeDir("/tmp".to_string()));
    assert_eq!(plan_of("cd"), Action::ChangeDir(String::new()));
}

#[test]
fn type_on_builtins() {
    for name in ["echo", "exit", "type", "pwd", "cd"] {
        let expected = format!("{} is a shell builtin", name);
        assert_eq!(plan_of(&format!("type {}", name)), Action::Print(expected.clone()));
        assert_eq!(type_report(name, None), expected);
        assert_eq!(type_report(name, Some("/bin/x")), expected);
    }
}

#[test]
fn type_on_other_names() {
    assert_eq!(plan_of("type ls"), Action::Lookup("ls".to_string()));
    assert_eq!(plan_of("type ECHO"), Action::Lookup("ECHO".to_string()));
    assert_eq!(type_report("ls", Some("/usr/bin/ls")), "ls is /usr/bin/ls");
    assert_eq!(type_report("nosuch", None), "nosuch: not found");
}

#[test]
fn external_command_keeps_its_arguments() {
    assert_eq!(
        plan_of("cat 'my file' -n"),
        Action::Run("cat".to_string(), strs(&["my file", "-n"]))
    );
    assert_eq!(plan_of("ls"), Action::Run("ls".to_string(), vec![]));
}

#[test]
fn not_found_message_format() {
    assert_eq!(not_found_message("foo"), "foo: not found");
}

#[test]
fn cd_failure_message_format() {
    assert_eq!(
        cd_failure_message("/does_not_exist"),
        "cd: /does_not_exist: No such file or directory"
    );
}

#[test]
fn cd_target_home() {
    assert_eq!(cd_target("/work", "/home/u", "~"), "/home/u");
    assert_eq!(cd_target("/work", "/home/u", "~/src"), "/home/u/src");
    assert_eq!(cd_target("/work", "/home/u", "~x"), "/work/~x");
}

#[test]
fn cd_target_absolute_and_relative() {
    assert_eq!(cd_target("/work", "/home/u", "/usr/lib"), "/usr/lib");
    assert_eq!(cd_target("/work", "/home/u", "sub/dir"), "/work/sub/dir");
    assert_eq!(cd_target("/work", "/home/u", ".."), "/work/..");
    assert_eq!(cd_target("/work", "/home/u", ""), "");
}
