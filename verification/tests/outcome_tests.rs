use weid::outcome::{cmd_argv, Outcome};

#[test]
fn cmd_argv_splits_on_single_spaces() {
    assert_eq!(cmd_argv("echo hi"), vec!["echo".to_string(), "hi".to_string()]);
    assert_eq!(cmd_argv("ls"), vec!["ls".to_string()]);
    assert_eq!(
        cmd_argv("git log --oneline"),
        vec!["git".to_string(), "log".to_string(), "--oneline".to_string()]
    );
}

#[test]
fn cmd_argv_is_never_empty() {
    assert_eq!(cmd_argv(""), vec!["".to_string()]);
    assert_eq!(cmd_argv(" "), vec!["".to_string(), "".to_string()]);
    assert_eq!(
        cmd_argv("a  b"),
        vec!["a".to_string(), "".to_string(), "b".to_string()]
    );
}

#[test]
fn constructors_build_the_expected_kinds() {
    assert_eq!(
        Outcome::new_cmd("echo hi".to_string()),
        Outcome::Command("echo hi".to_string())
    );
    assert_eq!(Outcome::new_closure(3), Outcome::Closure(3));
    assert_eq!(Outcome::new_cmd("a".to_string()).duplicate(), Outcome::Command("a".to_string()));
}
