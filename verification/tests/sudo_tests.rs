use command_rs::sudo::Sudo;

#[test]
fn sudo_builds_quoted_command_line() {
    let mut s = Sudo::new("whoami".to_string(), "notmypassword".to_string());
    assert_eq!(s.command_line(), "whoami");
    s.arg("--all".to_string());
    assert_eq!(s.command_line(), "whoami \"--all\"");
    s.args(vec!["a b".to_string(), "c".to_string()]);
    assert_eq!(s.command_line(), "whoami \"--all\" \"a b\" \"c\"");
    assert_eq!(s.program(), "whoami");
}

#[test]
fn sudo_builds_wait_any_argv() {
    let mut s = Sudo::new("whoami".to_string(), "notmypassword".to_string());
    s.arg("--all".to_string());
    let argv = s.posix_argv();
    assert_eq!(argv, vec!["-S", "-k", "whoami", "--all"]);
}

#[test]
fn sudo_password_line_is_newline_terminated() {
    let s = Sudo::new("whoami".to_string(), "notmypassword".to_string());
    assert_eq!(s.password_line(), "notmypassword\n");
}
