use herdr::startup_script::{launch_script_text, quote, source_command, startup_shell};

#[test]
fn quote_escapes_single_quotes() {
    assert_eq!(quote("plain"), "'plain'");
    assert_eq!(quote("it's"), "'it'\\''s'");
    assert_eq!(quote(""), "''");
}

#[test]
fn only_posix_shells_source_scripts() {
    assert_eq!(startup_shell("-zsh").as_deref(), Some("zsh"));
    assert_eq!(startup_shell("bash").as_deref(), Some("bash"));
    assert_eq!(startup_shell("fish"), None);
    assert_eq!(startup_shell("/bin/sh"), None);
}

#[test]
fn source_command_is_bounded() {
    assert_eq!(source_command("/tmp/a/launch").as_deref(), Some(". '/tmp/a/launch'"));
    assert_eq!(source_command(&"x".repeat(300)), None);
}

#[test]
fn launch_script_removes_itself_then_runs_and_records_status() {
    let text = launch_script_text("/tmp/d/launch", "run it", &vec!["cd /work".to_string()], "/tmp/d/finished");
    assert_eq!(
        text,
        "command /bin/rm -- '/tmp/d/launch' || return\n{\n{ cd /work\n} &&\nrun it\n}\nprintf '%s\\n' \"$?\" > '/tmp/d/finished'\n"
    );
}
