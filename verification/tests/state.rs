use crush::config::shell::ShellConfig;
use crush::shell::ShellInfo;
use crush::state::AppState;

#[test]
fn reload_replaces_the_configuration() {
    let mut s = AppState::new(ShellConfig::default());
    assert!(s.config().shell.show_greeting);
    let mut c = ShellConfig::default();
    c.shell.show_greeting = false;
    s.reload(c);
    assert!(!s.config().shell.show_greeting);
}

#[test]
fn shell_paths() {
    assert_eq!(ShellInfo::shell_path(Some("/bin/crush"), ""), "/bin/crush");
    assert_eq!(ShellInfo::shell_path(None, ""), "/usr/bin/omnishell");
    assert_eq!(ShellInfo::shell_path(None, "/data/usr"), "/data/usr/bin/omnishell");
    assert_eq!(ShellInfo::etc_shells(""), "/etc/shells");
    assert_eq!(ShellInfo::etc_shells("/p"), "/p/etc/shells");
}

#[test]
fn registration_messages() {
    assert_eq!(
        ShellInfo::registration_lines("/bin/crush", "", "/bin/sh\n"),
        vec![
            "To make the system fully recognize /bin/crush, add the following line:".to_string(),
            "sudo sh -c 'echo \"/bin/crush\" >> /etc/shells'".to_string(),
        ]
    );
    assert_eq!(
        ShellInfo::registration_lines("/p/bin/crush", "/p", ""),
        vec![
            "To make the system fully recognize /p/bin/crush, add the following line:".to_string(),
            "echo \"/p/bin/crush\" >> /p/etc/shells".to_string(),
        ]
    );
    assert_eq!(ShellInfo::registration_lines("/bin/crush", "", "/bin/crush\n"), vec!["Shell is already registered in /etc/shells!".to_string()]);
}
