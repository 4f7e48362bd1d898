use crush::bindings::{binding_action, binding_plan, exit_key_ends_shell, parse_key_str, resolve_alias_input, BindingAction, KeyName, KeySpec};
use crush::config::shell::ShellConfig;

#[test]
fn keys_with_modifiers() {
    assert_eq!(parse_key_str("Ctrl+L"), Some(KeySpec { key: KeyName::Char('l'), ctrl: true, alt: false, shift: false }));
    assert_eq!(parse_key_str("ALT+shift+Up"), Some(KeySpec { key: KeyName::Up, ctrl: false, alt: true, shift: true }));
    assert_eq!(parse_key_str("Return"), Some(KeySpec { key: KeyName::Enter, ctrl: false, alt: false, shift: false }));
    assert_eq!(parse_key_str("Ctrl+Hyper+x"), Some(KeySpec { key: KeyName::Char('x'), ctrl: true, alt: false, shift: false }));
    assert_eq!(parse_key_str("Ctrl+F13"), None);
    assert_eq!(parse_key_str("Ctrl+\u{e9}"), None);
    assert_eq!(parse_key_str("Ctrl+"), None);
}

#[test]
fn actions() {
    assert!(matches!(binding_action("clear_screen"), Some(BindingAction::ClearScreen)));
    assert!(matches!(binding_action("complete_list"), Some(BindingAction::CompleteList)));
    match binding_action("execute:  yazi  ") {
        Some(BindingAction::Run(c)) => assert_eq!(c, "yazi"),
        _ => panic!("expected a command"),
    }
    match binding_action("reload_config") {
        Some(BindingAction::Run(c)) => assert_eq!(c, "reload"),
        _ => panic!("expected reload"),
    }
    assert!(binding_action("fly").is_none());
}

#[test]
fn plans_skip_unreadable_keys() {
    let mut cfg = ShellConfig::default();
    cfg.bindings.insert("Ctrl+T".into(), "execute: y".into());
    cfg.bindings.insert("Nope+F13".into(), "accept_line".into());
    cfg.bindings.insert("Alt+x".into(), "dance".into());
    let plan = binding_plan(&cfg);
    assert_eq!(plan.len(), 2);
    assert_eq!(plan[0].key, KeySpec { key: KeyName::Char('t'), ctrl: true, alt: false, shift: false });
    assert!(matches!(&plan[0].action, Some(BindingAction::Run(c)) if c == "y"));
    assert!(plan[1].action.is_none());
    assert_eq!(plan[1].text, "dance");
}

#[test]
fn aliases_expand_in_command_position() {
    let mut cfg = ShellConfig::default();
    cfg.aliases.insert("ll".into(), "ls -l".into());
    assert_eq!(resolve_alias_input("ll /tmp", &cfg), "ls -l /tmp");
    assert_eq!(resolve_alias_input("ll", &cfg), "ls -l");
    assert_eq!(resolve_alias_input("echo ll", &cfg), "echo ll");
}

#[test]
fn exit_key() {
    assert!(exit_key_ends_shell(""));
    assert!(!exit_key_ends_shell("x"));
}
