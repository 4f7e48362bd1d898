use crush::builtins::help::{banner_lines, bindings_lines, builtins_lines, config_lines, functions_lines, help_lines, help_topic, HelpTopic};
use crush::config::shell::ShellConfig;
use crush::config::wrapper::{WrapperConfig, WrapperFunction};

#[test]
fn topics_and_their_aliases() {
    assert_eq!(help_topic(None), Some(HelpTopic::Everything));
    assert_eq!(help_topic(Some("keys")), Some(HelpTopic::Bindings));
    assert_eq!(help_topic(Some("commands")), Some(HelpTopic::Builtins));
    assert_eq!(help_topic(Some("fn")), Some(HelpTopic::Functions));
    assert_eq!(help_topic(Some("path")), Some(HelpTopic::Config));
    assert_eq!(help_topic(Some("nope")), None);
}

#[test]
fn unknown_topic_names_the_topics() {
    let cfg = ShellConfig::default();
    let e = help_lines(Some("nope"), &cfg, "/h/history.txt").unwrap_err();
    assert_eq!(
        e,
        "help: unknown topic 'nope'. Try: \x1b[1;32mhelp builtins\x1b[0m, \x1b[1;32mhelp bindings\x1b[0m, \x1b[1;32mhelp functions\x1b[0m, \x1b[1;32mhelp config\x1b[0m"
    );
}

#[test]
fn config_section_paths() {
    let lines = config_lines("/home/u/.config/crush/history.txt");
    assert_eq!(lines.len(), 8);
    assert_eq!(lines[0], "");
    assert_eq!(lines[1], "\x1b[1m\x1b[1;34m  CONFIG & PATHS  \x1b[0m\x1b[2m");
    assert_eq!(lines[3], format!("    \x1b[1;36m{:<22}\x1b[0m \x1b[2m/home/u/.config/crush\x1b[0m", "Config directory"));
    assert_eq!(lines[5], format!("    \x1b[1;36m{:<22}\x1b[0m \x1b[2m/home/u/.config/crush/config.toml\x1b[0m", "Config file"));
}

#[test]
fn builtins_section_rows() {
    let lines = builtins_lines();
    assert_eq!(lines[1], "\x1b[1m\x1b[1;34m  BUILTIN COMMANDS  \x1b[0m\x1b[2m");
    assert_eq!(lines[2], format!("\x1b[2m  {}\x1b[0m", "\u{2500}".repeat(52)));
    assert_eq!(lines[3], "    \x1b[1;36mecho \x1b[1;33m[-n|-e|-E] <text>\x1b[1;36m\x1b[0m \x1b[2mPrint text to stdout\x1b[0m");
    assert_eq!(lines.last().unwrap(), &format!("    \x1b[1;36m{:<22}\x1b[0m \x1b[2mRun cmd2 only if cmd1 fails (exit \u{2260} 0)\x1b[0m", "cmd1 || cmd2"));
}

#[test]
fn banner_and_bindings_sizes() {
    assert_eq!(banner_lines().len(), 12);
    assert!(bindings_lines().len() > 20);
}

#[test]
fn functions_section_previews_bodies() {
    let mut w = WrapperConfig::new();
    w.add("y".into(), WrapperFunction { description: "Yazi".into(), body: "# c\n\nyazi \"$@\"\n  cd x\nls\nmore".into() });
    w.add("a".into(), WrapperFunction { description: "".into(), body: "ls".into() });
    let lines = functions_lines(&w);
    assert_eq!(lines[3], format!("    \x1b[1;36m{:<22}\x1b[0m \x1b[2m(no description)\x1b[0m", "a"));
    assert_eq!(lines[4], "      \x1b[2m  ls\x1b[0m");
    assert_eq!(lines[5], "");
    assert_eq!(lines[6], format!("    \x1b[1;36m{:<22}\x1b[0m \x1b[2mYazi\x1b[0m", "y"));
    assert_eq!(lines[7], "      \x1b[2m  yazi \"$@\"\x1b[0m");
    assert_eq!(lines[9], "      \x1b[2m  cd x\x1b[0m");
    assert_eq!(lines[11], "      \x1b[2m  ls\x1b[0m");
    assert_eq!(lines[13], "      \x1b[2m  ...(truncated)\x1b[0m");
    assert_eq!(lines.len(), 14);
    let empty = functions_lines(&WrapperConfig::new());
    assert_eq!(empty[3], "    \x1b[2mNo functions defined in config.toml\x1b[0m");
}

#[test]
fn everything_ends_with_a_blank_line() {
    let cfg = ShellConfig::default();
    let all = help_lines(None, &cfg, "/h/history.txt").unwrap();
    assert_eq!(all.last().unwrap(), "");
    assert_eq!(all.len(), banner_lines().len() + config_lines("/h/history.txt").len() + builtins_lines().len() + bindings_lines().len() + 1);
}
