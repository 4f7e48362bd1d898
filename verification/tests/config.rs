use crush::config::shell::{EnvVal, ShellConfig};
use crush::config::wrapper::expand_vars;
use crush::ui::completion::matches_prefix;
use crush::vars::VarMap;

#[test]
fn env_assignments_in_order() {
    let mut cfg = ShellConfig::default();
    cfg.env.editor = Some("nvim".into());
    cfg.env.path_extra = vec!["~/bin".into(), "/opt/x".into()];
    cfg.env.extra = vec![
        ("FOO".into(), EnvVal(Some("1".into()))),
        ("PATH".into(), EnvVal(Some("ignored".into()))),
        ("TABLE".into(), EnvVal(None)),
    ];
    let a = cfg.env_assignments(Some("/usr/bin"), Some("/home/u"));
    assert_eq!(a, vec![
        ("EDITOR".to_string(), "nvim".to_string()),
        ("PATH".to_string(), "/home/u/bin:/opt/x:/usr/bin".to_string()),
        ("FOO".to_string(), "1".to_string()),
    ]);
    let none = ShellConfig::default().env_assignments(None, None);
    assert!(none.is_empty());
}

#[test]
fn dir_aliases_resolve() {
    let mut cfg = ShellConfig::default();
    cfg.dir_aliases.insert("crush".into(), "~/src/crush".into());
    assert_eq!(cfg.resolve_dir_alias("~crush/src", Some("/home/u")), "/home/u/src/crush/src");
    assert_eq!(cfg.resolve_dir_alias("~crush", Some("/home/u")), "/home/u/src/crush");
    assert_eq!(cfg.resolve_dir_alias("~crushed", Some("/home/u")), "~crushed");
    assert_eq!(cfg.dir_alias_path("crush", Some("/h")), Some("/h/src/crush".to_string()));
    assert_eq!(cfg.dir_alias_path("nope", Some("/h")), None);
}

#[test]
fn aliases_and_names() {
    let mut cfg = ShellConfig::default();
    cfg.aliases.insert("ll".into(), "ls -l".into());
    assert_eq!(cfg.resolve_alias("ll"), Some("ls -l"));
    assert_eq!(cfg.resolve_alias("la"), None);
    assert_eq!(cfg.alias_names(), vec!["ll".to_string()]);
}

#[test]
fn outside_text_functions() {
    let chars = |s: &str| s.chars().collect::<Vec<char>>();
    assert!(matches_prefix(&chars("\u{c4}Bc"), &chars("\u{e4}b"), false));
    assert!(!matches_prefix(&chars("\u{c4}Bc"), &chars("\u{e4}b"), true));
    let mut locals = VarMap::new();
    locals.insert("\u{e9}t\u{e9}".into(), "summer".into());
    assert_eq!(expand_vars("$\u{e9}t\u{e9}-x", &locals, &[], &VarMap::new()), "summer-x");
}

#[test]
fn var_map_reads_back_writes() {
    let mut m = VarMap::new();
    m.insert("a".into(), "1".into());
    m.insert("b".into(), "2".into());
    m.insert("a".into(), "3".into());
    assert_eq!(m.get("a"), Some(&"3".to_string()));
    assert_eq!(m.get("b"), Some(&"2".to_string()));
    assert_eq!(m.len(), 2);
    let (k0, v0) = m.entry(0);
    assert_eq!((k0.as_str(), v0.as_str()), ("a", "3"));
    m.remove("a");
    assert_eq!(m.get("a"), None);
    assert!(m.contains("b"));
    assert_eq!(m.len(), 1);
}

#[test]
fn function_names_are_each_defined_name_once() {
    use_names();
}

fn use_names() {
    let mut w = crush::config::wrapper::WrapperConfig::new();
    let f = |b: &str| crush::config::wrapper::WrapperFunction { description: String::new(), body: b.into() };
    w.add("b".into(), f("1"));
    w.add("a".into(), f("2"));
    w.add("b".into(), f("3"));
    assert_eq!(w.names(), vec!["b", "a"]);
    assert_eq!(w.get("b").map(|x| x.body.as_str()), Some("1"));
    assert!(!w.is_empty());
}
