use crush::config::shell::ShellConfig;
use crush::ui::completion::{
    candidates_opt, path_query_from,
    ansi_color, common_prefix, completion_fails, completion_hint, get_candidates, highlight, levenshtein, parse_line,
    path_query, top_candidate, Candidate, CompletionFacts, DirEntry, PathEntry,
};

fn chars(s: &str) -> Vec<char> {
    s.chars().collect()
}

fn facts() -> CompletionFacts {
    CompletionFacts { home: "/home/u".into(), listing: vec![], executables: vec![], env: vec![] }
}

fn pairs(v: &[Candidate]) -> Vec<(String, String)> {
    v.iter().map(|c| (c.display.clone(), c.replacement.clone())).collect()
}

fn p(d: &str, r: &str) -> (String, String) {
    (d.to_string(), r.to_string())
}

#[test]
fn the_word_under_the_cursor() {
    let lw = parse_line("git com", 7);
    assert_eq!(lw.word_start, 4);
    assert_eq!(lw.word, "com");
    assert_eq!(lw.command, "git");
    assert_eq!(lw.arg_position, 1);
    let first = parse_line("ec", 2);
    assert_eq!((first.word_start, first.word.as_str(), first.command.as_str(), first.arg_position), (0, "ec", "", 0));
}

#[test]
fn commands_complete_from_builtins_then_path() {
    let cfg = ShellConfig::default();
    let mut f = facts();
    f.executables = vec![
        PathEntry { name: "ecat".into(), executable: true },
        PathEntry { name: "echo".into(), executable: true },
        PathEntry { name: "ecx".into(), executable: false },
    ];
    let (start, c) = get_candidates(&cfg, "ec", 2, &f);
    assert_eq!(start, 0);
    assert_eq!(pairs(&c), vec![p("echo [builtin]", "echo"), p("ecat", "ecat")]);
}

#[test]
fn aliases_complete_sorted_after_builtins() {
    let mut cfg = ShellConfig::default();
    cfg.aliases.insert("exz".into(), "ls".into());
    cfg.aliases.insert("exa".into(), "ls".into());
    let (_, c) = get_candidates(&cfg, "ex", 2, &facts());
    assert_eq!(pairs(&c), vec![
        p("exit [builtin]", "exit"),
        p("export [builtin]", "export"),
        p("exa [alias]", "exa"),
        p("exz [alias]", "exz"),
    ]);
}

#[test]
fn a_mistyped_command_gets_a_suggestion() {
    let cfg = ShellConfig::default();
    let (_, c) = get_candidates(&cfg, "exot", 4, &facts());
    assert_eq!(pairs(&c), vec![p("did you mean: exit", "exit")]);
}

#[test]
fn paths_complete_directories_first() {
    let cfg = ShellConfig::default();
    let mut f = facts();
    f.listing = vec![
        DirEntry { name: "main.rs".into(), is_dir: false },
        DirEntry { name: "macros".into(), is_dir: true },
        DirEntry { name: "lib.rs".into(), is_dir: false },
    ];
    let q = path_query("src/ma", "/home/u");
    assert_eq!((q.search_dir.as_str(), q.name_prefix.as_str(), q.dir_prefix.as_str()), ("src", "ma", "src/"));
    let (start, c) = get_candidates(&cfg, "vim src/ma", 10, &f);
    assert_eq!(start, 4);
    assert_eq!(pairs(&c), vec![p("macros/", "src/macros/"), p("main.rs", "src/main.rs")]);
    let (_, c2) = get_candidates(&cfg, "vim src/m", 9, &f);
    assert_eq!(pairs(&c2), vec![
        p("\u{2192} src/ma", "src/ma"),
        p("macros/", "src/macros/"),
        p("main.rs", "src/main.rs"),
    ]);
}

#[test]
fn home_is_expanded_for_the_search_only() {
    let q = path_query("~/do", "/home/u");
    assert_eq!((q.search_dir.as_str(), q.name_prefix.as_str(), q.dir_prefix.as_str()), ("/home/u", "do", "~/"));
    let q2 = path_query("dir/", "/home/u");
    assert_eq!((q2.search_dir.as_str(), q2.name_prefix.as_str(), q2.dir_prefix.as_str()), ("dir/", "", "dir/"));
}

#[test]
fn cd_offers_targets_and_directories() {
    let cfg = ShellConfig::default();
    let mut f = facts();
    f.listing = vec![
        DirEntry { name: ".git".into(), is_dir: true },
        DirEntry { name: ".profile".into(), is_dir: false },
    ];
    let (_, c) = get_candidates(&cfg, "cd .", 4, &f);
    assert_eq!(pairs(&c), vec![p("..", ".."), p(".git/", ".git/")]);
}

#[test]
fn cd_offers_directory_aliases() {
    let mut cfg = ShellConfig::default();
    cfg.dir_aliases.insert("work".into(), "/w".into());
    let (_, c) = get_candidates(&cfg, "cd ", 3, &facts());
    assert_eq!(pairs(&c), vec![p("~", "~"), p("-", "-"), p("..", ".."), p("~work  (\u{2192} /w)", "~work")]);
}

#[test]
fn variables_complete_sorted() {
    let cfg = ShellConfig::default();
    let mut f = facts();
    f.env = vec![("PATH".into(), "p".into()), ("HOSTNAME".into(), "x".into()), ("HOME".into(), "/h".into())];
    let (_, c) = get_candidates(&cfg, "echo $HO", 8, &f);
    assert_eq!(pairs(&c), vec![p("$HOME", "$HOME"), p("$HOSTNAME", "$HOSTNAME")]);
}

#[test]
fn export_shows_the_start_of_values() {
    let cfg = ShellConfig::default();
    let mut f = facts();
    f.env = vec![("PATH".into(), "/usr/local/bin:/usr/bin:/bin".into()), ("PAGER".into(), "less".into())];
    let (_, c) = get_candidates(&cfg, "export PA", 9, &f);
    assert_eq!(pairs(&c), vec![p("PAGER  (=less)", "PAGER"), p("PATH  (=/usr/local/bin:/usr/)", "PATH")]);
}

#[test]
fn type_offers_builtins_and_history_its_flags() {
    let cfg = ShellConfig::default();
    let (_, c) = get_candidates(&cfg, "type ec", 7, &facts());
    assert_eq!(pairs(&c), vec![p("echo [builtin]", "echo")]);
    let (_, h) = get_candidates(&cfg, "history -", 9, &facts());
    assert_eq!(pairs(&h), vec![p("-c", "-c"), p("-r", "-r"), p("-w", "-w"), p("-n", "-n")]);
}

#[test]
fn the_hint_is_the_rest_of_the_top_candidate() {
    let cfg = ShellConfig::default();
    let top = top_candidate(&cfg, "ec", 2, &facts()).unwrap();
    assert_eq!(top.replacement, "echo");
    assert_eq!(completion_hint(&cfg, "ec", 2, None, &facts()), Some("ho".to_string()));
    assert_eq!(completion_hint(&cfg, "ec", 1, None, &facts()), None);
    assert_eq!(completion_hint(&cfg, "ec", 2, Some("ho there".into()), &facts()), Some("ho there".to_string()));
    assert_eq!(completion_hint(&cfg, "   ", 3, None, &facts()), None);
}

#[test]
fn a_cursor_inside_a_character_cannot_complete() {
    let cfg = ShellConfig::default();
    assert!(completion_fails(&cfg, "\u{e9}", 1, &facts()));
    assert!(!completion_fails(&cfg, "ec", 2, &facts()));
}

#[test]
fn common_prefix_of_words() {
    assert_eq!(common_prefix(&vec![chars("flour"), chars("flower"), chars("flow")]), chars("flo"));
    assert_eq!(common_prefix(&vec![chars("abc")]), chars("abc"));
    assert_eq!(common_prefix(&vec![]), Vec::<char>::new());
    assert_eq!(common_prefix(&vec![chars("\u{e9}a"), chars("\u{e9}b"), chars("\u{e9}c")]), chars("\u{e9}"));
    assert_eq!(common_prefix(&vec![chars("\u{e9}\u{e9}"), chars("\u{e9}\u{e9}"), chars("\u{e9}\u{e9}")]), chars("\u{e9}\u{e9}"));
}

#[test]
fn edit_distance_examples() {
    assert_eq!(levenshtein(&chars("kitten"), &chars("sitting")), 3);
    assert_eq!(levenshtein(&chars(""), &chars("abc")), 3);
    assert_eq!(levenshtein(&chars("same"), &chars("same")), 0);
}

#[test]
fn theme_colours() {
    assert_eq!(ansi_color("#ff8000", true), Some("\x1b[1;38;2;255;128;0m".to_string()));
    assert_eq!(ansi_color("208", false), Some("\x1b[38;5;208m".to_string()));
    assert_eq!(ansi_color("gray", true), Some("\x1b[2;37m".to_string()));
    assert_eq!(ansi_color("B", true), Some("\x1b[1;34m".to_string()));
    assert_eq!(ansi_color("weird", false), Some("\x1b[32m".to_string()));
    assert_eq!(ansi_color("#zz0000", false), Some("\x1b[32m".to_string()));
    assert_eq!(ansi_color("#a\u{e9}\u{e9}b", false), None);
}

#[test]
fn highlighting_marks_commands_and_strings() {
    let cfg = ShellConfig::default();
    assert_eq!(
        highlight(&cfg, "echo 'x' ./y z", false),
        Some("\x1b[1;32mecho\x1b[0m \x1b[33m'x'\x1b[0m \x1b[33m./y\x1b[0m z".to_string())
    );
    assert_eq!(highlight(&cfg, "foo", false), Some("\x1b[1;31mfoo\x1b[0m".to_string()));
    assert_eq!(highlight(&cfg, "foo", true), Some("\x1b[1;32mfoo\x1b[0m".to_string()));
    assert_eq!(highlight(&cfg, " x", false), Some(" x".to_string()));
}

#[test]
fn echo_offers_its_flags() {
    let cfg = ShellConfig::default();
    let (_, c) = get_candidates(&cfg, "echo -", 6, &facts());
    assert_eq!(pairs(&c), vec![p("-n", "-n"), p("-e", "-e"), p("-E", "-E")]);
    let (_, c2) = get_candidates(&cfg, "echo -e", 7, &facts());
    assert_eq!(pairs(&c2), vec![p("-e", "-e"), p("-E", "-E")]);
}

#[test]
fn source_offers_scripts_and_directories() {
    let cfg = ShellConfig::default();
    let mut f = facts();
    f.listing = vec![
        DirEntry { name: "b.txt".into(), is_dir: false },
        DirEntry { name: "a.sh".into(), is_dir: false },
        DirEntry { name: "dir".into(), is_dir: true },
        DirEntry { name: "init.crush".into(), is_dir: false },
    ];
    let (_, c) = get_candidates(&cfg, "source ", 7, &f);
    assert_eq!(pairs(&c), vec![p("dir/", "dir/"), p("a.sh", "a.sh"), p("init.crush", "init.crush")]);
}

#[test]
fn a_flag_of_another_command_falls_back_to_a_suggestion() {
    let cfg = ShellConfig::default();
    let (_, c) = get_candidates(&cfg, "git -", 5, &facts());
    assert_eq!(pairs(&c), vec![p("did you mean: cd", "cd")]);
    let (_, none) = get_candidates(&cfg, "git ", 4, &facts());
    assert!(none.is_empty());
}

#[test]
fn a_plain_file_does_not_hide_an_executable_of_the_same_name() {
    let cfg = ShellConfig::default();
    let mut f = facts();
    f.executables = vec![
        PathEntry { name: "zork".into(), executable: false },
        PathEntry { name: "zork".into(), executable: true },
        PathEntry { name: "zork".into(), executable: true },
    ];
    let (_, c) = get_candidates(&cfg, "zo", 2, &f);
    assert_eq!(pairs(&c), vec![p("zork", "zork")]);
}

#[test]
fn accented_candidates_share_their_prefix() {
    let cfg = ShellConfig::default();
    let mut f = facts();
    f.listing = vec![
        DirEntry { name: "\u{e9}t\u{e9}a".into(), is_dir: false },
        DirEntry { name: "\u{e9}t\u{e9}b".into(), is_dir: false },
    ];
    let (_, c) = get_candidates(&cfg, "cat ./", 6, &f);
    assert_eq!(pairs(&c)[0], p("\u{2192} ./\u{e9}t\u{e9}", "./\u{e9}t\u{e9}"));
}

#[test]
fn path_queries_from_known_parents() {
    let q = path_query_from("src/ma", "/h", Some("src".into()), Some("ma".into()));
    assert_eq!((q.search_dir.as_str(), q.name_prefix.as_str(), q.dir_prefix.as_str()), ("src", "ma", "src/"));
    let q2 = path_query_from("ma", "/h", Some("".into()), Some("ma".into()));
    assert_eq!((q2.search_dir.as_str(), q2.name_prefix.as_str(), q2.dir_prefix.as_str()), (".", "ma", ""));
    let q3 = path_query_from("~/a/b", "/h", Some("/h/a".into()), None);
    assert_eq!((q3.search_dir.as_str(), q3.name_prefix.as_str(), q3.dir_prefix.as_str()), ("/h/a", "", "~/a/"));
}

#[test]
fn candidates_are_none_where_completion_cannot_work() {
    let cfg = ShellConfig::default();
    assert!(candidates_opt(&cfg, "\u{e9}", 1, &facts()).is_none());
    let (start, c) = candidates_opt(&cfg, "ec", 2, &facts()).unwrap();
    assert_eq!(start, 0);
    assert_eq!(pairs(&c), vec![p("echo [builtin]", "echo")]);
}
