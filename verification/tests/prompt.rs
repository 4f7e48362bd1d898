use crush::config::prompt::{
    CharacterSection, CmdDurationSection, DirectorySection, GitBranchSection, GitStatusSection, HostnameSection, PromptConfig,
    UsernameSection,
};
use crush::ui::prompt::{
    apply_style, format_uses, git_branch_name, needs_short_hash, render_character, render_cmd_duration, render_directory,
    render_git_branch, render_git_status, git_status_counts, render_hostname, render_module_format, render_prompt,
    render_username, GitCounts, PromptContext, PromptFacts,
};
use crush::vars::VarMap;

fn facts() -> PromptFacts {
    PromptFacts {
        cwd: "/home/u/proj/a/b/c".into(),
        home: "/home/u".into(),
        read_only: false,
        git_branch: Some("main".into()),
        user: "alice".into(),
        hostname_file: Some("box\n".into()),
        git_status: None,
    }
}

#[test]
fn styles_become_ansi_codes() {
    assert_eq!(apply_style("hi", "bold red"), "\x1b[1;31mhi\x1b[0m");
    assert_eq!(apply_style("hi", "fg:208 underline"), "\x1b[38;5;208;4mhi\x1b[0m");
    assert_eq!(apply_style("hi", ""), "hi");
    assert_eq!(apply_style("", "bold"), "");
    assert_eq!(apply_style("hi", "sparkly"), "hi");
}

#[test]
fn module_format_groups_and_variables() {
    let mut vars = VarMap::new();
    vars.insert("path".into(), "~/x".into());
    assert_eq!(render_module_format("[$path]($style) ", &vars, "bold blue"), "\x1b[1;34m~/x\x1b[0m ");
    assert_eq!(render_module_format("[$none](bold) x", &vars, ""), " x");
    assert_eq!(render_module_format("\\[lit\\] $path", &vars, ""), "[lit] ~/x");
}

#[test]
fn directory_is_shortened_after_home() {
    let cfg = DirectorySection::default();
    assert_eq!(render_directory(&cfg, &facts()), "\x1b[1;34m.../a/b/c\x1b[0m ");
    let mut f = facts();
    f.cwd = "/home/u/proj".into();
    assert_eq!(render_directory(&cfg, &f), "\x1b[1;34m~/proj\x1b[0m ");
}

#[test]
fn directory_substitutions_apply_in_order() {
    let mut cfg = DirectorySection::default();
    cfg.substitutions.insert("proj".into(), "P".into());
    let mut f = facts();
    f.cwd = "/home/u/proj".into();
    assert_eq!(render_directory(&cfg, &f), "\x1b[1;34m~/P\x1b[0m ");
}

#[test]
fn git_branch_shows_and_truncates() {
    let mut cfg = GitBranchSection::default();
    assert_eq!(render_git_branch(&cfg, &facts()), "on \x1b[1;35m\u{e0a0} main\x1b[0m ");
    cfg.truncation_length = 3;
    let mut f = facts();
    f.git_branch = Some("feature".into());
    assert_eq!(render_git_branch(&cfg, &f), "on \x1b[1;35m\u{e0a0} fea\u{2026}\x1b[0m ");
    f.git_branch = None;
    assert_eq!(render_git_branch(&cfg, &f), "");
}

#[test]
fn detached_head_uses_the_short_hash() {
    assert!(needs_short_hash("HEAD\n"));
    assert!(!needs_short_hash("main\n"));
    assert_eq!(git_branch_name("HEAD\n", Some("abc123\n")), "abc123");
    assert_eq!(git_branch_name("HEAD\n", None), "HEAD");
    assert_eq!(git_branch_name(" dev \n", None), "dev");
}

#[test]
fn command_duration_formats() {
    let cfg = CmdDurationSection::default();
    assert_eq!(render_cmd_duration(&cfg, 500), "");
    assert_eq!(render_cmd_duration(&cfg, 2500), "took 2s ");
    assert_eq!(render_cmd_duration(&cfg, 61_000), "took 1m 1s ");
    let mut fast = CmdDurationSection::default();
    fast.min_time = 0;
    assert_eq!(render_cmd_duration(&fast, 999), "took 999ms ");
}

#[test]
fn character_follows_the_last_exit() {
    let cfg = CharacterSection::default();
    assert_eq!(render_character(&cfg, true), cfg.success_symbol);
    assert_eq!(render_character(&cfg, false), cfg.error_symbol);
}

#[test]
fn username_only_for_root_by_default() {
    let cfg = UsernameSection::default();
    assert_eq!(render_username(&cfg, &facts()), "");
    let mut f = facts();
    f.user = "root".into();
    assert_eq!(render_username(&cfg, &f), "\x1b[1;31mroot\x1b[0m ");
    let mut always = UsernameSection::default();
    always.show_always = true;
    assert_eq!(render_username(&always, &facts()), "\x1b[1;33malice\x1b[0m ");
}

#[test]
fn hostname_only_over_ssh_by_default() {
    let cfg = HostnameSection::default();
    assert_eq!(render_hostname(&cfg, false, &facts()), "");
    assert_eq!(render_hostname(&cfg, true, &facts()), "on box ");
    let mut f = facts();
    f.hostname_file = None;
    assert_eq!(render_hostname(&cfg, true, &f), "on localhost ");
}

#[test]
fn whole_prompt_from_the_default_format() {
    let cfg = PromptConfig::default();
    let ctx = PromptContext { last_exit_code: 0, cmd_duration_ms: 0, is_ssh: false };
    let expected = format!("\x1b[1;34m.../a/b/c\x1b[0m on \x1b[1;35m\u{e0a0} main\x1b[0m \n{}", cfg.character.success_symbol);
    assert_eq!(render_prompt(&cfg, &ctx, &facts()), expected);
    assert!(format_uses(&cfg.format, "git_branch"));
    assert!(!format_uses(&cfg.format, "hostname"));
}

#[test]
fn unknown_modules_and_bare_dollars_vanish() {
    let mut cfg = PromptConfig::default();
    cfg.format = "a$nothing b$ c".into();
    let ctx = PromptContext { last_exit_code: 1, cmd_duration_ms: 0, is_ssh: false };
    assert_eq!(render_prompt(&cfg, &ctx, &facts()), "a b c");
}

const PORCELAIN: &str = "# branch.oid 0123abc\n# branch.head main\n# branch.upstream origin/main\n# branch.ab +2 -1\n# stash 3\n1 .M N... 100644 100644 100644 aa bb file.rs\n1 M. N... 100644 100644 100644 aa bb staged.rs\n2 R. N... 100644 100644 100644 aa bb R100 new.rs\told.rs\n1 .D N... 100644 100644 000000 aa bb gone.rs\nu UU N... 100644 100644 100644 100644 aa bb cc both.rs\n? notes.txt\n? more.txt\n";

#[test]
fn git_status_counts_the_porcelain_lines() {
    let c = git_status_counts(PORCELAIN);
    assert_eq!(
        c,
        GitCounts { conflicted: 1, stashed: 3, deleted: 1, renamed: 1, modified: 1, staged: 2, untracked: 2, ahead: 2, behind: 1 }
    );
    let clean = git_status_counts("# branch.oid 0123abc\n# branch.head main\n");
    assert_eq!(clean, GitCounts { conflicted: 0, stashed: 0, deleted: 0, renamed: 0, modified: 0, staged: 0, untracked: 0, ahead: 0, behind: 0 });
}

#[test]
fn git_status_shows_the_symbols_of_present_kinds() {
    let cfg = GitStatusSection::default();
    assert_eq!(render_git_status(&cfg, &None), "");
    let clean = GitCounts { conflicted: 0, stashed: 0, deleted: 0, renamed: 0, modified: 0, staged: 0, untracked: 0, ahead: 0, behind: 0 };
    assert_eq!(render_git_status(&cfg, &Some(clean)), "");
    assert_eq!(render_git_status(&cfg, &Some(git_status_counts(PORCELAIN))), "[=$\u{2718}\u{bb}!+?\u{21d5}] ");
    let ahead = GitCounts { modified: 4, ahead: 1, ..clean };
    assert_eq!(render_git_status(&cfg, &Some(ahead)), "[!\u{21e1}] ");
    let behind = GitCounts { behind: 7, ..clean };
    assert_eq!(render_git_status(&cfg, &Some(behind)), "[\u{21e3}] ");
}

#[test]
fn git_status_appears_where_the_format_names_it() {
    let mut cfg = PromptConfig::default();
    cfg.format = "$git_status>".into();
    let ctx = PromptContext { last_exit_code: 0, cmd_duration_ms: 0, is_ssh: false };
    let mut f = facts();
    f.git_status = Some(GitCounts { conflicted: 0, stashed: 0, deleted: 0, renamed: 0, modified: 0, staged: 0, untracked: 5, ahead: 0, behind: 0 });
    assert_eq!(render_prompt(&cfg, &ctx, &f), "[?] >");
}
