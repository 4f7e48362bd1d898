use crush::executor::{
    expand_tilde, expand_variables, is_builtin, line_units, parse_input, pipeline_exit_code, split_into_pipeline_groups,
    tokenize_operators, ChainState, Op, ShellEnv,
};
use crush::vars::VarMap;

fn strings(v: &[&str]) -> Vec<String> {
    v.iter().map(|s| s.to_string()).collect()
}

#[test]
fn operators_glued_to_words_are_split_off() {
    let out = tokenize_operators(strings(&["a&&b", "c|d", "e"]));
    assert_eq!(out, strings(&["a", "&&", "b", "c", "|", "d", "e"]));
}

#[test]
fn a_double_bar_stays_one_operator() {
    let out = tokenize_operators(strings(&["a", "||", "b"]));
    assert_eq!(out, strings(&["a", "||", "b"]));
    assert_eq!(tokenize_operators(strings(&["x||y"])), strings(&["x", "||", "y"]));
    assert_eq!(tokenize_operators(strings(&["a|||b"])), strings(&["a", "||", "|", "b"]));
    let units = line_units("false || echo ok").unwrap();
    assert_eq!(units.len(), 2);
    assert_eq!(units[0].op, Some(Op::Or));
}

#[test]
fn tokens_without_operators_are_kept() {
    let out = tokenize_operators(strings(&["ls", "-la", "/tmp"]));
    assert_eq!(out, strings(&["ls", "-la", "/tmp"]));
}

#[test]
fn parse_input_builds_units_with_redirections() {
    let units = parse_input(&["echo", "hi", ">>", "log", "2>", "err", "&&", "ls", "&"]);
    assert_eq!(units.len(), 2);
    assert_eq!(units[0].segment.args, strings(&["echo", "hi"]));
    let out = units[0].segment.redirect_out.as_ref().unwrap();
    assert_eq!(out.path, "log");
    assert!(out.append);
    let err = units[0].segment.redirect_err.as_ref().unwrap();
    assert_eq!(err.path, "err");
    assert!(!err.append);
    assert_eq!(units[0].op, Some(Op::And));
    assert_eq!(units[1].segment.args, strings(&["ls"]));
    assert!(units[1].segment.background);
    assert_eq!(units[1].op, None);
}

#[test]
fn units_keep_the_order_of_words() {
    let units = parse_input(&["b", "a", "|", "|", "d", "c", "||", "e"]);
    let all: Vec<String> = units.iter().flat_map(|u| u.segment.args.clone()).collect();
    assert_eq!(all, strings(&["b", "a", "d", "c", "e"]));
    assert_eq!(units.len(), 3);
    assert_eq!(units[1].segment.args, strings(&["d", "c"]));
}

#[test]
fn parse_input_drops_empty_segments() {
    let units = parse_input(&["|", "&&", "ls"]);
    assert_eq!(units.len(), 1);
    assert_eq!(units[0].segment.args, strings(&["ls"]));
    assert!(parse_input(&["&", ">", "f"]).is_empty());
}

#[test]
fn pipelines_are_grouped_until_and_or() {
    let units = parse_input(&["a", "|", "b", "&&", "c", "||", "d"]);
    let groups = split_into_pipeline_groups(units);
    assert_eq!(groups.len(), 3);
    assert_eq!(groups[0].0.len(), 2);
    assert_eq!(groups[0].1, Some(Op::And));
    assert_eq!(groups[1].0.len(), 1);
    assert_eq!(groups[1].1, Some(Op::Or));
    assert_eq!(groups[2].1, None);
}

#[test]
fn and_runs_the_next_group_only_after_success() {
    let mut s = ChainState::new();
    assert!(s.before_group(Some(Op::And)));
    s.after_group(Some(Op::And), 3);
    assert_eq!(s.last_code, 3);
    assert!(!s.before_group(None));
    assert_eq!(s.last_code, 1);

    let mut t = ChainState::new();
    assert!(t.before_group(Some(Op::And)));
    t.after_group(Some(Op::And), 0);
    assert!(t.before_group(None));
}

#[test]
fn or_runs_the_next_group_only_after_failure() {
    let mut s = ChainState::new();
    assert!(s.before_group(Some(Op::Or)));
    s.after_group(Some(Op::Or), 0);
    assert!(!s.before_group(None));
    assert_eq!(s.last_code, 0);

    let mut t = ChainState::new();
    assert!(t.before_group(Some(Op::Or)));
    t.after_group(Some(Op::Or), 2);
    assert!(t.before_group(None));
}

#[test]
fn variables_expand_from_the_environment() {
    let mut env = VarMap::new();
    env.insert("USER".into(), "ann".into());
    assert_eq!(expand_variables("$USER", 7, &env), "ann");
    assert_eq!(expand_variables("$MISSING", 7, &env), "");
    assert_eq!(expand_variables("$$", 4242, &env), "4242");
    assert_eq!(expand_variables("$", 7, &env), "$");
    assert_eq!(expand_variables("plain", 7, &env), "plain");
}

#[test]
fn tilde_expands_to_home() {
    assert_eq!(expand_tilde("~", Some("/home/a")), "/home/a");
    assert_eq!(expand_tilde("~/src", Some("/home/a")), "/home/a/src");
    assert_eq!(expand_tilde("~other", Some("/home/a")), "~other");
    assert_eq!(expand_tilde("~/src", None), "~/src");
}

#[test]
fn line_units_splits_words_and_operators() {
    let units = line_units("echo 'a b' && ls").unwrap();
    assert_eq!(units.len(), 2);
    assert_eq!(units[0].segment.args, strings(&["echo", "a b"]));
    assert!(line_units("echo 'oops").is_none());
}

#[test]
fn builtins_are_recognised() {
    assert!(is_builtin("cd"));
    assert!(is_builtin("export"));
    assert!(!is_builtin("grep"));
}

#[test]
fn pipeline_code_is_the_last_waited_process() {
    assert_eq!(pipeline_exit_code(&vec![Some(Some(0)), Some(Some(3))]), 3);
    assert_eq!(pipeline_exit_code(&vec![Some(Some(2)), None]), 2);
    assert_eq!(pipeline_exit_code(&vec![Some(None)]), 1);
    assert_eq!(pipeline_exit_code(&vec![]), 0);
}

#[test]
fn shell_env_keeps_overrides() {
    let mut e = ShellEnv::new();
    e.set("A", "1");
    e.set("B", "2");
    e.remove("A");
    assert_eq!(e.iter().get("B").map(|s| s.as_str()), Some("2"));
    assert!(e.iter().get("A").is_none());
}

use crush::config::shell::ShellConfig;
use crush::config::wrapper::WrapperFunction;
use crush::executor::{history_new_entries, plan_segment, pre_command_units, script_lines, ExportItem, HistoryOp, Segment, SegmentAction};

fn env_with_home() -> VarMap {
    let mut env = VarMap::new();
    env.insert("HOME".into(), "/h".into());
    env
}

fn plan(line: &str, cfg: &ShellConfig, env: &VarMap) -> SegmentAction {
    let units = line_units(line).expect("quoting");
    assert_eq!(units.len(), 1);
    plan_segment(&units[0].segment, cfg, 4242, env, line)
}

#[test]
fn echo_plans_its_text() {
    let cfg = ShellConfig::default();
    let env = env_with_home();
    assert!(matches!(plan("echo", &cfg, &env), SegmentAction::Echo(t, true) if t.is_empty()));
    assert!(matches!(plan("echo a  b", &cfg, &env), SegmentAction::Echo(t, true) if t == "a b"));
    assert!(matches!(plan("echo -n a b", &cfg, &env), SegmentAction::Echo(t, false) if t == "a b"));
    assert!(matches!(plan("echo -e 'x\\ny\\t\\\\'", &cfg, &env), SegmentAction::Echo(t, true) if t == "x\ny\t\\"));
    assert!(matches!(plan("echo $HOME ~ ~/d $$ $NOPE", &cfg, &env), SegmentAction::Echo(t, true) if t == "/h /h /h/d 4242 "));
    assert!(matches!(plan("echo -E 'x\\ny'", &cfg, &env), SegmentAction::Echo(t, true) if t == "x\\ny"));
}

#[test]
fn cd_plans_its_target() {
    let mut cfg = ShellConfig::default();
    cfg.dir_aliases.insert("work".into(), "~/w".into());
    cfg.hooks.on_cd = "ls".into();
    let env = env_with_home();
    match plan("cd", &cfg, &env) {
        SegmentAction::Cd { shown, target, hook } => {
            assert_eq!((shown.as_str(), target.as_str(), hook.as_str()), ("/h", "/h", "ls"));
        }
        other => panic!("{:?}", other),
    }
    match plan("cd ~work/src", &cfg, &env) {
        SegmentAction::Cd { shown, target, .. } => {
            assert_eq!((shown.as_str(), target.as_str()), ("~work/src", "/h/w/src"));
        }
        other => panic!("{:?}", other),
    }
    match plan("cd", &cfg, &VarMap::new()) {
        SegmentAction::Cd { shown, target, .. } => assert_eq!((shown.as_str(), target.as_str()), ("/", "/")),
        other => panic!("{:?}", other),
    }
    assert!(matches!(plan("cd a b", &cfg, &env), SegmentAction::CdTooMany));
    assert!(matches!(plan("cd -", &cfg, &env), SegmentAction::CdNoOldPwd));
    let mut env2 = env_with_home();
    env2.insert("OLDPWD".into(), "/prev".into());
    match plan("cd -", &cfg, &env2) {
        SegmentAction::Cd { shown, target, .. } => assert_eq!((shown.as_str(), target.as_str()), ("/prev", "/prev")),
        other => panic!("{:?}", other),
    }
}

#[test]
fn builtins_plan_their_actions() {
    let mut cfg = ShellConfig::default();
    cfg.hooks.on_clear = "echo cleared".into();
    let env = env_with_home();
    assert!(matches!(plan("exit", &cfg, &env), SegmentAction::Exit(0)));
    assert!(matches!(plan("exit 3", &cfg, &env), SegmentAction::Exit(3)));
    assert!(matches!(plan("exit -1", &cfg, &env), SegmentAction::Exit(-1)));
    assert!(matches!(plan("exit x", &cfg, &env), SegmentAction::Exit(0)));
    assert!(matches!(plan("source f.sh", &cfg, &env), SegmentAction::Source(Some(f)) if f == "f.sh"));
    assert!(matches!(plan("source", &cfg, &env), SegmentAction::Source(None)));
    assert!(matches!(plan("help keys", &cfg, &env), SegmentAction::Help(Some(t)) if t == "keys"));
    assert!(matches!(plan("help", &cfg, &env), SegmentAction::Help(None)));
    assert!(matches!(plan("history", &cfg, &env), SegmentAction::History(HistoryOp::List)));
    assert!(matches!(plan("clear", &cfg, &env), SegmentAction::Clear(h) if h == "echo cleared"));
    assert!(matches!(plan("pwd", &cfg, &env), SegmentAction::Pwd));
    assert!(matches!(plan("rehash", &cfg, &env), SegmentAction::Rehash));
    assert!(matches!(plan("reload", &cfg, &env), SegmentAction::Reload));
    assert!(matches!(plan("unset A B", &cfg, &env), SegmentAction::Unset(v) if v == strings(&["A", "B"])));
    assert!(matches!(plan("jobs %1", &cfg, &env), SegmentAction::Jobs(v) if v == strings(&["%1"])));
    assert!(matches!(plan("ls -la /tmp", &cfg, &env), SegmentAction::Ls(v) if v == strings(&["-la", "/tmp"])));
    match plan("type cd git", &cfg, &env) {
        SegmentAction::Type(v) => assert_eq!(v, vec![("cd".to_string(), true), ("git".to_string(), false)]),
        other => panic!("{:?}", other),
    }
    match plan("export A=1=2 B", &cfg, &env) {
        SegmentAction::Export(v) => {
            assert_eq!(v.len(), 2);
            assert!(matches!(&v[0], ExportItem::Assign(k, x) if k == "A" && x == "1=2"));
            assert!(matches!(&v[1], ExportItem::IfUnset(k) if k == "B"));
        }
        other => panic!("{:?}", other),
    }
}

#[test]
fn functions_and_programs_are_planned_last() {
    let mut cfg = ShellConfig::default();
    cfg.functions.add("greet".into(), WrapperFunction { description: "hi".into(), body: "echo hi $0".into() });
    let env = env_with_home();
    match plan("greet bob", &cfg, &env) {
        SegmentAction::Wrapper(f, args) => {
            assert_eq!(f.body, "echo hi $0");
            assert_eq!(args, strings(&["bob"]));
        }
        other => panic!("{:?}", other),
    }
    match plan("sleep 10 > out.txt &", &cfg, &env) {
        SegmentAction::External { args, background, label } => {
            assert_eq!(args, strings(&["sleep", "10"]));
            assert!(background);
            assert_eq!(label, "sleep 10 > out.txt");
        }
        other => panic!("{:?}", other),
    }
    let empty = Segment { args: vec![], redirect_out: None, redirect_err: None, background: false };
    assert!(matches!(plan_segment(&empty, &cfg, 1, &env, ""), SegmentAction::Nothing));
}

#[test]
fn a_group_skipped_after_and_sets_code_one() {
    let groups = split_into_pipeline_groups(parse_input(&["p1", "&&", "p2", "&&", "p3"]));
    let mut s = ChainState::new();
    let mut ran = Vec::new();
    for (i, (_, op)) in groups.iter().enumerate() {
        if s.before_group(*op) {
            ran.push(i);
            s.after_group(*op, if i == 0 { 2 } else { 0 });
        }
    }
    assert_eq!(ran, vec![0]);
    assert_eq!(s.last_code, 1);
}

#[test]
fn scripts_keep_their_command_lines() {
    assert_eq!(script_lines("# setup\n  export X=1  \n\necho $X\r\n"), strings(&["export X=1", "echo $X"]));
}

#[test]
fn the_pre_command_hook_is_planned() {
    let mut cfg = ShellConfig::default();
    assert!(pre_command_units(&cfg).is_empty());
    cfg.hooks.pre_command = " echo before ".into();
    let u = pre_command_units(&cfg);
    assert_eq!(u.len(), 1);
    assert_eq!(u[0].segment.args, strings(&["echo", "before"]));
}

#[test]
fn history_flags_select_the_operation() {
    let cfg = ShellConfig::default();
    let env = env_with_home();
    assert!(matches!(plan("history -c", &cfg, &env), SegmentAction::History(HistoryOp::Clear)));
    assert!(matches!(plan("history -r", &cfg, &env), SegmentAction::History(HistoryOp::Read)));
    assert!(matches!(plan("history -w", &cfg, &env), SegmentAction::History(HistoryOp::Write)));
    assert!(matches!(plan("history -n", &cfg, &env), SegmentAction::History(HistoryOp::ReadNew)));
    assert!(matches!(plan("history 5", &cfg, &env), SegmentAction::History(HistoryOp::List)));
}

#[test]
fn history_reads_only_entries_it_lacks() {
    let current = strings(&["ls", "cd /tmp"]);
    let loaded = strings(&["cd /tmp", "make", "ls", "git status"]);
    assert_eq!(history_new_entries(&current, &loaded), strings(&["make", "git status"]));
    assert_eq!(history_new_entries(&loaded, &current), Vec::<String>::new());
    assert_eq!(history_new_entries(&Vec::new(), &current), current);
}
