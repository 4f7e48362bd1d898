use crush::config::wrapper::expand_vars;
use crush::vars::VarMap;

#[test]
fn test_expand_vars_empty_cwd() {
    let mut locals = VarMap::new();
    locals.insert("cwd".into(), "".into());
    locals.insert("PWD".into(), "/home/user".into());

    let result = expand_vars("\"$cwd\"", &locals, &[], &VarMap::new());
    assert_eq!(result, "\"\"");
}

#[test]
fn test_expand_vars_with_path() {
    let mut locals = VarMap::new();
    locals.insert("cwd".into(), "/tmp/testdir".into());
    locals.insert("tmp".into(), "/tmp/yazi-abc".into());

    let result = expand_vars("cd \"$cwd\"", &locals, &[], &VarMap::new());
    assert_eq!(result, "cd \"/tmp/testdir\"");
}

#[test]
fn test_expand_args() {
    let mut locals = VarMap::new();
    locals.insert("args".into(), "file.txt dir/".into());

    let result = expand_vars("yazi $args --cwd-file=\"/tmp/x\"", &locals, &[], &VarMap::new());
    assert_eq!(result, "yazi file.txt dir/ --cwd-file=\"/tmp/x\"");
}

#[test]
fn expand_vars_falls_back_to_environment() {
    let locals = VarMap::new();
    let mut env = VarMap::new();
    env.insert("HOME".into(), "/home/me".into());
    assert_eq!(expand_vars("cd $HOME/x $NOPE.", &locals, &[], &env), "cd /home/me/x .");
}

#[test]
fn expand_vars_locals_win_over_environment() {
    let mut locals = VarMap::new();
    locals.insert("HOME".into(), "/local".into());
    let mut env = VarMap::new();
    env.insert("HOME".into(), "/env".into());
    assert_eq!(expand_vars("$HOME", &locals, &[], &env), "/local");
}

use crush::config::wrapper::{
    classify_condition, execute_wrapper, strip_quotes, Condition, PathTest, WrapperFunction, WrapperStep,
};

fn func(body: &str) -> WrapperFunction {
    WrapperFunction { description: String::new(), body: body.into() }
}

/// Drives a body to its end, answering substitutions with `output` and file
/// tests with `truth`; returns what it asked for, one entry per request.
fn trace(body: &str, args: &[&str], output: &str, truth: bool) -> Vec<String> {
    let f = func(body);
    let mut run = execute_wrapper(&f, args);
    let env = VarMap::new();
    let mut out = Vec::new();
    for _ in 0..100 {
        let mut step = run.step(&env);
        loop {
            match step {
                WrapperStep::Continue => break,
                WrapperStep::Run(units) => {
                    let words: Vec<String> = units.iter().map(|u| u.segment.args.join(" ")).collect();
                    let line = words.join(" | ");
                    out.push(format!("run {}", line));
                    run.resume_code(if line == "false" { 1 } else { 0 });
                    break;
                }
                WrapperStep::BadQuote(l) => {
                    out.push(format!("bad quote {}", l));
                    break;
                }
                WrapperStep::Substitute(w) => {
                    out.push(format!("substitute {}", w.join(" ")));
                    run.resume_output(output);
                    break;
                }
                WrapperStep::TestPath(t, p) => {
                    out.push(format!("test {:?} {}", t, p));
                    step = run.resume_truth(truth);
                }
                WrapperStep::Unsupported(c) => {
                    out.push(format!("unsupported {}", c));
                    step = run.resume_truth(false);
                }
                WrapperStep::Fault => {
                    out.push("fault".into());
                    return out;
                }
                WrapperStep::Done(c) => {
                    out.push(format!("done {}", c));
                    return out;
                }
            }
        }
    }
    out
}

#[test]
fn text_without_dollar_is_unchanged() {
    let mut locals = VarMap::new();
    locals.insert("x".into(), "y".into());
    assert_eq!(expand_vars("echo plain x", &locals, &[], &VarMap::new()), "echo plain x");
}

#[test]
fn a_dollar_without_a_name_stays() {
    assert_eq!(expand_vars("cost $ 5 $", &VarMap::new(), &[], &VarMap::new()), "cost $ 5 $");
}

#[test]
fn quotes_are_stripped_in_pairs_only() {
    assert_eq!(strip_quotes("  \"a b\" "), "a b");
    assert_eq!(strip_quotes("'x'"), "x");
    assert_eq!(strip_quotes("\"x'"), "\"x'");
    assert_eq!(strip_quotes("plain"), "plain");
}

#[test]
fn conditions_are_classified() {
    assert!(matches!(classify_condition("[ -z \"\" ]"), Some(Condition::Known(true))));
    assert!(matches!(classify_condition("[ -n \"\" ]"), Some(Condition::Known(false))));
    assert!(matches!(classify_condition("[ \"a\" = a ]"), Some(Condition::Known(true))));
    assert!(matches!(classify_condition("[ a != a ]"), Some(Condition::Known(false))));
    match classify_condition("[ -d \"/tmp\" ]") {
        Some(Condition::Path(PathTest::IsDir, p)) => assert_eq!(p, "/tmp"),
        other => panic!("{:?}", other),
    }
    match classify_condition("[ x -lt y ]") {
        Some(Condition::Unsupported(c)) => assert_eq!(c, "x -lt y"),
        other => panic!("{:?}", other),
    }
    assert!(classify_condition("[ -z \" ]").is_none());
}

#[test]
fn a_body_runs_line_by_line() {
    let body = "let greeting = hi\n# note\necho $greeting $0 $args\nend\n";
    assert_eq!(trace(body, &["one", "two"], "", false), vec!["run echo hi one one two", "done 0"]);
}

#[test]
fn if_blocks_run_only_when_their_condition_holds() {
    let body = "if [ -z \"\" ]\n  echo inside\nend\nif [ a = b ]\n  echo never\nend\necho after\n";
    assert_eq!(trace(body, &[], "", false), vec!["run echo inside", "run echo after", "done 0"]);
}

#[test]
fn nested_if_blocks_are_skipped_whole() {
    let body = "if [ a = b ]\n  if [ -z \"\" ]\n    echo deep\n  end\n  echo no\nend\necho yes\n";
    assert_eq!(trace(body, &[], "", false), vec!["run echo yes", "done 0"]);
}

#[test]
fn substitution_output_is_trimmed_and_bound() {
    let body = "let out = $(printf x)\necho [$out]\n";
    assert_eq!(trace(body, &[], "x\n\n", false), vec!["substitute printf x", "run echo [x]", "done 0"]);
}

#[test]
fn file_tests_are_asked_of_the_caller() {
    let body = "if [ -f \"/etc/passwd\" ]\n  echo file\nend\n";
    assert_eq!(trace(body, &[], "", true), vec!["test IsFile /etc/passwd", "run echo file", "done 0"]);
    assert_eq!(trace(body, &[], "", false), vec!["test IsFile /etc/passwd", "done 0"]);
}

#[test]
fn unsupported_conditions_count_as_false() {
    let body = "if [ 1 -lt 2 ]\n  echo never\nend\n";
    assert_eq!(trace(body, &[], "", true), vec!["unsupported 1 -lt 2", "done 0"]);
}

#[test]
fn cd_without_a_target_is_skipped() {
    let body = "let cwd = \ncd \"$cwd\"\ncd $cwd\n";
    assert_eq!(trace(body, &[], "", false), vec!["done 0"]);
}

#[test]
fn bad_quotes_are_reported_and_fail_the_line() {
    let body = "echo \"open\n";
    assert_eq!(trace(body, &[], "", false), vec!["bad quote echo \"open", "done 1"]);
}

#[test]
fn pipelines_in_a_body_become_units() {
    let body = "ls | wc -l && echo ok\n";
    assert_eq!(trace(body, &[], "", false), vec!["run ls | wc -l | echo ok", "done 0"]);
}

#[test]
fn an_if_on_the_last_line_cannot_go_on() {
    assert_eq!(trace("echo a\nif [ -z \"\" ]", &[], "", false), vec!["run echo a", "fault"]);
}

#[test]
fn the_body_finishes_with_the_code_of_its_last_command() {
    assert_eq!(trace("echo a\nfalse\n", &[], "", false), vec!["run echo a", "run false", "done 1"]);
    assert_eq!(trace("false\necho b\n", &[], "", false), vec!["run false", "run echo b", "done 0"]);
    assert_eq!(trace("if [ -z \"\" ]\n  false\nend\n", &[], "", false), vec!["run false", "done 1"]);
}

#[test]
fn ten_single_arguments_are_bound() {
    let args = ["a0", "a1", "a2", "a3", "a4", "a5", "a6", "a7", "a8", "a9"];
    assert_eq!(trace("echo $args\necho $0 $9\n", &args, "", false), vec![
        "run echo a0 a1 a2 a3 a4 a5 a6 a7 a8 a9",
        "run echo a0 a9",
        "done 0",
    ]);
}

#[test]
fn quoted_condition_values_may_hold_spaces() {
    assert!(matches!(classify_condition("[ \"a b\" = \"a b\" ]"), Some(Condition::Known(true))));
    assert!(matches!(classify_condition("[ \"a b\" != \"a c\" ]"), Some(Condition::Known(true))));
    assert!(matches!(classify_condition("[ -n \"x y\" ]"), Some(Condition::Known(true))));
    match classify_condition("[ -f '/tmp/my file' ]") {
        Some(Condition::Path(PathTest::IsFile, p)) => assert_eq!(p, "/tmp/my file"),
        other => panic!("{:?}", other),
    }
}
