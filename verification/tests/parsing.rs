use mirshell::dispatch::{handle_command, parse_u32, Action};
use mirshell::executor::{
    after_launch, plan_pipeline, LaunchDirective, LaunchEvent, StdinSpec, StdoutSpec,
};
use mirshell::parser::{parse_command, tokenize};

#[test]
fn tokenize_splits_on_whitespace_runs() {
    let toks = tokenize("  echo   hi\tthere ");
    assert_eq!(toks, vec!["echo".to_string(), "hi".to_string(), "there".to_string()]);
}

#[test]
fn tokenize_empty_line_has_no_tokens() {
    let toks = tokenize("   \t  ");
    assert!(toks.is_empty());
}

#[test]
fn special_tokens_only_yields_no_commands() {
    let p = parse_command("| & > >> <");
    assert_eq!(p.commands.len(), 0);
}

#[test]
fn special_tokens_only_is_a_noop() {
    let a = handle_command("| | &");
    assert!(matches!(a, Action::NoOp));
}

#[test]
fn parse_two_stage_pipeline() {
    let p = parse_command("echo hi | tr a-z A-Z");
    assert_eq!(p.commands.len(), 2);
    assert_eq!(p.commands[0].program, "echo");
    assert_eq!(p.commands[0].arguments, vec!["hi".to_string()]);
    assert_eq!(p.commands[1].program, "tr");
    assert_eq!(p.commands[1].arguments, vec!["a-z".to_string(), "A-Z".to_string()]);
    assert_eq!(p.redirects.len(), 0);
    assert!(!p.background);
}

#[test]
fn parse_output_redirect() {
    let p = parse_command("ls -la > out.txt");
    assert_eq!(p.commands.len(), 1);
    assert_eq!(p.commands[0].program, "ls");
    assert_eq!(p.commands[0].arguments, vec!["-la".to_string()]);
    assert_eq!(p.redirects.len(), 1);
    assert_eq!(p.redirects[0].operator, ">");
    assert_eq!(p.redirects[0].target, "out.txt");
}

#[test]
fn parse_background_flag() {
    let p = parse_command("sleep 5 &");
    assert_eq!(p.commands.len(), 1);
    assert_eq!(p.commands[0].program, "sleep");
    assert_eq!(p.commands[0].arguments, vec!["5".to_string()]);
    assert!(p.background);
}

#[test]
fn dangling_redirect_is_dropped() {
    let p = parse_command("cat file >");
    assert_eq!(p.commands.len(), 1);
    assert_eq!(p.commands[0].program, "cat");
    assert_eq!(p.commands[0].arguments, vec!["file".to_string()]);
    assert_eq!(p.redirects.len(), 0);
}

#[test]
fn append_and_input_redirects() {
    let p = parse_command("sort < in.txt >> out.txt");
    assert_eq!(p.commands.len(), 1);
    assert_eq!(p.redirects.len(), 2);
    assert_eq!(p.redirects[0].operator, "<");
    assert_eq!(p.redirects[0].target, "in.txt");
    assert_eq!(p.redirects[1].operator, ">>");
    assert_eq!(p.redirects[1].target, "out.txt");
}

#[test]
fn pipe_between_empty_segments_drops_them() {
    let p = parse_command("a | | b");
    assert_eq!(p.commands.len(), 2);
    assert_eq!(p.commands[0].program, "a");
    assert_eq!(p.commands[1].program, "b");
}

#[test]
fn background_token_does_not_close_segment() {
    let p = parse_command("sleep & 5");
    assert_eq!(p.commands.len(), 1);
    assert_eq!(p.commands[0].program, "sleep");
    assert_eq!(p.commands[0].arguments, vec!["5".to_string()]);
    assert!(p.background);
}

#[test]
fn parse_u32_plain_digits() {
    assert_eq!(parse_u32("123"), Some(123));
    assert_eq!(parse_u32("0"), Some(0));
}

#[test]
fn parse_u32_leading_plus() {
    assert_eq!(parse_u32("+7"), Some(7));
    assert_eq!(parse_u32("+"), None);
}

#[test]
fn parse_u32_rejects_junk() {
    assert_eq!(parse_u32(""), None);
    assert_eq!(parse_u32("12a"), None);
    assert_eq!(parse_u32("-3"), None);
    assert_eq!(parse_u32(" 5"), None);
}

#[test]
fn parse_u32_bounds() {
    assert_eq!(parse_u32("4294967295"), Some(u32::MAX));
    assert_eq!(parse_u32("4294967296"), None);
    assert_eq!(parse_u32("99999999999999"), None);
}

#[test]
fn dispatch_cd_takes_arguments() {
    let a = handle_command("cd /tmp");
    match a {
        Action::ChangeDirectory(args) => assert_eq!(args, vec!["/tmp".to_string()]),
        _ => panic!("expected a directory change"),
    }
}

#[test]
fn dispatch_cd_ignores_rest_of_line() {
    let a = handle_command("cd /tmp | ls > out.txt &");
    match a {
        Action::ChangeDirectory(args) => assert_eq!(args, vec!["/tmp".to_string()]),
        _ => panic!("expected a directory change"),
    }
}

#[test]
fn dispatch_disown_with_pid() {
    let a = handle_command("disown 42");
    assert!(matches!(a, Action::Disown(Some(42))));
}

#[test]
fn dispatch_disown_without_pid() {
    let a = handle_command("disown");
    assert!(matches!(a, Action::Disown(None)));
}

#[test]
fn dispatch_disown_with_bad_pid_clears_all() {
    let a = handle_command("disown abc");
    assert!(matches!(a, Action::Disown(None)));
}

#[test]
fn dispatch_external_command() {
    let a = handle_command("ls -l");
    match a {
        Action::Execute(p) => {
            assert_eq!(p.commands.len(), 1);
            assert_eq!(p.commands[0].program, "ls");
        }
        _ => panic!("expected an external pipeline"),
    }
}

#[test]
fn plan_wires_pipes_between_stages() {
    let p = parse_command("a | b | c");
    let plan = plan_pipeline(&p);
    assert_eq!(plan.len(), 3);
    assert!(matches!(plan[0].stdin, StdinSpec::Inherit));
    assert!(matches!(plan[0].stdout, StdoutSpec::Pipe));
    assert!(matches!(plan[1].stdin, StdinSpec::FromPipe));
    assert!(matches!(plan[1].stdout, StdoutSpec::Pipe));
    assert!(matches!(plan[2].stdin, StdinSpec::FromPipe));
    assert!(matches!(plan[2].stdout, StdoutSpec::Inherit));
}

#[test]
fn plan_applies_redirects_to_every_stage() {
    let p = parse_command("a | b > f");
    let plan = plan_pipeline(&p);
    assert_eq!(plan.len(), 2);
    match &plan[0].stdout {
        StdoutSpec::Truncate(t) => assert_eq!(t, "f"),
        _ => panic!("expected a truncating redirect on the first stage too"),
    }
    match &plan[1].stdout {
        StdoutSpec::Truncate(t) => assert_eq!(t, "f"),
        _ => panic!("expected a truncating redirect"),
    }
    // The first stage's output goes to the file, so the second inherits.
    assert!(matches!(plan[1].stdin, StdinSpec::Inherit));
}

#[test]
fn plan_last_redirect_of_a_direction_wins() {
    let p = parse_command("a > f >> g");
    let plan = plan_pipeline(&p);
    assert_eq!(plan.len(), 1);
    match &plan[0].stdout {
        StdoutSpec::Append(t) => assert_eq!(t, "g"),
        _ => panic!("expected the appending redirect to win"),
    }
}

#[test]
fn plan_input_redirect() {
    let p = parse_command("wc -l < data");
    let plan = plan_pipeline(&p);
    assert_eq!(plan.len(), 1);
    match &plan[0].stdin {
        StdinSpec::FromFile(t) => assert_eq!(t, "data"),
        _ => panic!("expected input from a file"),
    }
    assert!(matches!(plan[0].stdout, StdoutSpec::Inherit));
    assert_eq!(plan[0].program, "wc");
    assert_eq!(plan[0].arguments, vec!["-l".to_string()]);
}

#[test]
fn after_launch_policy() {
    assert!(matches!(
        after_launch(true, &LaunchEvent::Launched(9)),
        LaunchDirective::RecordBackground(9)
    ));
    assert!(matches!(
        after_launch(false, &LaunchEvent::Launched(9)),
        LaunchDirective::WaitForeground
    ));
    assert!(matches!(
        after_launch(true, &LaunchEvent::LaunchFailed),
        LaunchDirective::AbandonRemaining
    ));
    assert!(matches!(
        after_launch(false, &LaunchEvent::LaunchFailed),
        LaunchDirective::AbandonRemaining
    ));
}

#[test]
fn plan_background_pipeline_carries_no_pipe() {
    let p = parse_command("a | b &");
    let plan = plan_pipeline(&p);
    assert_eq!(plan.len(), 2);
    assert!(matches!(plan[0].stdout, StdoutSpec::Pipe));
    assert!(matches!(plan[1].stdin, StdinSpec::Inherit));
}
