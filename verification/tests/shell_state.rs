use mirshell::completer::BinaryCompleter;
use mirshell::dispatch::{cd_target, input_failure_reaction, InputFailure, LoopReaction};
use mirshell::display::{prompt_path, prompt_symbol, shorten_path};
use mirshell::messages::{
    background_report, disown_message, disown_message_is_error, error_message, u32_to_string,
};
use mirshell::registry::{DisownOutcome, Registry};

#[test]
fn disown_all_on_empty_registry() {
    let mut r = Registry::new();
    assert!(r.is_empty());
    let o = r.disown(None);
    assert_eq!(o, DisownOutcome::DisownedAll);
    assert_eq!(disown_message(&o), "Disowned all background processes.");
    assert!(!disown_message_is_error(&o));
    assert!(r.is_empty());
}

#[test]
fn disown_unknown_pid_leaves_registry_unchanged() {
    let mut r = Registry::new();
    r.register(777);
    let o = r.disown(Some(12345));
    assert_eq!(o, DisownOutcome::NoSuchProcess(12345));
    assert_eq!(disown_message(&o), "Error: No such process [12345]");
    assert!(disown_message_is_error(&o));
    assert_eq!(r.len(), 1);
    assert!(r.contains(777));
}

#[test]
fn disown_known_pid_removes_it() {
    let mut r = Registry::new();
    r.register(777);
    r.register(888);
    let o = r.disown(Some(777));
    assert_eq!(o, DisownOutcome::Disowned(777));
    assert_eq!(disown_message(&o), "Disowned process [777]");
    assert!(!disown_message_is_error(&o));
    assert_eq!(r.len(), 1);
    assert!(!r.contains(777));
    assert!(r.contains(888));
}

#[test]
fn disown_all_clears_every_entry() {
    let mut r = Registry::new();
    r.register(1);
    r.register(2);
    r.register(3);
    let o = r.disown(None);
    assert_eq!(o, DisownOutcome::DisownedAll);
    assert!(r.is_empty());
}

#[test]
fn registering_stages_adds_one_entry_each() {
    let mut r = Registry::new();
    assert!(r.register(101));
    assert_eq!(r.len(), 1);
    assert!(r.register(102));
    assert_eq!(r.len(), 2);
    assert!(r.register(103));
    assert_eq!(r.len(), 3);
    assert!(r.contains(101));
    assert!(r.contains(102));
    assert!(r.contains(103));
}

#[test]
fn registering_a_pid_twice_keeps_one_entry() {
    let mut r = Registry::new();
    assert!(r.register(55));
    assert!(!r.register(55));
    assert_eq!(r.len(), 1);
}

#[test]
fn cd_target_prefers_argument() {
    let args = vec!["/var/log".to_string()];
    assert_eq!(cd_target(&args, Some("/home/me".to_string())), "/var/log");
}

#[test]
fn cd_target_falls_back_to_home() {
    let args: Vec<String> = vec![];
    assert_eq!(cd_target(&args, Some("/home/me".to_string())), "/home/me");
}

#[test]
fn cd_target_without_home_stays_put() {
    // With no argument and no home directory the target is the current
    // directory, so the working directory is left unchanged.
    let args: Vec<String> = vec![];
    assert_eq!(cd_target(&args, None), ".");
}

#[test]
fn shorten_path_keeps_first_and_last() {
    assert_eq!(shorten_path("/home/user/projects/thing"), "/h/u/p/thing");
}

#[test]
fn shorten_path_single_component() {
    assert_eq!(shorten_path("thing"), "thing");
}

#[test]
fn shorten_path_empty_middle_component() {
    assert_eq!(shorten_path("a//b"), "a/?/b");
}

#[test]
fn prompt_path_keeps_short_paths() {
    assert_eq!(prompt_path("/home/me", 80), "/home/me");
}

#[test]
fn prompt_path_shortens_wide_paths() {
    assert_eq!(prompt_path("/home/user/projects/thing", 20), "/h/u/p/thing");
}

#[test]
fn prompt_symbol_for_root_and_others() {
    assert_eq!(prompt_symbol("root"), "#");
    assert_eq!(prompt_symbol("me"), "$");
}

#[test]
fn u32_to_string_writes_decimal() {
    assert_eq!(u32_to_string(0), "0");
    assert_eq!(u32_to_string(42), "42");
    assert_eq!(u32_to_string(4294967295), "4294967295");
}

#[test]
fn background_report_format() {
    assert_eq!(background_report(123, "sleep"), "[123] sleep");
}

#[test]
fn error_message_format() {
    assert_eq!(error_message("No such file or directory"), "Error: No such file or directory");
}

#[test]
fn completer_keeps_matching_names() {
    let names = vec!["ls".to_string(), "lsof".to_string(), "cat".to_string()];
    let got = BinaryCompleter::filter_candidates(&names, "ls");
    assert_eq!(got, vec!["ls".to_string(), "lsof".to_string()]);
}

#[test]
fn completer_with_empty_line_keeps_everything() {
    let names = vec!["ls".to_string(), "cat".to_string()];
    let got = BinaryCompleter::filter_candidates(&names, "");
    assert_eq!(got, names);
}

#[test]
fn input_failure_reactions() {
    assert!(matches!(input_failure_reaction(&InputFailure::EndOfInput), LoopReaction::ExitSuccess));
    assert!(matches!(input_failure_reaction(&InputFailure::Interrupted), LoopReaction::Continue));
    assert!(matches!(input_failure_reaction(&InputFailure::Other), LoopReaction::ExitFailure));
}
