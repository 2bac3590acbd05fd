//! Builtin dispatcher: routes a parsed line to the `cd` or `disown`
//! builtin, to the pipeline executor, or to nothing at all when the line
//! held no command.

use vstd::prelude::*;

use crate::parser::{parse_command, spec_parse, Pipeline, PipelineModel};
use crate::strutil::str_eq;

verus! {

/// What the shell is to do with one parsed line.
pub enum Action {
    /// The line held no command (only whitespace and special tokens).
    NoOp,
    /// `cd` with the given arguments.
    ChangeDirectory(Vec<String>),
    /// `disown` with the parsed pid of its first argument, if any.
    Disown(Option<u32>),
    /// An external pipeline, handed to the executor.
    Execute(Pipeline),
}

/// Mathematical model of an [`Action`].
#[verifier::ext_equal]
pub ghost enum ActionModel {
    NoOp,
    ChangeDirectory(Seq<Seq<char>>),
    Disown(Option<u32>),
    Execute(PipelineModel),
}

impl View for Action {
    type V = ActionModel;

    open spec fn view(&self) -> ActionModel {
        match self {
            Action::NoOp => ActionModel::NoOp,
            Action::ChangeDirectory(args) => ActionModel::ChangeDirectory(args.deep_view()),
            Action::Disown(pid) => ActionModel::Disown(*pid),
            Action::Execute(p) => ActionModel::Execute(p@),
        }
    }
}

/// The name of the `cd` builtin.
pub open spec fn cd_name() -> Seq<char> {
    seq!['c', 'd']
}

/// The name of the `disown` builtin.
pub open spec fn disown_name() -> Seq<char> {
    seq!['d', 'i', 's', 'o', 'w', 'n']
}

proof fn lemma_builtin_name_views()
    ensures
        "cd"@ == cd_name(),
        "disown"@ == disown_name(),
{
    reveal_strlit("cd");
    reveal_strlit("disown");
    assert("cd"@ =~= cd_name());
    assert("disown"@ =~= disown_name());
}

/// An ASCII decimal digit.
pub open spec fn is_ascii_digit(c: char) -> bool {
    '0' <= c && c <= '9'
}

/// The numeric value of an ASCII decimal digit.
pub open spec fn digit_value(c: char) -> int {
    c as int - '0' as int
}

/// Whether every character of `s` is an ASCII decimal digit.
pub open spec fn all_digits(s: Seq<char>) -> bool {
    forall|j: int| 0 <= j < s.len() ==> is_ascii_digit(#[trigger] s[j])
}

/// The value of a sequence of decimal digits, most significant first.
pub open spec fn dec_value(s: Seq<char>) -> int
    decreases s.len(),
{
    if s.len() == 0 {
        0
    } else {
        dec_value(s.drop_last()) * 10 + digit_value(s.last())
    }
}

/// The digits of an unsigned decimal literal: an optional leading `+`
/// is dropped.
pub open spec fn unsigned_body(s: Seq<char>) -> Seq<char> {
    if s.len() > 0 && s[0] == '+' {
        s.drop_first()
    } else {
        s
    }
}

/// What parsing `s` as a `u32` yields: its decimal value when `s` is an
/// optional `+` followed by one or more ASCII digits whose value fits in a
/// `u32`, and nothing otherwise.
pub open spec fn spec_parse_u32(s: Seq<char>) -> Option<u32> {
    let b = unsigned_body(s);
    if b.len() > 0 && all_digits(b) && dec_value(b) <= u32::MAX {
        Some(dec_value(b) as u32)
    } else {
        None
    }
}

proof fn lemma_dec_value_nonneg(s: Seq<char>)
    requires
        all_digits(s),
    ensures
        dec_value(s) >= 0,
    decreases s.len(),
{
    if s.len() > 0 {
        assert(forall|j: int| 0 <= j < s.drop_last().len() ==> is_ascii_digit(
            #[trigger] s.drop_last()[j],
        ));
        lemma_dec_value_nonneg(s.drop_last());
    }
}

proof fn lemma_dec_value_step(t: Seq<char>, k: int)
    requires
        0 <= k < t.len(),
    ensures
        dec_value(t.subrange(0, k + 1)) == dec_value(t.subrange(0, k)) * 10 + digit_value(t[k]),
{
    assert(t.subrange(0, k + 1).drop_last() =~= t.subrange(0, k));
    assert(t.subrange(0, k + 1).last() == t[k]);
}

proof fn lemma_dec_value_prefix_le(t: Seq<char>, k: int)
    requires
        0 <= k <= t.len(),
        all_digits(t),
    ensures
        dec_value(t.subrange(0, k)) <= dec_value(t),
    decreases t.len() - k,
{
    if k == t.len() {
        assert(t.subrange(0, k) =~= t);
    } else {
        assert(forall|j: int| 0 <= j < t.subrange(0, k).len() ==> is_ascii_digit(
            #[trigger] t.subrange(0, k)[j],
        ));
        lemma_dec_value_nonneg(t.subrange(0, k));
        lemma_dec_value_step(t, k);
        lemma_dec_value_prefix_le(t, k + 1);
    }
}

/// Parses `s` as an unsigned 32-bit decimal integer, as a `disown`
/// argument is read.
pub fn parse_u32(s: &str) -> (r: Option<u32>)
    ensures
        r == spec_parse_u32(s@),
{
    let n = s.unicode_len();
    let start: usize = if n > 0 && s.get_char(0) == '+' {
        1
    } else {
        0
    };
    let ghost b = unsigned_body(s@);
    proof {
        if start == 1 {
            assert(b =~= s@.skip(1));
        } else {
            assert(b =~= s@.skip(0));
        }
    }
    if start == n {
        proof {
            assert(b.len() == 0);
        }
        return None;
    }
    let mut acc: u32 = 0;
    let mut i: usize = start;
    proof {
        assert(b.subrange(0, 0) =~= Seq::<char>::empty());
    }
    while i < n
        invariant
            n == s@.len(),
            start <= i <= n,
            start <= 1,
            b == unsigned_body(s@),
            b == s@.skip(start as int),
            b.len() == n - start,
            forall|j: int| 0 <= j < i - start ==> is_ascii_digit(#[trigger] b[j]),
            acc == dec_value(b.subrange(0, i - start)),
        decreases n - i,
    {
        let c = s.get_char(i);
        let ghost k = i - start;
        proof {
            assert(b[k as int] == s@[i as int]);
        }
        if !(c >= '0' && c <= '9') {
            proof {
                assert(!is_ascii_digit(b[k as int]));
                assert(!all_digits(b));
            }
            return None;
        }
        let d: u32 = (c as u32) - ('0' as u32);
        proof {
            assert(d == digit_value(c));
            assert(0 <= d <= 9);
            lemma_dec_value_step(b, k as int);
        }
        if acc > (u32::MAX - d) / 10 {
            proof {
                assert(acc * 10 + d > u32::MAX);
                assert(dec_value(b.subrange(0, k + 1)) > u32::MAX);
                if all_digits(b) {
                    lemma_dec_value_prefix_le(b, k + 1);
                }
            }
            return None;
        }
        acc = acc * 10 + d;
        i = i + 1;
    }
    proof {
        assert(b.subrange(0, (n - start) as int) =~= b);
        assert(all_digits(b));
    }
    Some(acc)
}

/// The pid a `disown` line names: its first argument parsed as a `u32`;
/// a missing argument, like one that does not parse, means "no pid".
pub open spec fn spec_disown_pid(args: Seq<Seq<char>>) -> Option<u32> {
    if args.len() == 0 {
        None
    } else {
        spec_parse_u32(args[0])
    }
}

/// What the dispatcher does with a parsed pipeline: a line with no
/// commands is a no-op; a line whose first program is `cd` or `disown`
/// runs that builtin (redirects, background flag and later stages are
/// ignored); anything else goes to the executor.
pub open spec fn spec_dispatch(p: PipelineModel) -> ActionModel {
    if p.commands.len() == 0 {
        ActionModel::NoOp
    } else if p.commands[0].program == cd_name() {
        ActionModel::ChangeDirectory(p.commands[0].arguments)
    } else if p.commands[0].program == disown_name() {
        ActionModel::Disown(spec_disown_pid(p.commands[0].arguments))
    } else {
        ActionModel::Execute(p)
    }
}

/// Parses one input line and decides what the shell is to do with it.
pub fn handle_command(line: &str) -> (a: Action)
    ensures
        a@ == spec_dispatch(spec_parse(line@)),
{
    let p = parse_command(line);
    proof {
        lemma_builtin_name_views();
    }
    if p.commands.len() == 0 {
        return Action::NoOp;
    }
    proof {
        assert(p@.commands[0] == p.commands@[0]@);
    }
    if str_eq(p.commands[0].program.as_str(), "cd") {
        let mut cmds = p.commands;
        let first = cmds.remove(0);
        proof {
            assert(first.arguments.deep_view() == p@.commands[0].arguments);
        }
        Action::ChangeDirectory(first.arguments)
    } else if str_eq(p.commands[0].program.as_str(), "disown") {
        let pid: Option<u32> = if p.commands[0].arguments.len() > 0 {
            proof {
                assert(p.commands@[0].arguments.deep_view()[0]
                    == p.commands@[0].arguments@[0]@);
            }
            parse_u32(p.commands[0].arguments[0].as_str())
        } else {
            None
        };
        Action::Disown(pid)
    } else {
        Action::Execute(p)
    }
}

/// The failures of the line-reading collaborator that the main loop
/// reacts to.
pub enum InputFailure {
    /// The input stream ended.
    EndOfInput,
    /// The read was interrupted.
    Interrupted,
    /// Any other read failure.
    Other,
}

/// What the main loop does after a failed read.
pub enum LoopReaction {
    /// Leave the shell with a zero status.
    ExitSuccess,
    /// Ignore the failure and read the next line.
    Continue,
    /// Report the failure and leave with a non-zero status.
    ExitFailure,
}

/// Decides how the main loop reacts to a failed read: the end of input
/// ends the shell cleanly, an interrupt is ignored, and any other failure
/// ends the shell with a non-zero status.
pub fn input_failure_reaction(f: &InputFailure) -> (r: LoopReaction)
    ensures
        f is EndOfInput ==> r is ExitSuccess,
        f is Interrupted ==> r is Continue,
        f is Other ==> r is ExitFailure,
{
    match f {
        InputFailure::EndOfInput => LoopReaction::ExitSuccess,
        InputFailure::Interrupted => LoopReaction::Continue,
        InputFailure::Other => LoopReaction::ExitFailure,
    }
}

/// Law: a line consisting only of whitespace and the special tokens `|`,
/// `&`, `>`, `>>` and `<` yields no commands, and the dispatcher treats
/// such a line as a no-op.
pub proof fn lemma_special_only_line_is_noop(line: Seq<char>)
    requires
        forall|j: int| 0 <= j < crate::parser::spec_tokenize(line).len()
            ==> crate::parser::is_special_token(#[trigger] crate::parser::spec_tokenize(line)[j]),
    ensures
        spec_dispatch(spec_parse(line)) == ActionModel::NoOp,
{
    crate::parser::lemma_special_only_line_no_commands(line);
}

/// The directory a `cd` command moves to: its first argument when one is
/// given, else the home directory when one is known, else `.`.
pub open spec fn spec_cd_target(args: Seq<Seq<char>>, home: Option<Seq<char>>) -> Seq<char> {
    if args.len() > 0 {
        args[0]
    } else {
        match home {
            Option::Some(h) => h,
            Option::None => seq!['.'],
        }
    }
}

/// Picks the target directory of a `cd` line from its arguments and the
/// value of the home-directory variable, if it is set.  The caller
/// attempts the change and reports any failure, leaving the working
/// directory unchanged; a missing home directory never panics.
pub fn cd_target(args: &Vec<String>, home: Option<String>) -> (t: String)
    ensures
        t@ == spec_cd_target(args.deep_view(), home.deep_view()),
{
    if args.len() > 0 {
        proof {
            assert(args.deep_view()[0] == args@[0]@);
        }
        args[0].clone()
    } else {
        match home {
            Some(h) => h,
            None => {
                let dot = String::from_str(".");
                proof {
                    reveal_strlit(".");
                    assert(dot@ =~= seq!['.']);
                }
                dot
            }
        }
    }
}

} // verus!
