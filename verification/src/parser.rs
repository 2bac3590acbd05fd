//! Tokenizer and parser: splits an input line into whitespace-separated
//! tokens and groups them into a pipeline description (ordered commands, a
//! list of redirections, and a background flag).
//!
//! The special tokens `|`, `&`, `>`, `>>` and `<` are recognized
//! positionally; every other token is an opaque run of non-whitespace
//! characters.  No quoting, escaping or expansion is performed.

use vstd::prelude::*;

use crate::strutil::str_eq;

verus! {

/// One stage of a pipeline: a program name and its arguments.
pub struct Command {
    pub program: String,
    pub arguments: Vec<String>,
}

/// A single redirection request: one of the operators `>`, `>>`, `<`
/// together with the target path that followed it.
pub struct Redirect {
    pub operator: String,
    pub target: String,
}

/// The result of parsing one input line.
pub struct Pipeline {
    pub commands: Vec<Command>,
    pub redirects: Vec<Redirect>,
    pub background: bool,
}

/// Mathematical model of a [`Command`].
#[verifier::ext_equal]
pub ghost struct CommandModel {
    pub program: Seq<char>,
    pub arguments: Seq<Seq<char>>,
}

/// Mathematical model of a [`Redirect`].
#[verifier::ext_equal]
pub ghost struct RedirectModel {
    pub operator: Seq<char>,
    pub target: Seq<char>,
}

/// Mathematical model of a [`Pipeline`].
#[verifier::ext_equal]
pub ghost struct PipelineModel {
    pub commands: Seq<CommandModel>,
    pub redirects: Seq<RedirectModel>,
    pub background: bool,
}

impl View for Command {
    type V = CommandModel;

    open spec fn view(&self) -> CommandModel {
        CommandModel { program: self.program@, arguments: self.arguments.deep_view() }
    }
}

impl View for Redirect {
    type V = RedirectModel;

    open spec fn view(&self) -> RedirectModel {
        RedirectModel { operator: self.operator@, target: self.target@ }
    }
}

impl View for Pipeline {
    type V = PipelineModel;

    open spec fn view(&self) -> PipelineModel {
        PipelineModel {
            commands: self.commands@.map_values(|c: Command| c@),
            redirects: self.redirects@.map_values(|r: Redirect| r@),
            background: self.background,
        }
    }
}

/// The whitespace characters a line is split on: the ASCII whitespace set.
pub open spec fn is_shell_space(c: char) -> bool {
    c == ' ' || c == '\t' || c == '\n' || c == '\r' || c == '\u{000B}' || c == '\u{000C}'
}

fn is_space_char(c: char) -> (r: bool)
    ensures
        r == is_shell_space(c),
{
    c == ' ' || c == '\t' || c == '\n' || c == '\r' || c == '\u{000B}' || c == '\u{000C}'
}

/// Splitting the characters `s` on runs of whitespace, with `cur` the
/// partial token read so far.
pub open spec fn spec_tokenize_rest(s: Seq<char>, cur: Seq<char>) -> Seq<Seq<char>>
    decreases s.len(),
{
    if s.len() == 0 {
        if cur.len() == 0 {
            Seq::empty()
        } else {
            seq![cur]
        }
    } else if is_shell_space(s[0]) {
        if cur.len() == 0 {
            spec_tokenize_rest(s.drop_first(), Seq::empty())
        } else {
            seq![cur] + spec_tokenize_rest(s.drop_first(), Seq::empty())
        }
    } else {
        spec_tokenize_rest(s.drop_first(), cur.push(s[0]))
    }
}

/// The sequence of whitespace-separated tokens of a line.
pub open spec fn spec_tokenize(s: Seq<char>) -> Seq<Seq<char>> {
    spec_tokenize_rest(s, Seq::empty())
}

proof fn lemma_skip_one<A>(s: Seq<A>, i: int)
    requires
        0 <= i < s.len(),
    ensures
        s.skip(i).len() == s.len() - i,
        s.skip(i)[0] == s[i],
        s.skip(i).drop_first() == s.skip(i + 1),
{
    assert(s.skip(i).drop_first() =~= s.skip(i + 1));
}

/// Splits `line` on runs of whitespace into its tokens.
pub fn tokenize(line: &str) -> (tokens: Vec<String>)
    ensures
        tokens.deep_view() == spec_tokenize(line@),
{
    let n = line.unicode_len();
    let mut tokens: Vec<String> = Vec::new();
    let mut i: usize = 0;
    let mut start: usize = 0;
    let mut in_token = false;
    proof {
        assert(tokens.deep_view() =~= Seq::<Seq<char>>::empty());
        assert(line@.skip(0) =~= line@);
        assert(Seq::<Seq<char>>::empty() + spec_tokenize(line@) =~= spec_tokenize(line@));
    }
    while i < n
        invariant
            n == line@.len(),
            i <= n,
            in_token ==> start < i,
            tokens.deep_view() + spec_tokenize_rest(
                line@.skip(i as int),
                if in_token {
                    line@.subrange(start as int, i as int)
                } else {
                    Seq::empty()
                },
            ) == spec_tokenize(line@),
        decreases n - i,
    {
        let ghost cur: Seq<char> = if in_token {
            line@.subrange(start as int, i as int)
        } else {
            Seq::empty()
        };
        let ghost old_tokens: Seq<Seq<char>> = tokens.deep_view();
        proof {
            lemma_skip_one(line@, i as int);
        }
        let c = line.get_char(i);
        if is_space_char(c) {
            if in_token {
                let tok = line.substring_char(start, i);
                tokens.push(String::from_str(tok));
                in_token = false;
                proof {
                    assert(tokens.deep_view() =~= old_tokens.push(cur));
                    assert(old_tokens.push(cur) + spec_tokenize_rest(
                        line@.skip(i + 1),
                        Seq::empty(),
                    ) =~= old_tokens + (seq![cur] + spec_tokenize_rest(
                        line@.skip(i + 1),
                        Seq::empty(),
                    )));
                }
            }
        } else {
            if !in_token {
                start = i;
                in_token = true;
                proof {
                    assert(line@.subrange(i as int, i + 1) =~= cur.push(line@[i as int]));
                }
            } else {
                proof {
                    assert(line@.subrange(start as int, i + 1) =~= cur.push(line@[i as int]));
                }
            }
        }
        i = i + 1;
    }
    proof {
        assert(line@.skip(n as int) =~= Seq::<char>::empty());
    }
    if in_token {
        let ghost old_tokens: Seq<Seq<char>> = tokens.deep_view();
        let tok = line.substring_char(start, n);
        tokens.push(String::from_str(tok));
        proof {
            assert(tokens.deep_view() =~= old_tokens.push(
                line@.subrange(start as int, n as int),
            ));
            assert(tokens.deep_view() =~= old_tokens + seq![
                line@.subrange(start as int, n as int),
            ]);
        }
    } else {
        proof {
            assert(tokens.deep_view() =~= tokens.deep_view() + Seq::<Seq<char>>::empty());
        }
    }
    tokens
}

/// The pipe token `|`.
pub open spec fn pipe_token() -> Seq<char> {
    seq!['|']
}

/// The background token `&`.
pub open spec fn amp_token() -> Seq<char> {
    seq!['&']
}

/// The truncating output redirect operator `>`.
pub open spec fn redir_out_op() -> Seq<char> {
    seq!['>']
}

/// The appending output redirect operator `>>`.
pub open spec fn redir_append_op() -> Seq<char> {
    seq!['>', '>']
}

/// The input redirect operator `<`.
pub open spec fn redir_in_op() -> Seq<char> {
    seq!['<']
}

/// Whether `t` is one of the three redirect operators.
pub open spec fn is_redirect_op(t: Seq<char>) -> bool {
    t == redir_out_op() || t == redir_append_op() || t == redir_in_op()
}

/// Whether `t` is one of the five special tokens.
pub open spec fn is_special_token(t: Seq<char>) -> bool {
    t == pipe_token() || t == amp_token() || is_redirect_op(t)
}

pub proof fn lemma_special_token_views()
    ensures
        "|"@ == pipe_token(),
        "&"@ == amp_token(),
        ">"@ == redir_out_op(),
        ">>"@ == redir_append_op(),
        "<"@ == redir_in_op(),
{
    reveal_strlit("|");
    reveal_strlit("&");
    reveal_strlit(">");
    reveal_strlit(">>");
    reveal_strlit("<");
    assert("|"@ =~= pipe_token());
    assert("&"@ =~= amp_token());
    assert(">"@ =~= redir_out_op());
    assert(">>"@ =~= redir_append_op());
    assert("<"@ =~= redir_in_op());
}

pub proof fn lemma_redirect_ops_distinct()
    ensures
        redir_out_op() != redir_in_op(),
        redir_append_op() != redir_in_op(),
        redir_out_op() != redir_append_op(),
{
    assert(redir_out_op()[0] == '>');
    assert(redir_in_op()[0] == '<');
    assert(redir_out_op().len() == 1);
    assert(redir_append_op().len() == 2);
    assert(redir_in_op().len() == 1);
}

/// The command a non-empty segment of plain tokens stands for: the first
/// token is the program, the rest are its arguments.
pub open spec fn seg_command(seg: Seq<Seq<char>>) -> CommandModel {
    if seg.len() == 0 {
        CommandModel { program: Seq::empty(), arguments: Seq::empty() }
    } else {
        CommandModel { program: seg[0], arguments: seg.drop_first() }
    }
}

/// Parsing the remaining tokens `toks`, with `cur` the tokens of the
/// currently open command segment.  Mirrors the left-to-right consumption
/// of tokens: `|` closes the segment, `&` sets the background flag, a
/// redirect operator consumes the following token as its target (and is
/// dropped when no token follows), and every other token extends the
/// segment.
pub open spec fn spec_parse_rest(toks: Seq<Seq<char>>, cur: Seq<Seq<char>>) -> PipelineModel
    decreases toks.len(),
{
    if toks.len() == 0 {
        PipelineModel {
            commands: if cur.len() == 0 {
                Seq::empty()
            } else {
                seq![seg_command(cur)]
            },
            redirects: Seq::empty(),
            background: false,
        }
    } else {
        let t = toks[0];
        let rest = toks.drop_first();
        if t == pipe_token() {
            let r = spec_parse_rest(rest, Seq::empty());
            PipelineModel {
                commands: if cur.len() == 0 {
                    r.commands
                } else {
                    seq![seg_command(cur)] + r.commands
                },
                redirects: r.redirects,
                background: r.background,
            }
        } else if t == amp_token() {
            let r = spec_parse_rest(rest, cur);
            PipelineModel { commands: r.commands, redirects: r.redirects, background: true }
        } else if is_redirect_op(t) {
            if rest.len() > 0 {
                let r = spec_parse_rest(rest.drop_first(), cur);
                PipelineModel {
                    commands: r.commands,
                    redirects: seq![RedirectModel { operator: t, target: rest[0] }] + r.redirects,
                    background: r.background,
                }
            } else {
                spec_parse_rest(rest, cur)
            }
        } else {
            spec_parse_rest(rest, cur.push(t))
        }
    }
}

/// What parsing a whole line yields.
pub open spec fn spec_parse(line: Seq<char>) -> PipelineModel {
    spec_parse_rest(spec_tokenize(line), Seq::empty())
}

/// Combining an already-emitted prefix of a parse with the result of
/// parsing the remaining tokens.
pub open spec fn combine(acc: PipelineModel, rest: PipelineModel) -> PipelineModel {
    PipelineModel {
        commands: acc.commands + rest.commands,
        redirects: acc.redirects + rest.redirects,
        background: acc.background || rest.background,
    }
}

/// The model of the pipeline state accumulated by the parsing loop.
pub open spec fn acc_model(
    commands: Seq<Command>,
    redirects: Seq<Redirect>,
    background: bool,
) -> PipelineModel {
    PipelineModel {
        commands: commands.map_values(|c: Command| c@),
        redirects: redirects.map_values(|r: Redirect| r@),
        background,
    }
}

/// The model of the currently open command segment.
pub open spec fn cur_model(prog: Option<String>, args: Seq<Seq<char>>) -> Seq<Seq<char>> {
    match prog {
        Option::None => Seq::empty(),
        Option::Some(p) => seq![p@] + args,
    }
}

proof fn lemma_push_command_model(s: Seq<Command>, c: Command)
    ensures
        s.push(c).map_values(|x: Command| x@) =~= s.map_values(|x: Command| x@).push(c@),
{
}

proof fn lemma_push_redirect_model(s: Seq<Redirect>, r: Redirect)
    ensures
        s.push(r).map_values(|x: Redirect| x@) =~= s.map_values(|x: Redirect| x@).push(r@),
{
}

/// Parses one input line into a pipeline description.
pub fn parse_command(line: &str) -> (p: Pipeline)
    ensures
        p@ == spec_parse(line@),
{
    let toks = tokenize(line);
    let ghost toksm: Seq<Seq<char>> = toks.deep_view();
    let n = toks.len();
    let mut commands: Vec<Command> = Vec::new();
    let mut redirects: Vec<Redirect> = Vec::new();
    let mut background = false;
    let mut cur_prog: Option<String> = None;
    let mut cur_args: Vec<String> = Vec::new();
    let mut i: usize = 0;
    proof {
        assert(toksm.skip(0) =~= toksm);
        assert(commands@.map_values(|c: Command| c@) =~= Seq::<CommandModel>::empty());
        assert(redirects@.map_values(|r: Redirect| r@) =~= Seq::<RedirectModel>::empty());
        assert(combine(
            acc_model(commands@, redirects@, background),
            spec_parse_rest(toksm, Seq::empty()),
        ) =~= spec_parse_rest(toksm, Seq::empty()));
    }
    while i < n
        invariant
            n == toksm.len(),
            toksm == toks.deep_view(),
            i <= n,
            cur_prog is None ==> cur_args@.len() == 0,
            combine(
                acc_model(commands@, redirects@, background),
                spec_parse_rest(toksm.skip(i as int), cur_model(cur_prog, cur_args.deep_view())),
            ) == spec_parse_rest(toksm, Seq::empty()),
        decreases n - i,
    {
        let ghost accm = acc_model(commands@, redirects@, background);
        let ghost curm = cur_model(cur_prog, cur_args.deep_view());
        let ghost restm = spec_parse_rest(toksm.skip(i as int), curm);
        proof {
            lemma_skip_one(toksm, i as int);
            lemma_special_token_views();
        }
        if str_eq(toks[i].as_str(), "|") {
            match cur_prog {
                Some(prog) => {
                    let ghost progm = prog@;
                    let ghost argsm = cur_args.deep_view();
                    let ghost old_cmds = commands@;
                    commands.push(Command { program: prog, arguments: cur_args });
                    cur_prog = None;
                    cur_args = Vec::new();
                    proof {
                        let r = spec_parse_rest(toksm.skip(i + 1), Seq::empty());
                        assert(curm.len() > 0);
                        assert(seg_command(curm).program == progm);
                        assert(seg_command(curm).arguments =~= argsm);
                        assert(commands@[old_cmds.len() as int]@ =~= seg_command(curm));
                        lemma_push_command_model(old_cmds, commands@[old_cmds.len() as int]);
                        assert(commands@.map_values(|c: Command| c@) =~= old_cmds.map_values(
                            |c: Command| c@,
                        ).push(seg_command(curm)));
                        assert(cur_args.deep_view() =~= Seq::<Seq<char>>::empty());
                        assert(combine(acc_model(commands@, redirects@, background), r).commands
                            =~= combine(accm, restm).commands);
                        assert(combine(acc_model(commands@, redirects@, background), r)
                            =~= combine(accm, restm));
                    }
                }
                None => {
                    proof {
                        assert(restm =~= spec_parse_rest(toksm.skip(i + 1), curm));
                    }
                }
            }
            i = i + 1;
        } else if str_eq(toks[i].as_str(), "&") {
            background = true;
            proof {
                let r = spec_parse_rest(toksm.skip(i + 1), curm);
                assert(combine(acc_model(commands@, redirects@, true), r) =~= combine(
                    accm,
                    restm,
                ));
            }
            i = i + 1;
        } else if str_eq(toks[i].as_str(), ">") || str_eq(toks[i].as_str(), ">>") || str_eq(
            toks[i].as_str(),
            "<",
        ) {
            if i + 1 < n {
                let ghost old_reds = redirects@;
                let op = toks[i].clone();
                let target = toks[i + 1].clone();
                redirects.push(Redirect { operator: op, target });
                proof {
                    lemma_skip_one(toksm, i + 1);
                    let r = spec_parse_rest(toksm.skip(i + 2), curm);
                    let rd = RedirectModel { operator: toksm[i as int], target: toksm[i + 1] };
                    assert(redirects@[old_reds.len() as int]@ =~= rd);
                    lemma_push_redirect_model(old_reds, redirects@[old_reds.len() as int]);
                    assert(redirects@.map_values(|x: Redirect| x@) =~= old_reds.map_values(
                        |x: Redirect| x@,
                    ).push(rd));
                    assert(combine(acc_model(commands@, redirects@, background), r).redirects
                        =~= combine(accm, restm).redirects);
                    assert(combine(acc_model(commands@, redirects@, background), r) =~= combine(
                        accm,
                        restm,
                    ));
                }
                i = i + 2;
            } else {
                proof {
                    assert(restm =~= spec_parse_rest(toksm.skip(i + 1), curm));
                }
                i = i + 1;
            }
        } else {
            if cur_prog.is_none() {
                cur_prog = Some(toks[i].clone());
                proof {
                    assert(cur_model(cur_prog, cur_args.deep_view()) =~= curm.push(
                        toksm[i as int],
                    ));
                }
            } else {
                let ghost old_args = cur_args.deep_view();
                cur_args.push(toks[i].clone());
                proof {
                    assert(cur_args.deep_view() =~= old_args.push(toksm[i as int]));
                    assert(cur_model(cur_prog, cur_args.deep_view()) =~= curm.push(
                        toksm[i as int],
                    ));
                }
            }
            i = i + 1;
        }
    }
    proof {
        assert(toksm.skip(n as int) =~= Seq::<Seq<char>>::empty());
    }
    let ghost accm = acc_model(commands@, redirects@, background);
    let ghost curm = cur_model(cur_prog, cur_args.deep_view());
    match cur_prog {
        Some(prog) => {
            let ghost progm = prog@;
            let ghost argsm = cur_args.deep_view();
            let ghost old_cmds = commands@;
            commands.push(Command { program: prog, arguments: cur_args });
            proof {
                assert(curm.len() > 0);
                assert(seg_command(curm).program == progm);
                assert(seg_command(curm).arguments =~= argsm);
                assert(commands@[old_cmds.len() as int]@ =~= seg_command(curm));
                lemma_push_command_model(old_cmds, commands@[old_cmds.len() as int]);
                assert(commands@.map_values(|c: Command| c@) =~= old_cmds.map_values(
                    |c: Command| c@,
                ).push(seg_command(curm)));
            }
            let p = Pipeline { commands, redirects, background };
            proof {
                assert(p@ =~= spec_parse_rest(toksm, Seq::empty()));
            }
            p
        }
        None => {
            let p = Pipeline { commands, redirects, background };
            proof {
                assert(p@ =~= spec_parse_rest(toksm, Seq::empty()));
            }
            p
        }
    }
}

proof fn lemma_parse_special_only(toks: Seq<Seq<char>>)
    requires
        forall|j: int| 0 <= j < toks.len() ==> is_special_token(#[trigger] toks[j]),
    ensures
        spec_parse_rest(toks, Seq::empty()).commands.len() == 0,
    decreases toks.len(),
{
    if toks.len() > 0 {
        let t = toks[0];
        let rest = toks.drop_first();
        assert forall|j: int| 0 <= j < rest.len() implies is_special_token(#[trigger] rest[j]) by {
            assert(rest[j] == toks[j + 1]);
        }
        if t == pipe_token() || t == amp_token() {
            lemma_parse_special_only(rest);
        } else if is_redirect_op(t) {
            if rest.len() > 0 {
                let rest2 = rest.drop_first();
                assert forall|j: int| 0 <= j < rest2.len() implies is_special_token(
                    #[trigger] rest2[j],
                ) by {
                    assert(rest2[j] == rest[j + 1]);
                }
                lemma_parse_special_only(rest2);
            } else {
                lemma_parse_special_only(rest);
            }
        }
    }
}

/// Law: a line consisting only of whitespace and the special tokens `|`,
/// `&`, `>`, `>>` and `<` parses to a pipeline with no commands at all.
pub proof fn lemma_special_only_line_no_commands(line: Seq<char>)
    requires
        forall|j: int| 0 <= j < spec_tokenize(line).len() ==> is_special_token(
            #[trigger] spec_tokenize(line)[j],
        ),
    ensures
        spec_parse(line).commands.len() == 0,
{
    lemma_parse_special_only(spec_tokenize(line));
}

} // verus!
