//! Pipeline executor planning: turns a pipeline description into one
//! launch request per stage, saying which program to start and how its
//! standard streams are wired.
//!
//! Stage `i` reads from the pipe of stage `i - 1` and, when it is not the
//! last stage, offers its output on a pipe.  Every redirect of the line is
//! applied to every stage, in list order, each overriding whatever wiring
//! the pipe placement established for the matching direction; hence the
//! last output redirect and the last input redirect of the list win.
//! Backgrounded pipelines never carry a pipe from one stage to the next:
//! the shell does not hold the earlier stage's output handle once it
//! backgrounds it.
//!
//! Launching itself is outside work: the caller launches the stages in
//! order, abandons the remaining stages when one fails to launch, records
//! a backgrounded stage in the registry, and waits for a foreground stage.

use vstd::prelude::*;

use crate::parser::{
    redir_append_op, redir_in_op, redir_out_op, lemma_redirect_ops_distinct,
    lemma_special_token_views, Pipeline, PipelineModel, RedirectModel,
};
use crate::strutil::str_eq;

verus! {

/// Where a stage reads its standard input from.
pub enum StdinSpec {
    /// The shell's own standard input.
    Inherit,
    /// The pipe offered by the previous stage.
    FromPipe,
    /// The named file, opened for reading.
    FromFile(String),
}

/// Where a stage writes its standard output to.
pub enum StdoutSpec {
    /// The shell's own standard output.
    Inherit,
    /// A pipe offered to the next stage.
    Pipe,
    /// The named file, created or truncated.
    Truncate(String),
    /// The named file, opened for appending, created if absent.
    Append(String),
}

/// The launch request for one pipeline stage.
pub struct StageSpec {
    pub program: String,
    pub arguments: Vec<String>,
    pub stdin: StdinSpec,
    pub stdout: StdoutSpec,
}

/// Mathematical model of a [`StdinSpec`].
#[verifier::ext_equal]
pub ghost enum StdinModel {
    Inherit,
    FromPipe,
    FromFile(Seq<char>),
}

/// Mathematical model of a [`StdoutSpec`].
#[verifier::ext_equal]
pub ghost enum StdoutModel {
    Inherit,
    Pipe,
    Truncate(Seq<char>),
    Append(Seq<char>),
}

/// Mathematical model of a [`StageSpec`].
#[verifier::ext_equal]
pub ghost struct StageModel {
    pub program: Seq<char>,
    pub arguments: Seq<Seq<char>>,
    pub stdin: StdinModel,
    pub stdout: StdoutModel,
}

impl View for StdinSpec {
    type V = StdinModel;

    open spec fn view(&self) -> StdinModel {
        match self {
            StdinSpec::Inherit => StdinModel::Inherit,
            StdinSpec::FromPipe => StdinModel::FromPipe,
            StdinSpec::FromFile(t) => StdinModel::FromFile(t@),
        }
    }
}

impl View for StdoutSpec {
    type V = StdoutModel;

    open spec fn view(&self) -> StdoutModel {
        match self {
            StdoutSpec::Inherit => StdoutModel::Inherit,
            StdoutSpec::Pipe => StdoutModel::Pipe,
            StdoutSpec::Truncate(t) => StdoutModel::Truncate(t@),
            StdoutSpec::Append(t) => StdoutModel::Append(t@),
        }
    }
}

impl View for StageSpec {
    type V = StageModel;

    open spec fn view(&self) -> StageModel {
        StageModel {
            program: self.program@,
            arguments: self.arguments.deep_view(),
            stdin: self.stdin@,
            stdout: self.stdout@,
        }
    }
}

/// The last redirect of the list whose operator writes output (`>` or
/// `>>`), if any: the one that wins for a stage's output.
pub open spec fn last_output_redirect(rs: Seq<RedirectModel>) -> Option<RedirectModel>
    decreases rs.len(),
{
    if rs.len() == 0 {
        Option::None
    } else if rs.last().operator == redir_out_op() || rs.last().operator == redir_append_op() {
        Option::Some(rs.last())
    } else {
        last_output_redirect(rs.drop_last())
    }
}

/// The last redirect of the list whose operator reads input (`<`), if
/// any: the one that wins for a stage's input.
pub open spec fn last_input_redirect(rs: Seq<RedirectModel>) -> Option<RedirectModel>
    decreases rs.len(),
{
    if rs.len() == 0 {
        Option::None
    } else if rs.last().operator == redir_in_op() {
        Option::Some(rs.last())
    } else {
        last_input_redirect(rs.drop_last())
    }
}

pub proof fn lemma_last_output_redirect_op(rs: Seq<RedirectModel>)
    ensures
        last_output_redirect(rs) matches Some(r) ==> (r.operator == redir_out_op() || r.operator
            == redir_append_op()),
    decreases rs.len(),
{
    if rs.len() > 0 {
        lemma_last_output_redirect_op(rs.drop_last());
    }
}

/// Where stage `i` of pipeline `p` sends its output.
pub open spec fn spec_stage_stdout(p: PipelineModel, i: int) -> StdoutModel {
    match last_output_redirect(p.redirects) {
        Option::Some(r) => if r.operator == redir_out_op() {
            StdoutModel::Truncate(r.target)
        } else {
            StdoutModel::Append(r.target)
        },
        Option::None => if i + 1 < p.commands.len() {
            StdoutModel::Pipe
        } else {
            StdoutModel::Inherit
        },
    }
}

/// Where stage `i` of pipeline `p` reads its input from: an input
/// redirect wins; otherwise the previous stage's pipe, when there is one
/// and the pipeline runs in the foreground.
pub open spec fn spec_stage_stdin(p: PipelineModel, i: int) -> StdinModel {
    match last_input_redirect(p.redirects) {
        Option::Some(r) => StdinModel::FromFile(r.target),
        Option::None => if i > 0 && !p.background && spec_stage_stdout(p, i - 1)
            == StdoutModel::Pipe {
            StdinModel::FromPipe
        } else {
            StdinModel::Inherit
        },
    }
}

/// The launch request for stage `i` of pipeline `p`.
pub open spec fn spec_stage(p: PipelineModel, i: int) -> StageModel {
    StageModel {
        program: p.commands[i].program,
        arguments: p.commands[i].arguments,
        stdin: spec_stage_stdin(p, i),
        stdout: spec_stage_stdout(p, i),
    }
}

/// The launch requests of a whole pipeline, one per stage in order.
pub open spec fn spec_plan(p: PipelineModel) -> Seq<StageModel> {
    Seq::new(p.commands.len(), |i: int| spec_stage(p, i))
}

/// The models of a vector of launch requests.
pub open spec fn plan_models(v: Seq<StageSpec>) -> Seq<StageModel> {
    v.map_values(|s: StageSpec| s@)
}

/// What happened when one stage was launched.
pub enum LaunchEvent {
    /// The process started; its pid.
    Launched(u32),
    /// The process could not be started.
    LaunchFailed,
}

/// What the shell does next after trying to launch a stage.
pub enum LaunchDirective {
    /// Record the pid in the background job registry, report it, and do
    /// not wait for the process.
    RecordBackground(u32),
    /// Wait for the process to exit before the next stage.
    WaitForeground,
    /// Report the failure and abandon the remaining stages; stages that
    /// already launched run to completion on their own.
    AbandonRemaining,
}

/// Decides what follows one stage's launch attempt: a launched stage of a
/// background pipeline is recorded and not waited on; a launched
/// foreground stage is waited on; a failed launch abandons the rest of
/// the pipeline.
pub fn after_launch(background: bool, e: &LaunchEvent) -> (d: LaunchDirective)
    ensures
        e matches LaunchEvent::Launched(pid) ==> (if background {
            d == LaunchDirective::RecordBackground(*pid)
        } else {
            d == LaunchDirective::WaitForeground
        }),
        e is LaunchFailed ==> d == LaunchDirective::AbandonRemaining,
{
    match e {
        LaunchEvent::Launched(pid) => {
            if background {
                LaunchDirective::RecordBackground(*pid)
            } else {
                LaunchDirective::WaitForeground
            }
        }
        LaunchEvent::LaunchFailed => LaunchDirective::AbandonRemaining,
    }
}

/// Computes the launch request of every stage of `p`, in pipeline order.
pub fn plan_pipeline(p: &Pipeline) -> (plan: Vec<StageSpec>)
    ensures
        plan_models(plan@) == spec_plan(p@),
{
    let ghost rsm: Seq<RedirectModel> = p@.redirects;
    let nr = p.redirects.len();
    // Scan the redirect list once; the last redirect of each direction wins.
    let mut out_redir: Option<(bool, String)> = None;
    let mut in_redir: Option<String> = None;
    let mut j: usize = 0;
    proof {
        assert(rsm.subrange(0, 0) =~= Seq::<RedirectModel>::empty());
    }
    while j < nr
        invariant
            nr == p.redirects.len(),
            rsm == p@.redirects,
            rsm.len() == nr,
            j <= nr,
            match last_output_redirect(rsm.subrange(0, j as int)) {
                Option::None => out_redir is None,
                Option::Some(r) => out_redir matches Some(o) && o.1@ == r.target && (o.0 <==> r.operator == redir_append_op()),
            },
            match last_input_redirect(rsm.subrange(0, j as int)) {
                Option::None => in_redir is None,
                Option::Some(r) => in_redir matches Some(t) && t@ == r.target,
            },
        decreases nr - j,
    {
        proof {
            lemma_special_token_views();
            lemma_redirect_ops_distinct();
            assert(rsm.subrange(0, j + 1).drop_last() =~= rsm.subrange(0, j as int));
            assert(rsm.subrange(0, j + 1).last() == rsm[j as int]);
            assert(rsm[j as int] == p.redirects@[j as int]@);
        }
        let ghost rj = rsm[j as int];
        let ghost prev_out = last_output_redirect(rsm.subrange(0, j as int));
        let ghost prev_in = last_input_redirect(rsm.subrange(0, j as int));
        if str_eq(p.redirects[j].operator.as_str(), ">") {
            out_redir = Some((false, p.redirects[j].target.clone()));
            proof {
                assert(rj.operator == redir_out_op());
                assert(last_output_redirect(rsm.subrange(0, j + 1)) == Some(rj));
                assert(last_input_redirect(rsm.subrange(0, j + 1)) == prev_in);
            }
        } else if str_eq(p.redirects[j].operator.as_str(), ">>") {
            out_redir = Some((true, p.redirects[j].target.clone()));
            proof {
                assert(rj.operator == redir_append_op());
                assert(last_output_redirect(rsm.subrange(0, j + 1)) == Some(rj));
                assert(last_input_redirect(rsm.subrange(0, j + 1)) == prev_in);
            }
        } else if str_eq(p.redirects[j].operator.as_str(), "<") {
            in_redir = Some(p.redirects[j].target.clone());
            proof {
                assert(rj.operator == redir_in_op());
                assert(last_input_redirect(rsm.subrange(0, j + 1)) == Some(rj));
                assert(last_output_redirect(rsm.subrange(0, j + 1)) == prev_out);
            }
        } else {
            proof {
                assert(rj.operator != redir_out_op() && rj.operator != redir_append_op()
                    && rj.operator != redir_in_op());
                assert(last_output_redirect(rsm.subrange(0, j + 1)) == prev_out);
                assert(last_input_redirect(rsm.subrange(0, j + 1)) == prev_in);
            }
        }
        j = j + 1;
    }
    proof {
        assert(rsm.subrange(0, nr as int) =~= rsm);
    }
    let n = p.commands.len();
    let mut plan: Vec<StageSpec> = Vec::new();
    let mut i: usize = 0;
    while i < n
        invariant
            n == p.commands.len(),
            i <= n,
            plan.len() == i,
            match last_output_redirect(p@.redirects) {
                Option::None => out_redir is None,
                Option::Some(r) => out_redir matches Some(o) && o.1@ == r.target && (o.0 <==> r.operator == redir_append_op()),
            },
            match last_input_redirect(p@.redirects) {
                Option::None => in_redir is None,
                Option::Some(r) => in_redir matches Some(t) && t@ == r.target,
            },
            forall|k: int| 0 <= k < i ==> #[trigger] plan_models(plan@)[k] == spec_stage(p@, k),
        decreases n - i,
    {
        proof {
            assert(p@.commands[i as int] == p.commands@[i as int]@);
            lemma_last_output_redirect_op(p@.redirects);
            lemma_redirect_ops_distinct();
        }
        let program = p.commands[i].program.clone();
        let arguments = p.commands[i].arguments.clone();
        proof {
            let orig = p.commands@[i as int].arguments;
            assert forall|k: int| 0 <= k < arguments.deep_view().len() implies arguments.deep_view()[k] == orig.deep_view()[k] by {
                assert(vstd::pervasive::cloned::<String>(orig@[k], arguments@[k]));
            }
            assert(arguments.deep_view() =~= orig.deep_view());
        }
        let stdout: StdoutSpec = match &out_redir {
            Some(o) => {
                if o.0 {
                    StdoutSpec::Append(o.1.clone())
                } else {
                    StdoutSpec::Truncate(o.1.clone())
                }
            }
            None => {
                if i + 1 < n {
                    StdoutSpec::Pipe
                } else {
                    StdoutSpec::Inherit
                }
            }
        };
        let stdin: StdinSpec = match &in_redir {
            Some(t) => StdinSpec::FromFile(t.clone()),
            None => {
                let from_pipe = i > 0 && !p.background && match &out_redir {
                    Some(_) => false,
                    None => true,
                };
                proof {
                    if i > 0 {
                        assert(spec_stage_stdout(p@, i - 1) == StdoutModel::Pipe <==> (
                        last_output_redirect(p@.redirects) is None));
                    }
                }
                if from_pipe {
                    StdinSpec::FromPipe
                } else {
                    StdinSpec::Inherit
                }
            }
        };
        let stage = StageSpec { program, arguments, stdin, stdout };
        proof {
            assert(stage@ =~= spec_stage(p@, i as int));
        }
        let ghost old_plan = plan@;
        plan.push(stage);
        proof {
            assert forall|k: int| 0 <= k < i + 1 implies #[trigger] plan_models(plan@)[k]
                == spec_stage(p@, k) by {
                if k < i {
                    assert(plan_models(old_plan)[k] == spec_stage(p@, k));
                    assert(plan@[k] == old_plan[k]);
                }
            }
        }
        i = i + 1;
    }
    proof {
        assert(plan_models(plan@) =~= spec_plan(p@));
    }
    plan
}

} // verus!
