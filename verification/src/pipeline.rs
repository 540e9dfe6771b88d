//! The pipeline data model: what the external parser hands the engine.
//!
//! A `Pipeline` is an ordered sequence of `Job`s; each `Job` is one command
//! invocation (name plus argument list, where the first argument repeats the
//! command name). The engine inspects only the first job's command and
//! arguments; multi-job piping is delegated to the pipeline executor.

use vstd::prelude::*;

verus! {

/// One command invocation within a pipeline: a name and its argument list.
/// The first argument is the command name itself.
pub struct Job {
    pub command: String,
    pub args: Vec<String>,
}

/// An ordered sequence of jobs produced by the external parser.
pub struct Pipeline {
    pub jobs: Vec<Job>,
}

/// Mathematical value of a `Job`: the command and arguments as character
/// sequences.
#[verifier::ext_equal]
pub struct JobView {
    pub command: Seq<char>,
    pub args: Seq<Seq<char>>,
}

/// Mathematical value of a `Pipeline`.
#[verifier::ext_equal]
pub struct PipelineView {
    pub jobs: Seq<JobView>,
}

impl View for Job {
    type V = JobView;

    open spec fn view(&self) -> JobView {
        JobView { command: self.command@, args: self.args.deep_view() }
    }
}

impl View for Pipeline {
    type V = PipelineView;

    open spec fn view(&self) -> PipelineView {
        PipelineView { jobs: Seq::new(self.jobs@.len(), |i: int| self.jobs@[i]@) }
    }
}

impl DeepView for Job {
    type V = JobView;

    open spec fn deep_view(&self) -> JobView {
        self.view()
    }
}

impl DeepView for Pipeline {
    type V = PipelineView;

    open spec fn deep_view(&self) -> PipelineView {
        self.view()
    }
}

impl JobView {
    /// A job the engine can dispatch: the argument list is never empty, since
    /// its first element is the command name.
    pub open spec fn wf(self) -> bool {
        self.args.len() >= 1
    }
}

impl PipelineView {
    /// A pipeline the engine can dispatch: at least one job, whose argument
    /// list carries the command name.
    pub open spec fn wf(self) -> bool {
        self.jobs.len() >= 1 && self.jobs[0].wf()
    }
}

} // verus!
