//! Sequences of steps that stop at the first one that fails.
use vstd::prelude::*;

use crate::invocation;
use crate::invocation::{Invocation, Job};

verus! {

/// One step of a sequence.
#[derive(Debug, PartialEq, Eq)]
pub enum Step {
    /// Tells the user a line.
    Say(String),
    /// Warns the user with a line.
    Warn(String),
    /// Runs a command.
    Run(Job),
    /// Runs a command that is not traced.
    RunQuiet(Job),
    /// Runs a command as a part of something, which its failure tells too.
    RunWithin { context: String, job: Job },
    /// The same for a command that reads a text from its standard input.
    Feed { context: String, job: Job, input: String },
    /// Runs a command whatever comes of it.
    Try(Invocation),
    /// Copies a local file or directory into a container.
    CopyIn { source: String, container: String, dest: String },
    /// The same for what the local path resolves to.
    CopyResolved { source: String, container: String, dest: String },
    /// Writes a text to a temporary file, which goes when the sequence ends. The
    /// context tells what for, if it is not empty.
    WriteTemp { temp: String, contents: String, context: String },
    /// Copies a local file to a temporary one, which goes when the sequence ends.
    CopyToTemp { source: String, temp: String, context: String },
}

/// What a [`Step`] says.
pub enum StepView {
    Say(Seq<char>),
    Warn(Seq<char>),
    Run(invocation::JobView),
    RunQuiet(invocation::JobView),
    RunWithin { context: Seq<char>, job: invocation::JobView },
    Feed { context: Seq<char>, job: invocation::JobView, input: Seq<char> },
    Try(invocation::InvocationView),
    CopyIn { source: Seq<char>, container: Seq<char>, dest: Seq<char> },
    CopyResolved { source: Seq<char>, container: Seq<char>, dest: Seq<char> },
    WriteTemp { temp: Seq<char>, contents: Seq<char>, context: Seq<char> },
    CopyToTemp { source: Seq<char>, temp: Seq<char>, context: Seq<char> },
}

impl DeepView for Step {
    type V = StepView;

    open spec fn deep_view(&self) -> StepView {
        match self {
            Step::Say(line) => StepView::Say(line@),
            Step::Warn(line) => StepView::Warn(line@),
            Step::Run(job) => StepView::Run(job.deep_view()),
            Step::RunQuiet(job) => StepView::RunQuiet(job.deep_view()),
            Step::RunWithin { context, job } => StepView::RunWithin {
                context: context@,
                job: job.deep_view(),
            },
            Step::Feed { context, job, input } => StepView::Feed {
                context: context@,
                job: job.deep_view(),
                input: input@,
            },
            Step::Try(command) => StepView::Try(command.deep_view()),
            Step::CopyIn { source, container, dest } => StepView::CopyIn {
                source: source@,
                container: container@,
                dest: dest@,
            },
            Step::CopyResolved { source, container, dest } => StepView::CopyResolved {
                source: source@,
                container: container@,
                dest: dest@,
            },
            Step::WriteTemp { temp, contents, context } => StepView::WriteTemp {
                temp: temp@,
                contents: contents@,
                context: context@,
            },
            Step::CopyToTemp { source, temp, context } => StepView::CopyToTemp {
                source: source@,
                temp: temp@,
                context: context@,
            },
        }
    }
}

/// No steps.
pub fn no_steps() -> (r: Vec<Step>)
    ensures
        r.deep_view() == Seq::<StepView>::empty(),
{
    let v: Vec<Step> = Vec::new();
    assert(v.deep_view() =~= seq![]);
    v
}

/// One step.
pub fn one_step(s: Step) -> (r: Vec<Step>)
    ensures
        r.deep_view() == seq![s.deep_view()],
{
    let mut v = no_steps();
    then_step(&mut v, s);
    assert(v.deep_view() =~= seq![s.deep_view()]);
    v
}

/// Appends a step.
pub fn then_step(v: &mut Vec<Step>, s: Step)
    ensures
        final(v).deep_view() == old(v).deep_view().push(s.deep_view()),
{
    v.push(s);
    assert(v.deep_view() =~= old(v).deep_view().push(s.deep_view()));
}

} // verus!
