//! Programs to run, as plain values: what is run, with which arguments, and
//! how a run ended.
use vstd::prelude::*;
use vstd::utf8::*;

use crate::text;

verus! {

/// A program to run with its arguments.
#[derive(Debug, Clone, PartialEq, Eq)]
pub struct Invocation {
    pub program: String,
    pub args: Vec<String>,
    /// The directory to run in, where it is not the current one.
    pub dir: Option<String>,
    /// Variables set on top of the inherited environment.
    pub env: Vec<(String, String)>,
    /// Whether standard input is closed rather than inherited.
    pub stdin_null: bool,
}

/// What an [`Invocation`] says.
pub struct InvocationView {
    pub program: Seq<char>,
    pub args: Seq<Seq<char>>,
    pub dir: Option<Seq<char>>,
    pub env: Seq<(Seq<char>, Seq<char>)>,
    pub stdin_null: bool,
}

impl DeepView for Invocation {
    type V = InvocationView;

    open spec fn deep_view(&self) -> InvocationView {
        InvocationView {
            program: self.program@,
            args: self.args.deep_view(),
            dir: self.dir.deep_view(),
            env: self.env.deep_view(),
            stdin_null: self.stdin_null,
        }
    }
}

impl InvocationView {
    /// The program run in the current directory, its standard input inherited.
    pub open spec fn plain(program: Seq<char>, args: Seq<Seq<char>>) -> Self {
        InvocationView { program, args, dir: None, env: seq![], stdin_null: false }
    }

    /// The same with more arguments behind.
    pub open spec fn with(self, args: Seq<Seq<char>>) -> Self {
        InvocationView { args: self.args + args, ..self }
    }

    /// The same run in another directory.
    pub open spec fn within(self, dir: Option<Seq<char>>) -> Self {
        InvocationView { dir, ..self }
    }

    /// The same with its standard input closed.
    pub open spec fn closed(self) -> Self {
        InvocationView { stdin_null: true, ..self }
    }
}

impl Invocation {
    /// `program` run with `args` in the current directory.
    pub fn new(program: &str, args: Vec<String>) -> (r: Invocation)
        ensures
            r.deep_view() == InvocationView::plain(program@, args.deep_view()),
    {
        let env: Vec<(String, String)> = Vec::new();
        assert(env.deep_view() =~= seq![]);
        Invocation { program: program.to_string(), args, dir: None, env, stdin_null: false }
    }

    /// Adds an argument.
    pub fn arg(&mut self, a: &str)
        ensures
            final(self).deep_view() == old(self).deep_view().with(seq![a@]),
    {
        push(&mut self.args, a);
        assert(self.args.deep_view() =~= old(self).args.deep_view() + seq![a@]);
    }
}

/// How a program that was to be run ended.
#[derive(Debug, PartialEq, Eq)]
pub enum Ended {
    /// It could not be started; the reason is told.
    NotStarted(String),
    /// It ended with an exit code, or by a signal.
    Exited(Option<i32>),
}

impl Ended {
    /// It was started and ended with exit code zero.
    pub open spec fn succeeded(self) -> bool {
        self == Ended::Exited(Some(0i32))
    }

    /// Whether it was started and ended with exit code zero.
    pub fn success(&self) -> (r: bool)
        ensures
            r == self.succeeded(),
    {
        match self {
            Ended::Exited(Some(code)) => *code == 0,
            _ => false,
        }
    }
}

/// How a program that was to be run ended, and what it wrote.
#[derive(Debug, PartialEq, Eq)]
pub struct Output {
    pub ended: Ended,
    /// How it ended, in words.
    pub status: String,
    pub stdout: Vec<u8>,
    pub stderr: Vec<u8>,
}

/// What went wrong.
#[derive(Debug, Clone, PartialEq, Eq)]
pub enum Failure {
    /// A program could not be started.
    Spawn { context: String, cause: String },
    /// A command in a container failed; its error output is told if it was kept.
    Exec { argv: Vec<String>, stderr: Option<String> },
    /// Output that had to be text was not UTF-8.
    NotUtf8,
    /// The configuration names a multiplexer that there is not.
    UnknownMultiplexer(String),
    /// Anything else, in words.
    Message(String),
    /// The same with what it was a part of, from the outside in.
    Chain(Vec<String>),
}

/// What a [`Failure`] says.
pub enum FailureView {
    Spawn { context: Seq<char>, cause: Seq<char> },
    Exec { argv: Seq<Seq<char>>, stderr: Option<Seq<char>> },
    NotUtf8,
    UnknownMultiplexer(Seq<char>),
    Message(Seq<char>),
    Chain(Seq<Seq<char>>),
}

impl DeepView for Failure {
    type V = FailureView;

    open spec fn deep_view(&self) -> FailureView {
        match self {
            Failure::Spawn { context, cause } => FailureView::Spawn {
                context: context@,
                cause: cause@,
            },
            Failure::Exec { argv, stderr } => FailureView::Exec {
                argv: argv.deep_view(),
                stderr: stderr.deep_view(),
            },
            Failure::NotUtf8 => FailureView::NotUtf8,
            Failure::UnknownMultiplexer(m) => FailureView::UnknownMultiplexer(m@),
            Failure::Message(m) => FailureView::Message(m@),
            Failure::Chain(parts) => FailureView::Chain(parts.deep_view()),
        }
    }
}

/// A command whose success matters, and what its failure means.
#[derive(Debug, Clone, PartialEq, Eq)]
pub struct Job {
    pub command: Invocation,
    /// What was being done, for the case that the program cannot be started.
    pub context: String,
    /// The failure that any end but success amounts to.
    pub failure: Failure,
}

/// What a [`Job`] says.
pub struct JobView {
    pub command: InvocationView,
    pub context: Seq<char>,
    pub failure: FailureView,
}

impl DeepView for Job {
    type V = JobView;

    open spec fn deep_view(&self) -> JobView {
        JobView {
            command: self.command.deep_view(),
            context: self.context@,
            failure: self.failure.deep_view(),
        }
    }
}

/// What a result of a job says.
pub open spec fn result_view<T: DeepView>(r: Result<T, Failure>) -> Result<T::V, FailureView> {
    match r {
        Ok(t) => Ok(t.deep_view()),
        Err(f) => Err(f.deep_view()),
    }
}

impl JobView {
    /// What the end of the command amounts to.
    pub open spec fn judged(self, ended: Ended) -> Result<(), FailureView> {
        match ended {
            Ended::NotStarted(cause) => Err(
                FailureView::Spawn { context: self.context, cause: cause@ },
            ),
            Ended::Exited(code) => if code == Some(0i32) {
                Ok(())
            } else {
                Err(self.failure)
            },
        }
    }
}

impl Job {
    /// What the end of the command amounts to.
    pub fn judge(self, ended: Ended) -> (r: Result<(), Failure>)
        ensures
            result_view(r) == self.deep_view().judged(ended),
    {
        if ended.success() {
            return Ok(());
        }
        match ended {
            Ended::NotStarted(cause) => Err(Failure::Spawn { context: self.context, cause }),
            Ended::Exited(_) => Err(self.failure),
        }
    }
}

/// A failure as a part of something: messages, and programs that could not be
/// started, get one more context; other failures speak for themselves.
pub open spec fn within_spec(context: Seq<char>, f: FailureView) -> FailureView {
    match f {
        FailureView::Message(m) => FailureView::Chain(seq![context, m]),
        FailureView::Spawn { context: inner, cause } => FailureView::Chain(
            seq![context, inner, cause],
        ),
        FailureView::Chain(parts) => FailureView::Chain(seq![context] + parts),
        _ => f,
    }
}

/// A failure as a part of something.
pub fn within(context: &str, f: Failure) -> (r: Failure)
    ensures
        r.deep_view() == within_spec(context@, f.deep_view()),
{
    match f {
        Failure::Message(m) => Failure::Chain(args2(context, m.as_str())),
        Failure::Spawn { context: inner, cause } => Failure::Chain(
            args3(context, inner.as_str(), cause.as_str()),
        ),
        Failure::Chain(parts) => {
            let mut all = args1(context);
            push_list(&mut all, &parts);
            Failure::Chain(all)
        },
        _ => f,
    }
}

/// What the output of a command in a container amounts to: its text, or its
/// failure together with what it wrote to its error output.
pub open spec fn captured_spec(job: JobView, out: Output) -> Result<Seq<char>, FailureView> {
    match job.judged(out.ended) {
        Ok(()) => if valid_utf8(out.stdout@) {
            Ok(decode_utf8(out.stdout@))
        } else {
            Err(FailureView::NotUtf8)
        },
        Err(FailureView::Exec { argv, stderr }) => Err(
            FailureView::Exec {
                argv,
                stderr: Some(text::trim_spec(text::utf8_lossy(out.stderr@))),
            },
        ),
        Err(f) => Err(f),
    }
}

/// What the output of a command in a container amounts to: its text, or its
/// failure together with what it wrote to its error output.
pub fn captured(job: Job, out: Output) -> (r: Result<String, Failure>)
    ensures
        result_view(r) == captured_spec(job.deep_view(), out),
{
    match job.judge(out.ended) {
        Ok(()) => match text::utf8(&out.stdout) {
            Some(s) => Ok(s),
            None => Err(Failure::NotUtf8),
        },
        Err(Failure::Exec { argv, stderr: _ }) => {
            let message = text::lossy(&out.stderr);
            let kept = text::trim(message.as_str()).to_string();
            Err(Failure::Exec { argv, stderr: Some(kept) })
        },
        Err(f) => Err(f),
    }
}

/// Appends `s` to a list of strings.
pub fn push(v: &mut Vec<String>, s: &str)
    ensures
        final(v).deep_view() == old(v).deep_view().push(s@),
{
    v.push(s.to_string());
    assert(v.deep_view() =~= old(v).deep_view().push(s@));
}

/// Appends every item of `more` to a list of strings.
pub fn push_list(v: &mut Vec<String>, more: &Vec<String>)
    ensures
        final(v).deep_view() == old(v).deep_view() + more.deep_view(),
{
    for i in 0..more.len()
        invariant
            v.deep_view() == old(v).deep_view() + more.deep_view().take(i as int),
    {
        push(v, more[i].as_str());
        assert(v.deep_view() =~= old(v).deep_view() + more.deep_view().take(i + 1));
    }
    assert(more.deep_view().take(more@.len() as int) =~= more.deep_view());
}

/// Appends every item of `more` to a list of strings.
pub fn push_strs(v: &mut Vec<String>, more: &[&str])
    ensures
        final(v).deep_view() == old(v).deep_view() + more.deep_view(),
{
    for i in 0..more.len()
        invariant
            v.deep_view() == old(v).deep_view() + more.deep_view().take(i as int),
    {
        let s: &str = more[i];
        push(v, s);
        assert(v.deep_view() =~= old(v).deep_view() + more.deep_view().take(i + 1));
    }
    assert(more.deep_view().take(more@.len() as int) =~= more.deep_view());
}

/// The items as owned strings.
pub fn list(items: &[&str]) -> (r: Vec<String>)
    ensures
        r.deep_view() == items.deep_view(),
{
    let mut v: Vec<String> = Vec::new();
    push_strs(&mut v, items);
    assert(v.deep_view() =~= items.deep_view());
    v
}

/// One string in a list.
pub fn args1(a: &str) -> (r: Vec<String>)
    ensures
        r.deep_view() == seq![a@],
{
    list(&[a])
}

/// Two strings in a list.
pub fn args2(a: &str, b: &str) -> (r: Vec<String>)
    ensures
        r.deep_view() == seq![a@, b@],
{
    list(&[a, b])
}

/// Three strings in a list.
pub fn args3(a: &str, b: &str, c: &str) -> (r: Vec<String>)
    ensures
        r.deep_view() == seq![a@, b@, c@],
{
    list(&[a, b, c])
}

/// Four strings in a list.
pub fn args4(a: &str, b: &str, c: &str, d: &str) -> (r: Vec<String>)
    ensures
        r.deep_view() == seq![a@, b@, c@, d@],
{
    list(&[a, b, c, d])
}

/// Five strings in a list.
pub fn args5(a: &str, b: &str, c: &str, d: &str, e: &str) -> (r: Vec<String>)
    ensures
        r.deep_view() == seq![a@, b@, c@, d@, e@],
{
    list(&[a, b, c, d, e])
}

/// Six strings in a list.
pub fn args6(a: &str, b: &str, c: &str, d: &str, e: &str, f: &str) -> (r: Vec<String>)
    ensures
        r.deep_view() == seq![a@, b@, c@, d@, e@, f@],
{
    list(&[a, b, c, d, e, f])
}

/// A copy of a list of strings.
pub fn copy_list(items: &Vec<String>) -> (r: Vec<String>)
    ensures
        r.deep_view() == items.deep_view(),
{
    let mut v: Vec<String> = Vec::new();
    push_list(&mut v, items);
    assert(v.deep_view() =~= items.deep_view());
    v
}

/// A copy of an optional string.
pub fn copy_opt(s: &Option<String>) -> (r: Option<String>)
    ensures
        r == *s,
{
    s.clone()
}

// ── laws ──────────────────────────────────────────────────────────────────────

/// A job has succeeded exactly where its command was started and ended with exit
/// code zero; a command that could not be started tells why.
pub proof fn only_exit_code_zero_is_success(job: JobView, ended: Ended)
    ensures
        job.judged(ended) is Ok <==> ended == Ended::Exited(Some(0i32)),
        ended.succeeded() <==> job.judged(ended) is Ok,
        ended matches Ended::NotStarted(cause) ==> job.judged(ended) == Err::<(), FailureView>(
            FailureView::Spawn { context: job.context, cause: cause@ },
        ),
        ended is Exited && job.judged(ended) is Err ==> job.judged(ended) == Err::<(), FailureView>(
            job.failure,
        ),
{
}

} // verus!
