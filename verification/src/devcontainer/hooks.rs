//! Lifecycle commands, in the container and on the host.
use vstd::prelude::*;

use crate::devcontainer::config::{Cmd, OneCmd};
use crate::docker;
use crate::docker::{shell_quote, Docker};
use crate::invocation;
use crate::invocation::{args2, args3, copy_list, Failure, Invocation, Job};
use crate::runtime::Runtime;
use crate::script;
use crate::script::{one_step, then_step, Step};
use crate::shell;
use crate::ssh;
use crate::text;
use crate::text::{cat, cat3, cat4};

verus! {

// ── in the container ──────────────────────────────────────────────────────────

/// One command of a hook.
#[derive(Debug, PartialEq, Eq)]
pub struct HookPart {
    /// Told before the command is run.
    pub note: Option<String>,
    pub job: Job,
}

/// What a [`HookPart`] says.
pub struct HookPartView {
    pub note: Option<Seq<char>>,
    pub job: invocation::JobView,
}

impl DeepView for HookPart {
    type V = HookPartView;

    open spec fn deep_view(&self) -> HookPartView {
        HookPartView { note: self.note.deep_view(), job: self.job.deep_view() }
    }
}

/// A hook that is run in the container: all its commands, whatever becomes of
/// each. It has succeeded if they all have.
#[derive(Debug, PartialEq, Eq)]
pub struct Hook {
    pub label: String,
    /// Told first.
    pub note: String,
    pub parts: Vec<HookPart>,
}

/// What a [`Hook`] says.
#[verifier::ext_equal]
pub struct HookView {
    pub label: Seq<char>,
    pub note: Seq<char>,
    pub parts: Seq<HookPartView>,
}

impl DeepView for Hook {
    type V = HookView;

    open spec fn deep_view(&self) -> HookView {
        HookView { label: self.label@, note: self.note@, parts: self.parts.deep_view() }
    }
}

/// The program and the arguments of a command.
pub open spec fn argv_spec(cmd: OneCmd) -> Seq<Seq<char>> {
    match cmd {
        OneCmd::Shell(s) => seq!["sh"@, "-c"@, s@],
        OneCmd::Exec(argv) => argv.deep_view(),
    }
}

/// Where and with what hooks run.
pub struct HookPlace {
    pub docker: Docker,
    pub container: Seq<char>,
    pub workdir: Seq<char>,
    pub env: Seq<(Seq<char>, Seq<char>)>,
}

impl HookPlace {
    /// A command that is run there, as the container's default user.
    pub open spec fn job(self, argv: Seq<Seq<char>>) -> invocation::JobView {
        self.docker.exec_in_spec(self.container, Some(self.workdir), self.env, argv, false)
    }

    /// The commands of a hook.
    pub open spec fn parts(self, cmd: Cmd) -> Seq<HookPartView> {
        match cmd {
            Cmd::Shell(s) => seq![
                HookPartView { note: None, job: self.job(seq!["sh"@, "-c"@, s@]) },
            ],
            Cmd::Exec(argv) => seq![HookPartView { note: None, job: self.job(argv.deep_view()) }],
            Cmd::Named(map) => map@.map_values(
                |e: (String, OneCmd)|
                    HookPartView {
                        note: Some("[graft]   "@ + e.0@),
                        job: self.job(argv_spec(e.1)),
                    },
            ),
        }
    }

    /// A hook.
    pub open spec fn hook(self, label: Seq<char>, cmd: Cmd) -> HookView {
        HookView { label, note: "[graft] "@ + label, parts: self.parts(cmd) }
    }
}

fn argv_of(cmd: &OneCmd) -> (r: Vec<String>)
    ensures
        r.deep_view() == argv_spec(*cmd),
{
    match cmd {
        OneCmd::Shell(s) => args3("sh", "-c", s.as_str()),
        OneCmd::Exec(argv) => copy_list(argv),
    }
}

fn hook_job(
    docker: &Docker,
    container: &str,
    workdir: &str,
    env: &Vec<(String, String)>,
    argv: Vec<String>,
) -> (r: Job)
    ensures
        r.deep_view() == docker.exec_in_spec(
            container@,
            Some(workdir@),
            env.deep_view(),
            argv.deep_view(),
            false,
        ),
{
    let pairs = env.as_slice();
    assert(pairs.deep_view() =~= env.deep_view());
    docker.exec_in_with(container, Some(workdir), pairs, argv, false)
}

/// Runs a lifecycle command inside the container, in the workspace folder, with
/// `env` exported.
pub fn run_in_container(
    docker: &Docker,
    container: &str,
    workdir: &str,
    env: &Vec<(String, String)>,
    label: &str,
    cmd: &Cmd,
) -> (r: Hook)
    ensures
        r.deep_view() == (HookPlace {
            docker: *docker,
            container: container@,
            workdir: workdir@,
            env: env.deep_view(),
        }).hook(label@, *cmd),
{
    let ghost place = HookPlace {
        docker: *docker,
        container: container@,
        workdir: workdir@,
        env: env.deep_view(),
    };
    let mut parts: Vec<HookPart> = Vec::new();
    match cmd {
        Cmd::Shell(s) => {
            let job = hook_job(docker, container, workdir, env, args3("sh", "-c", s.as_str()));
            parts.push(HookPart { note: None, job });
        },
        Cmd::Exec(argv) => {
            let job = hook_job(docker, container, workdir, env, copy_list(argv));
            parts.push(HookPart { note: None, job });
        },
        Cmd::Named(map) => {
            let ghost all = place.parts(*cmd);
            for i in 0..map.len()
                invariant
                    *cmd == Cmd::Named(*map),
                    place == (HookPlace {
                        docker: *docker,
                        container: container@,
                        workdir: workdir@,
                        env: env.deep_view(),
                    }),
                    all == place.parts(*cmd),
                    parts.deep_view() == all.take(i as int),
            {
                let ghost before = parts.deep_view();
                let job = hook_job(docker, container, workdir, env, argv_of(&map[i].1));
                let part = HookPart { note: Some(cat("[graft]   ", map[i].0.as_str())), job };
                parts.push(part);
                assert(all[i as int] == part.deep_view());
                assert(parts.deep_view() =~= before.push(part.deep_view()));
                assert(parts.deep_view() =~= all.take(i + 1));
            }
            assert(parts.deep_view() =~= all);
        },
    }
    assert(parts.deep_view() =~= place.parts(*cmd));
    Hook { label: label.to_string(), note: cat("[graft] ", label), parts }
}

/// What is told of a hook that failed; the start goes on.
pub open spec fn failed_line(label: Seq<char>, error: Seq<char>) -> Seq<char> {
    "[graft] "@ + label + " failed (continuing): "@ + error
}

/// What is told of a command of a hook that failed.
pub fn hook_failed(label: &str, error: &str) -> (r: String)
    ensures
        r@ == failed_line(label@, error@),
{
    cat4("[graft] ", label, " failed (continuing): ", error)
}

/// A hook has succeeded if all its commands have.
pub open spec fn hook_succeeded(outcomes: Seq<bool>) -> bool {
    forall|i: int| 0 <= i < outcomes.len() ==> outcomes[i]
}

/// Whether a hook has succeeded, by what became of its commands.
pub fn all_succeeded(outcomes: &Vec<bool>) -> (r: bool)
    ensures
        r == hook_succeeded(outcomes@),
{
    for i in 0..outcomes.len()
        invariant
            forall|j: int| 0 <= j < i ==> outcomes@[j],
    {
        if !outcomes[i] {
            return false;
        }
    }
    true
}

// ── on the host ───────────────────────────────────────────────────────────────

/// A command line made of quoted words.
pub open spec fn quoted_words(argv: Seq<Seq<char>>) -> Seq<char> {
    text::join_spec(argv.map_values(|a: Seq<char>| docker::shell_quote_spec(a)), " "@)
}

/// What the remote runs for a command: in the directory, and with `sh` for the
/// shell form rather than the remote user's login shell.
pub open spec fn host_script(dir: Seq<char>, cmd: OneCmd) -> Seq<char> {
    "cd "@ + docker::shell_quote_spec(dir) + " && "@ + match cmd {
        OneCmd::Shell(s) => "sh -c "@ + docker::shell_quote_spec(s@),
        OneCmd::Exec(argv) => quoted_words(argv.deep_view()),
    }
}

/// Runs a command where the project's files are: in the directory here, or on
/// the remote.
pub open spec fn host_step(
    dir: Seq<char>,
    what: Seq<char>,
    cmd: OneCmd,
    remote: Option<Seq<char>>,
    rt: Runtime,
) -> script::StepView {
    let context = "spawning host command"@;
    let failure = invocation::FailureView::Message(what + " failed"@);
    match remote {
        None => script::StepView::RunQuiet(
            invocation::JobView {
                command: (match cmd {
                    OneCmd::Shell(s) => invocation::InvocationView::plain(
                        "sh"@,
                        seq!["-c"@, s@],
                    ),
                    OneCmd::Exec(argv) => invocation::InvocationView::plain(
                        argv.deep_view()[0],
                        argv.deep_view().skip(1),
                    ),
                }).within(Some(dir)),
                context,
                failure,
            },
        ),
        Some(host) => script::StepView::Run(
            invocation::JobView {
                command: ssh::script_spec(host, host_script(dir, cmd), rt),
                context,
                failure,
            },
        ),
    }
}

/// There is nothing to run.
pub open spec fn is_vacant(cmd: OneCmd) -> bool {
    match cmd {
        OneCmd::Shell(_) => false,
        OneCmd::Exec(argv) => argv@.len() == 0,
    }
}

/// Named commands, each told by its name; those with nothing to run are only
/// told.
pub open spec fn named_steps(
    dir: Seq<char>,
    map: Seq<(String, OneCmd)>,
    remote: Option<Seq<char>>,
    rt: Runtime,
) -> Seq<script::StepView>
    decreases map.len(),
{
    if map.len() == 0 {
        seq![]
    } else {
        let (name, cmd) = map.last();
        let told = named_steps(dir, map.drop_last(), remote, rt).push(
            script::StepView::Say("[graft]   "@ + name@),
        );
        if is_vacant(cmd) {
            told
        } else {
            told.push(host_step(dir, name@, cmd, remote, rt))
        }
    }
}

/// A command on the host, where the first that fails ends it.
pub open spec fn on_host_spec(
    dir: Seq<char>,
    label: Seq<char>,
    cmd: Cmd,
    remote: Option<Seq<char>>,
    rt: Runtime,
) -> Seq<script::StepView> {
    let told = seq![script::StepView::Say("[graft] "@ + label + " (host)"@)];
    match cmd {
        Cmd::Shell(s) => told.push(host_step(dir, label, OneCmd::Shell(s), remote, rt)),
        Cmd::Exec(argv) => if argv@.len() == 0 {
            told
        } else {
            told.push(host_step(dir, label, OneCmd::Exec(argv), remote, rt))
        },
        Cmd::Named(map) => told + named_steps(dir, map@, remote, rt),
    }
}

fn quoted_line(argv: &Vec<String>) -> (r: String)
    ensures
        r@ == quoted_words(argv.deep_view()),
{
    let mut words: Vec<String> = Vec::new();
    let ghost all = argv.deep_view().map_values(|a: Seq<char>| docker::shell_quote_spec(a));
    for i in 0..argv.len()
        invariant
            all == argv.deep_view().map_values(|a: Seq<char>| docker::shell_quote_spec(a)),
            words.deep_view() == all.take(i as int),
    {
        assert(argv.deep_view()[i as int] == argv@[i as int]@);
        invocation::push(&mut words, shell_quote(argv[i].as_str()).as_str());
        assert(words.deep_view() =~= all.take(i + 1));
    }
    assert(words.deep_view() =~= all);
    text::join(&words, " ")
}

/// The shell form, or the program with its arguments.
enum Form<'a> {
    Line(&'a str),
    Program(&'a Vec<String>),
}

spec fn form_of(f: Form, cmd: OneCmd) -> bool {
    match f {
        Form::Line(s) => cmd matches OneCmd::Shell(t) && t@ == s@,
        Form::Program(v) => cmd matches OneCmd::Exec(w) && w.deep_view() == v.deep_view()
            && w@.len() == v@.len(),
    }
}

fn run_one(
    dir: &str,
    what: &str,
    form: Form,
    remote: &Option<String>,
    rt: &Runtime,
    Ghost(cmd): Ghost<OneCmd>,
) -> (r: Step)
    requires
        form_of(form, cmd),
        !is_vacant(cmd),
    ensures
        r.deep_view() == host_step(dir@, what@, cmd, remote.deep_view(), *rt),
{
    let context = "spawning host command".to_string();
    let failure = Failure::Message(cat(what, " failed"));
    match remote {
        None => {
            let mut command = match form {
                Form::Line(s) => Invocation::new("sh", args2("-c", s)),
                Form::Program(argv) => {
                    let ghost all = argv.deep_view();
                    assert(all.len() == argv@.len());
                    let mut rest: Vec<String> = Vec::new();
                    assert(rest.deep_view() =~= all.subrange(1, 1));
                    for i in 1..argv.len()
                        invariant
                            all == argv.deep_view(),
                            rest.deep_view() == all.subrange(1, i as int),
                    {
                        invocation::push(&mut rest, argv[i].as_str());
                        assert(rest.deep_view() =~= all.subrange(1, i + 1));
                    }
                    assert(rest.deep_view() =~= all.skip(1));
                    assert(all[0] == argv@[0]@);
                    Invocation::new(argv[0].as_str(), rest)
                },
            };
            command.dir = Some(dir.to_string());
            Step::RunQuiet(Job { command, context, failure })
        },
        Some(host) => {
            let body = match form {
                Form::Line(s) => cat("sh -c ", shell_quote(s).as_str()),
                Form::Program(argv) => quoted_line(argv),
            };
            let script = cat4("cd ", shell_quote(dir).as_str(), " && ", body.as_str());
            let command = ssh::script_command(host.as_str(), script.as_str(), rt);
            Step::Run(Job { command, context, failure })
        },
    }
}

/// Runs initializeCommand on the host, with the .devcontainer dir as cwd. The
/// "host" is wherever the project files live: the local machine, or — with a
/// remote — the remote host, over ssh.
pub fn run_on_host(dir: &str, label: &str, cmd: &Cmd, remote: &Option<String>, rt: &Runtime) -> (r:
    Vec<Step>)
    ensures
        r.deep_view() == on_host_spec(dir@, label@, *cmd, remote.deep_view(), *rt),
{
    let mut steps = one_step(Step::Say(cat3("[graft] ", label, " (host)")));
    match cmd {
        Cmd::Shell(s) => {
            let ghost one = OneCmd::Shell(*s);
            let step = run_one(dir, label, Form::Line(s.as_str()), remote, rt, Ghost(one));
            then_step(&mut steps, step);
        },
        Cmd::Exec(argv) => {
            if argv.len() > 0 {
                let ghost one = OneCmd::Exec(*argv);
                let step = run_one(dir, label, Form::Program(argv), remote, rt, Ghost(one));
                then_step(&mut steps, step);
            }
        },
        Cmd::Named(map) => {
            let ghost head = steps.deep_view();
            let ghost all = map@;
            assert(head + named_steps(dir@, all.take(0), remote.deep_view(), *rt) =~= head);
            for i in 0..map.len()
                invariant
                    all == map@,
                    steps.deep_view() == head + named_steps(
                        dir@,
                        all.take(i as int),
                        remote.deep_view(),
                        *rt,
                    ),
            {
                assert(all.take(i + 1).drop_last() =~= all.take(i as int));
                let name = map[i].0.as_str();
                then_step(&mut steps, Step::Say(cat("[graft]   ", name)));
                let ghost one = map@[i as int].1;
                match &map[i].1 {
                    OneCmd::Shell(s) => {
                        let step = run_one(
                            dir,
                            name,
                            Form::Line(s.as_str()),
                            remote,
                            rt,
                            Ghost(one),
                        );
                        then_step(&mut steps, step);
                    },
                    OneCmd::Exec(argv) => {
                        if argv.len() > 0 {
                            let step = run_one(
                                dir,
                                name,
                                Form::Program(argv),
                                remote,
                                rt,
                                Ghost(one),
                            );
                            then_step(&mut steps, step);
                        }
                    },
                }
                assert(steps.deep_view() =~= head + named_steps(
                    dir@,
                    all.take(i + 1),
                    remote.deep_view(),
                    *rt,
                ));
            }
            assert(all.take(all.len() as int) =~= all);
        },
    }
    assert(steps.deep_view() =~= on_host_spec(dir@, label@, *cmd, remote.deep_view(), *rt));
    steps
}

// ── laws ──────────────────────────────────────────────────────────────────────

/// What a hook runs in the container is what was configured, as the default user
/// and in the workspace folder: a text with `sh -c`, a list as it is.
pub proof fn hook_runs_the_configured_command(place: HookPlace, label: Seq<char>, cmd: Cmd)
    ensures
        ({
            let hook = place.hook(label, cmd);
            let head = seq!["exec"@, "--workdir"@, place.workdir] + docker::env_args(place.env)
                + seq![place.container];
            &&& hook.label == label
            &&& cmd matches Cmd::Shell(s) ==> hook.parts.len() == 1 && hook.parts[0].job.command
                == place.docker.command_spec(head + seq!["sh"@, "-c"@, s@])
            &&& cmd matches Cmd::Exec(argv) ==> hook.parts.len() == 1 && hook.parts[0].job.command
                == place.docker.command_spec(head + argv.deep_view())
        }),
{
    match cmd {
        Cmd::Shell(s) => {
            lemma_hook_args(place, seq!["sh"@, "-c"@, s@]);
        },
        Cmd::Exec(argv) => {
            lemma_hook_args(place, argv.deep_view());
        },
        Cmd::Named(_) => {},
    }
}

/// Of named commands every one is run, in order, and told by its name.
pub proof fn hook_runs_every_named_command(
    place: HookPlace,
    label: Seq<char>,
    map: Vec<(String, OneCmd)>,
    i: int,
)
    requires
        0 <= i < map@.len(),
    ensures
        ({
            let hook = place.hook(label, Cmd::Named(map));
            let head = seq!["exec"@, "--workdir"@, place.workdir] + docker::env_args(place.env)
                + seq![place.container];
            &&& hook.parts.len() == map@.len()
            &&& hook.parts[i].note == Some("[graft]   "@ + map@[i].0@)
            &&& map@[i].1 matches OneCmd::Shell(s) ==> hook.parts[i].job.command
                == place.docker.command_spec(head + seq!["sh"@, "-c"@, s@])
            &&& map@[i].1 matches OneCmd::Exec(argv) ==> hook.parts[i].job.command
                == place.docker.command_spec(head + argv.deep_view())
        }),
{
    match map@[i].1 {
        OneCmd::Shell(s) => {
            lemma_hook_args(place, seq!["sh"@, "-c"@, s@]);
        },
        OneCmd::Exec(argv) => {
            lemma_hook_args(place, argv.deep_view());
        },
    }
}

proof fn lemma_hook_args(place: HookPlace, argv: Seq<Seq<char>>)
    ensures
        place.job(argv).command == place.docker.command_spec(
            seq!["exec"@, "--workdir"@, place.workdir] + docker::env_args(place.env) + seq![
                place.container,
            ] + argv,
        ),
{
    assert(docker::exec_in_args(
        place.container,
        Some(place.workdir),
        place.env,
        argv,
        false,
    ) =~= seq!["exec"@, "--workdir"@, place.workdir] + docker::env_args(place.env) + seq![
        place.container,
    ] + argv);
}

proof fn lemma_read_words(argv: Seq<Seq<char>>)
    requires
        argv.len() > 0,
    ensures
        shell::read(shell::fresh(), quoted_words(argv)) == shell::behind(argv),
    decreases argv.len(),
{
    let quoted = argv.map_values(|a: Seq<char>| docker::shell_quote_spec(a));
    if argv.len() == 1 {
        docker::lemma_read_quoted(shell::fresh(), argv[0]);
        assert(seq![] + argv[0] =~= argv[0]);
        assert(argv.drop_last() =~= seq![]);
    } else {
        let init = argv.drop_last();
        lemma_read_words(init);
        let piece = " "@ + docker::shell_quote_spec(argv.last());
        assert(init.map_values(|a: Seq<char>| docker::shell_quote_spec(a)) =~= quoted.drop_last());
        assert(quoted_words(argv) =~= quoted_words(init) + piece);
        shell::lemma_read_concat(shell::fresh(), quoted_words(init), piece);
        docker::lemma_next_quoted(init, argv.last());
        assert(init.push(argv.last()) =~= argv);
    }
}

/// A step of a command on the host runs these words in this directory: a program
/// with arguments here, or a line that the remote's shell reads as them.
pub open spec fn runs_on_host(
    step: script::StepView,
    dir: Seq<char>,
    words: Seq<Seq<char>>,
    remote: Option<Seq<char>>,
    rt: Runtime,
) -> bool {
    match remote {
        None => step matches script::StepView::RunQuiet(job) && {
            &&& seq![job.command.program] + job.command.args == words
            &&& job.command.dir == Some(dir)
        },
        Some(host) => step matches script::StepView::Run(job) && exists|line: Seq<char>|
            {
                &&& #[trigger] shell::shell_words(line) == Some(words)
                &&& job.command == ssh::script_spec(
                    host,
                    "cd "@ + docker::shell_quote_spec(dir) + " && "@ + line,
                    rt,
                )
            },
    }
}

proof fn lemma_host_step(
    dir: Seq<char>,
    what: Seq<char>,
    cmd: OneCmd,
    remote: Option<Seq<char>>,
    rt: Runtime,
)
    requires
        !is_vacant(cmd),
    ensures
        runs_on_host(
            host_step(dir, what, cmd, remote, rt),
            dir,
            match cmd {
                OneCmd::Shell(s) => seq!["sh"@, "-c"@, s@],
                OneCmd::Exec(argv) => argv.deep_view(),
            },
            remote,
            rt,
        ),
{
    match cmd {
        OneCmd::Shell(s) => {
            let words = seq!["sh"@, "-c"@, s@];
            assert(seq!["sh"@] + seq!["-c"@, s@] =~= words);
            reveal_strlit("sh");
            reveal_strlit("-c");
            reveal_strlit(" ");
            reveal_strlit("sh -c ");
            let r0 = shell::fresh();
            let w1 = seq!["sh"@];
            let w2 = w1.push("-c"@);
            shell::lemma_read_ordinary(r0, "sh"@);
            assert(seq![] + "sh"@ =~= "sh"@);
            assert(w1.drop_last() =~= seq![]);
            shell::lemma_next_word(w1, "-c"@);
            shell::lemma_read_concat(r0, "sh"@, " "@ + "-c"@);
            let q = " "@ + docker::shell_quote_spec(s@);
            docker::lemma_next_quoted(w2, s@);
            shell::lemma_read_concat(r0, "sh"@ + (" "@ + "-c"@), q);
            let line = "sh -c "@ + docker::shell_quote_spec(s@);
            assert(line =~= "sh"@ + (" "@ + "-c"@) + q);
            assert(w2.push(s@) =~= words);
            assert(words.drop_last().push(words.last()) =~= words);
            assert(shell::shell_words(line) == Some(words));
        },
        OneCmd::Exec(argv) => {
            let words = argv.deep_view();
            assert(seq![words[0]] + words.skip(1) =~= words);
            lemma_read_words(words);
            assert(words.drop_last().push(words.last()) =~= words);
            assert(shell::shell_words(quoted_words(words)) == Some(words));
        },
    }
}

/// What a command on the host runs is what was configured, where the project's
/// files are: a text with `sh -c`, a list as it is; an empty list runs nothing.
pub proof fn host_command_is_the_configured_one(
    dir: Seq<char>,
    label: Seq<char>,
    cmd: Cmd,
    remote: Option<Seq<char>>,
    rt: Runtime,
)
    ensures
        ({
            let steps = on_host_spec(dir, label, cmd, remote, rt);
            &&& cmd matches Cmd::Shell(s) ==> steps.len() == 2 && runs_on_host(
                steps[1],
                dir,
                seq!["sh"@, "-c"@, s@],
                remote,
                rt,
            )
            &&& cmd matches Cmd::Exec(argv) ==> if argv@.len() == 0 {
                steps.len() == 1
            } else {
                steps.len() == 2 && runs_on_host(steps[1], dir, argv.deep_view(), remote, rt)
            }
            &&& steps[0] is Say
        }),
{
    match cmd {
        Cmd::Shell(s) => {
            lemma_host_step(dir, label, OneCmd::Shell(s), remote, rt);
        },
        Cmd::Exec(argv) => {
            if argv@.len() > 0 {
                lemma_host_step(dir, label, OneCmd::Exec(argv), remote, rt);
            }
        },
        Cmd::Named(_) => {},
    }
}

/// Of named commands on the host every one that has something to run is run,
/// behind its name.
pub proof fn host_runs_every_named_command(
    dir: Seq<char>,
    map: Seq<(String, OneCmd)>,
    remote: Option<Seq<char>>,
    rt: Runtime,
    i: int,
)
    requires
        0 <= i < map.len(),
        map[i].1 matches OneCmd::Exec(argv) ==> argv@.len() > 0,
    ensures
        exists|j: int|
            {
                &&& 0 < j < named_steps(dir, map, remote, rt).len()
                &&& runs_on_host(
                    #[trigger] named_steps(dir, map, remote, rt)[j],
                    dir,
                    match map[i].1 {
                        OneCmd::Shell(s) => seq!["sh"@, "-c"@, s@],
                        OneCmd::Exec(argv) => argv.deep_view(),
                    },
                    remote,
                    rt,
                )
                &&& named_steps(dir, map, remote, rt)[j - 1] == script::StepView::Say(
                    "[graft]   "@ + map[i].0@,
                )
            },
    decreases map.len(),
{
    let steps = named_steps(dir, map, remote, rt);
    let words = match map[i].1 {
        OneCmd::Shell(s) => seq!["sh"@, "-c"@, s@],
        OneCmd::Exec(argv) => argv.deep_view(),
    };
    if i == map.len() - 1 {
        lemma_host_step(dir, map[i].0@, map[i].1, remote, rt);
        let j = steps.len() - 1;
        assert(runs_on_host(steps[j], dir, words, remote, rt));
    } else {
        let init = map.drop_last();
        host_runs_every_named_command(dir, init, remote, rt, i);
        let before = named_steps(dir, init, remote, rt);
        let j = choose|j: int|
            {
                &&& 0 < j < before.len()
                &&& runs_on_host(#[trigger] before[j], dir, words, remote, rt)
                &&& before[j - 1] == script::StepView::Say("[graft]   "@ + init[i].0@)
            };
        assert(steps[j] == before[j]);
        assert(steps[j - 1] == before[j - 1]);
        assert(runs_on_host(steps[j], dir, words, remote, rt));
    }
}

} // verus!
