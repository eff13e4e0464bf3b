//! Bringing a devcontainer up, from what exists to a ready container.
use vstd::prelude::*;

use crate::devcontainer::backend;
use crate::devcontainer::backend::{docker_run, Id, Up};
use crate::devcontainer::config;
use crate::devcontainer::config::{Backend, Cmd, Spec};
use crate::devcontainer::hash;
use crate::devcontainer::hooks;
use crate::devcontainer::hooks::{hook_failed, run_in_container, run_on_host, Hook};
use crate::devcontainer::naming;
use crate::devcontainer::vars;
use crate::devcontainer::vars::{env_profile, exec_env};
use crate::devcontainer::workdir;
use crate::devcontainer::workdir::discover_workdirs;
use crate::docker;
use crate::docker::{shell_quote, Docker, Fetch};
use crate::features;
use crate::features::{install_probes, FeatureRequest, Fetching, Plan};
use crate::forward;
use crate::forward::PortForward;
use crate::invocation;
use crate::invocation::{args2, args3, Ended, Failure, Invocation, Output};
use crate::num;
use crate::path;
use crate::runtime::Runtime;
use crate::script;
use crate::script::{no_steps, one_step, then_step, Step};
use crate::table;
use crate::text;
use crate::text::{cat, cat4, same};

verus! {

/// Where the hash of the inputs is stored *inside* the container, so that it
/// goes with the container.
pub const HASH_PATH: &'static str = "/opt/graft/devcontainer.hash";

/// What is asked when the configuration has changed.
pub const RECREATE: &'static str = ".devcontainer changed since this container was created — recreate it? (anything installed in it since will be lost)";

/// The result of bringing a devcontainer up: the container, the workspace folder
/// to drop the user into, and the (deferred) postAttach hook.
#[derive(Debug, PartialEq, Eq)]
pub struct Started {
    pub container: String,
    pub session_name: String,
    pub workdir: String,
    pub forward_ports: Vec<PortForward>,
    pub env: Vec<(String, String)>,
    pub post_attach: Option<Cmd>,
}

impl Started {
    /// Runs `postAttachCommand`, if any. Called after graft has injected the
    /// environment and right before attaching the interactive session.
    pub fn run_post_attach(&self, remote: &Option<String>, rt: &Runtime) -> (r: Option<Hook>)
        ensures
            r.deep_view() == match self.post_attach {
                Some(cmd) => Some(
                    (hooks::HookPlace {
                        docker: Docker { remote: *remote, runtime: *rt },
                        container: self.container@,
                        workdir: self.workdir@,
                        env: self.env.deep_view(),
                    }).hook("postAttachCommand"@, cmd),
                ),
                None => None,
            },
    {
        match &self.post_attach {
            Some(cmd) => {
                let docker = Docker::new(remote, rt);
                Some(
                    run_in_container(
                        &docker,
                        self.container.as_str(),
                        self.workdir.as_str(),
                        &self.env,
                        "postAttachCommand",
                        cmd,
                    ),
                )
            },
            None => None,
        }
    }
}

// ── what is done between answers ──────────────────────────────────────────────

/// What is waited for.
#[derive(Debug, PartialEq, Eq)]
pub enum Phase {
    /// Whether a container exists.
    Existing,
    /// The hash that the container was made with.
    StoredHash,
    /// Whether the container is to be recreated.
    Confirming,
    /// The hook that runs on the host.
    Initializing,
    /// The features of a container that is to be made.
    Planning,
    /// Whether a plain container exists that is to be brought up.
    UpQuery,
    /// The id of the container that was brought up.
    UpAnswer,
    /// Which features a container that was kept has.
    Probing,
    /// The features that it lacks.
    Replanning,
    /// The installation of features.
    Installing,
    /// Whether a hook that runs once has run.
    HookMarker(usize),
    /// A hook that runs once.
    HookRun(usize),
    /// The hook that runs at every start.
    PostStart,
    /// Whether the workspace folder exists.
    WorkspaceTest,
    /// What is mounted in the container.
    Mounts,
    /// What stands under the usual places; with the answer about the mounts.
    Listing(Output),
    /// The directory that the user chooses.
    Choosing,
    /// Nothing: the container is ready, and this is the directory to work in.
    Ready(String),
    /// Nothing: the start has failed.
    Failed,
}

/// What a [`Phase`] says.
pub enum PhaseView {
    Existing,
    StoredHash,
    Confirming,
    Initializing,
    Planning,
    UpQuery,
    UpAnswer,
    Probing,
    Replanning,
    Installing,
    HookMarker(int),
    HookRun(int),
    PostStart,
    WorkspaceTest,
    Mounts,
    Listing(Output),
    Choosing,
    Ready(Seq<char>),
    Failed,
}

impl DeepView for Phase {
    type V = PhaseView;

    open spec fn deep_view(&self) -> PhaseView {
        match self {
            Phase::Existing => PhaseView::Existing,
            Phase::StoredHash => PhaseView::StoredHash,
            Phase::Confirming => PhaseView::Confirming,
            Phase::Initializing => PhaseView::Initializing,
            Phase::Planning => PhaseView::Planning,
            Phase::UpQuery => PhaseView::UpQuery,
            Phase::UpAnswer => PhaseView::UpAnswer,
            Phase::Probing => PhaseView::Probing,
            Phase::Replanning => PhaseView::Replanning,
            Phase::Installing => PhaseView::Installing,
            Phase::HookMarker(k) => PhaseView::HookMarker(*k as int),
            Phase::HookRun(k) => PhaseView::HookRun(*k as int),
            Phase::PostStart => PhaseView::PostStart,
            Phase::WorkspaceTest => PhaseView::WorkspaceTest,
            Phase::Mounts => PhaseView::Mounts,
            Phase::Listing(out) => PhaseView::Listing(*out),
            Phase::Choosing => PhaseView::Choosing,
            Phase::Ready(dir) => PhaseView::Ready(dir@),
            Phase::Failed => PhaseView::Failed,
        }
    }
}

/// What happened outside.
#[derive(Debug, PartialEq, Eq)]
pub enum Event {
    /// A command was run.
    Ran(Output),
    /// The contents of the stored hash, if it could be read.
    HashRead(Option<String>),
    /// The user's answer.
    Confirmed(bool),
    /// The hook on the host was run; where it failed, with the reason.
    Initialized(Result<(), String>),
    /// The features were fetched.
    Planned(Plan),
    /// The probes for markers have ended.
    Probed(Vec<Ended>),
    /// The installation of features is over.
    Installed,
    /// A hook was run; whether all its commands succeeded.
    HookDone(bool),
    /// The user's choice.
    Chosen(String),
}

/// What an [`Event`] says.
pub enum EventView {
    Ran(Output),
    HashRead(Option<Seq<char>>),
    Confirmed(bool),
    Initialized(Result<(), Seq<char>>),
    Planned(features::PlanView),
    Probed(Seq<Ended>),
    Installed,
    HookDone(bool),
    Chosen(Seq<char>),
}

impl DeepView for Event {
    type V = EventView;

    open spec fn deep_view(&self) -> EventView {
        match self {
            Event::Ran(out) => EventView::Ran(*out),
            Event::HashRead(s) => EventView::HashRead(s.deep_view()),
            Event::Confirmed(b) => EventView::Confirmed(*b),
            Event::Initialized(r) => EventView::Initialized(features::outcome_view(*r)),
            Event::Planned(plan) => EventView::Planned(plan.deep_view()),
            Event::Probed(ended) => EventView::Probed(ended@),
            Event::Installed => EventView::Installed,
            Event::HookDone(ok) => EventView::HookDone(*ok),
            Event::Chosen(dir) => EventView::Chosen(dir@),
        }
    }
}

/// What comes behind the steps of a turn.
#[derive(Debug, PartialEq, Eq)]
pub enum Next {
    /// A command is run for its output.
    Run(Invocation),
    /// A file is fetched from the container to a temporary one, and read.
    ReadHash { fetch: Fetch, temp: String },
    /// The user is asked.
    Confirm(String),
    /// Steps are taken on the host, up to the first that fails; then the start
    /// goes on.
    OnHost(Vec<Step>),
    /// Features are fetched.
    Fetch(Fetching),
    /// Probes for markers are run.
    Probe(Vec<Invocation>),
    /// Features are installed.
    Install(Plan),
    /// A hook is run.
    Hook(Hook),
    /// The user chooses a directory.
    Choose { configured: String, candidates: Vec<String> },
    /// All is done.
    Done,
    /// The start has failed.
    Fail(Failure),
}

/// What a [`Next`] says.
pub enum NextView {
    Run(invocation::InvocationView),
    ReadHash { fetch: docker::FetchView, temp: Seq<char> },
    Confirm(Seq<char>),
    OnHost(Seq<script::StepView>),
    Fetch(features::FetchingView),
    Probe(Seq<invocation::InvocationView>),
    Install(features::PlanView),
    Hook(hooks::HookView),
    Choose { configured: Seq<char>, candidates: Seq<Seq<char>> },
    Done,
    Fail(invocation::FailureView),
}

impl DeepView for Next {
    type V = NextView;

    open spec fn deep_view(&self) -> NextView {
        match self {
            Next::Run(command) => NextView::Run(command.deep_view()),
            Next::ReadHash { fetch, temp } => NextView::ReadHash {
                fetch: fetch.deep_view(),
                temp: temp@,
            },
            Next::Confirm(q) => NextView::Confirm(q@),
            Next::OnHost(steps) => NextView::OnHost(steps.deep_view()),
            Next::Fetch(f) => NextView::Fetch(f.deep_view()),
            Next::Probe(probes) => NextView::Probe(probes.deep_view()),
            Next::Install(plan) => NextView::Install(plan.deep_view()),
            Next::Hook(hook) => NextView::Hook(hook.deep_view()),
            Next::Choose { configured, candidates } => NextView::Choose {
                configured: configured@,
                candidates: candidates.deep_view(),
            },
            Next::Done => NextView::Done,
            Next::Fail(f) => NextView::Fail(f.deep_view()),
        }
    }
}

/// What is done: `prepare`, then `steps`, where the first step that fails ends
/// the start; behind the steps, whatever became of them, `cleanup`; then `next`.
#[derive(Debug, PartialEq, Eq)]
pub struct Turn {
    pub prepare: Vec<Step>,
    pub steps: Vec<Step>,
    pub cleanup: Option<Invocation>,
    pub next: Next,
}

/// What a [`Turn`] says.
pub struct TurnView {
    pub prepare: Seq<script::StepView>,
    pub steps: Seq<script::StepView>,
    pub cleanup: Option<invocation::InvocationView>,
    pub next: NextView,
}

impl DeepView for Turn {
    type V = TurnView;

    open spec fn deep_view(&self) -> TurnView {
        TurnView {
            prepare: self.prepare.deep_view(),
            steps: self.steps.deep_view(),
            cleanup: self.cleanup.deep_view(),
            next: self.next.deep_view(),
        }
    }
}

/// A devcontainer that is being brought up.
#[derive(Debug, PartialEq, Eq)]
pub struct Starting {
    pub docker: Docker,
    pub spec: Spec,
    /// The requested features, until they are fetched.
    pub features: Vec<FeatureRequest>,
    /// The hash of the inputs as they are now.
    pub hash: String,
    /// Whether images are to be rebuilt and the container recreated.
    pub force_build: bool,
    /// The container that existed at the start.
    pub existing: Option<String>,
    /// Whether the user wants the container recreated.
    pub recreate: bool,
    /// The fetched features, until they are installed.
    pub plan: Plan,
    /// The container, once it is up.
    pub id: String,
    pub phase: Phase,
}

/// What a [`Starting`] says.
#[verifier::ext_equal]
pub struct StartingView {
    pub docker: Docker,
    pub spec: Spec,
    pub features: Seq<FeatureRequest>,
    pub hash: Seq<char>,
    pub force_build: bool,
    pub existing: Option<Seq<char>>,
    pub recreate: bool,
    pub plan: features::PlanView,
    pub id: Seq<char>,
    pub phase: PhaseView,
}

impl DeepView for Starting {
    type V = StartingView;

    open spec fn deep_view(&self) -> StartingView {
        StartingView {
            docker: self.docker,
            spec: self.spec,
            features: self.features@,
            hash: self.hash@,
            force_build: self.force_build,
            existing: self.existing.deep_view(),
            recreate: self.recreate,
            plan: self.plan.deep_view(),
            id: self.id@,
            phase: self.phase.deep_view(),
        }
    }
}

// ── the stored hash ───────────────────────────────────────────────────────────

/// The temporary file that a stored hash is fetched to.
pub open spec fn hash_temp(rt: Runtime, container: Seq<char>) -> Seq<char> {
    path::join_spec(rt.temp_dir@, "graft-dchash-"@ + container)
}

/// The stored hash, by the contents of its file.
pub open spec fn stored_spec(contents: Option<Seq<char>>) -> Option<Seq<char>> {
    match contents {
        Some(s) => backend::nonempty(text::trim_spec(s)),
        None => None,
    }
}

/// The stored hash, by the contents of its file.
pub fn stored_hash(contents: &Option<String>) -> (r: Option<String>)
    ensures
        r.deep_view() == stored_spec(contents.deep_view()),
{
    match contents {
        Some(s) => {
            let hash = text::trim(s.as_str());
            if hash.is_empty() {
                None
            } else {
                Some(hash.to_string())
            }
        },
        None => None,
    }
}

/// Fetches the stored hash.
pub open spec fn read_hash_spec(docker: Docker, container: Seq<char>) -> NextView {
    let temp = hash_temp(docker.runtime, container);
    NextView::ReadHash { fetch: docker.cp_out_spec(container, HASH_PATH@, temp), temp }
}

fn read_hash(docker: &Docker, container: &str) -> (r: Next)
    ensures
        r.deep_view() == read_hash_spec(*docker, container@),
{
    let name = cat("graft-dchash-", container);
    let temp = path::join(docker.runtime.temp_dir.as_str(), name.as_str());
    Next::ReadHash { fetch: docker.cp_out(container, HASH_PATH, temp.as_str()), temp }
}

/// Stores a hash in the container.
pub open spec fn write_hash_spec(docker: Docker, container: Seq<char>, hash: Seq<char>)
    -> script::StepView {
    script::StepView::Run(
        docker.exec_spec(
            container,
            seq![
                "sh"@,
                "-c"@,
                "mkdir -p /opt/graft && printf %s "@ + docker::shell_quote_spec(hash) + " > "@
                    + HASH_PATH@,
            ],
            true,
        ),
    )
}

fn write_hash(docker: &Docker, container: &str, hash: &str) -> (r: Step)
    ensures
        r.deep_view() == write_hash_spec(*docker, container@, hash@),
{
    let line = cat4(
        "mkdir -p /opt/graft && printf %s ",
        shell_quote(hash).as_str(),
        " > ",
        HASH_PATH,
    );
    Step::Run(docker.exec_with(container, args3("sh", "-c", line.as_str()), true))
}

/// Makes the container's variables known to login shells.
pub open spec fn env_step(docker: Docker, container: Seq<char>, env: Seq<table::Entry>)
    -> script::StepView {
    script::StepView::Run(
        docker.exec_spec(container, seq!["sh"@, "-c"@, vars::env_script(env)], true),
    )
}

// ── the decisions ─────────────────────────────────────────────────────────────

/// The label of a hook that runs once.
pub open spec fn hook_label(k: int) -> Seq<char> {
    if k == 0 {
        "onCreateCommand"@
    } else if k == 1 {
        "updateContentCommand"@
    } else {
        "postCreateCommand"@
    }
}

/// The marker of a hook that runs once.
pub open spec fn hook_key(k: int) -> Seq<char> {
    if k == 0 {
        "onCreate"@
    } else if k == 1 {
        "updateContent"@
    } else {
        "postCreate"@
    }
}

/// A hook that runs once.
pub open spec fn hook_cmd(spec: Spec, k: int) -> Option<Cmd> {
    if k == 0 {
        spec.lifecycle.on_create
    } else if k == 1 {
        spec.lifecycle.update_content
    } else if k == 2 {
        spec.lifecycle.post_create
    } else {
        None
    }
}

impl StartingView {
    /// The container is made, or made anew.
    pub open spec fn created(self) -> bool {
        self.force_build || self.existing is None || self.recreate
    }

    /// Where hooks run.
    pub open spec fn place(self) -> hooks::HookPlace {
        hooks::HookPlace {
            docker: self.docker,
            container: self.id,
            workdir: self.spec.workspace_folder@,
            env: vars::exec_env_spec(self.spec.env.deep_view()),
        }
    }

    /// Waits behind some steps.
    pub open spec fn wait(
        self,
        phase: PhaseView,
        prepare: Seq<script::StepView>,
        steps: Seq<script::StepView>,
        next: NextView,
    ) -> (Self, TurnView) {
        (
            StartingView { phase, ..self },
            TurnView { prepare, steps, cleanup: None, next },
        )
    }

    /// Ends with a failure.
    pub open spec fn fail(self, f: invocation::FailureView) -> (Self, TurnView) {
        self.wait(PhaseView::Failed, seq![], seq![], NextView::Fail(f))
    }

    /// Runs initializeCommand on the host, before the container is brought up.
    pub open spec fn initialize(self) -> (Self, TurnView) {
        match self.spec.lifecycle.initialize {
            Some(cmd) => self.wait(
                PhaseView::Initializing,
                seq![],
                seq![],
                NextView::OnHost(
                    hooks::on_host_spec(
                        self.spec.base_dir@,
                        "initializeCommand"@,
                        cmd,
                        self.docker.remote.deep_view(),
                        self.docker.runtime,
                    ),
                ),
            ),
            None => self.begin(seq![]),
        }
    }

    /// What is told of initializeCommand, by how it ended.
    pub open spec fn told(outcome: Result<(), Seq<char>>) -> Seq<script::StepView> {
        match outcome {
            Ok(()) => seq![],
            Err(e) => seq![
                script::StepView::Warn(hooks::failed_line("initializeCommand"@, e)),
            ],
        }
    }

    /// Fetches the features of a container that is to be made: what they ask of
    /// it has to be known when it is brought up.
    pub open spec fn begin(self, steps: Seq<script::StepView>) -> (Self, TurnView) {
        if self.created() {
            match features::resolve_spec(
                self.spec.base_dir@,
                self.features,
                self.docker.runtime,
            ) {
                Some(f) => StartingView { features: seq![], ..self }.wait(
                    PhaseView::Planning,
                    steps,
                    seq![],
                    NextView::Fetch(f),
                ),
                None => self.begin_up(steps),
            }
        } else {
            self.begin_up(steps)
        }
    }

    /// Brings the container up; of a plain one it is asked first whether it
    /// exists.
    pub open spec fn begin_up(self, prepare: Seq<script::StepView>) -> (Self, TurnView) {
        match self.spec.backend {
            Backend::Container(_) => self.wait(
                PhaseView::UpQuery,
                prepare,
                seq![],
                NextView::Run(
                    backend::existing_query(
                        self.spec.backend.deep_view(),
                        self.docker.runtime,
                    ),
                ),
            ),
            Backend::Compose(_) => self.up(prepare, false),
        }
    }

    /// Brings the container up.
    pub open spec fn up(self, prepare: Seq<script::StepView>, exists_now: bool) -> (Self, TurnView) {
        let u = backend::up_spec(
            self.spec.backend.deep_view(),
            self.force_build || self.recreate,
            features::flags_of(self.plan.resolved),
            exists_now,
            self.docker.runtime,
        );
        match u.id {
            backend::IdView::Known(id) => StartingView { id, ..self }.settle(
                prepare + u.prepare,
                u.steps,
            ),
            backend::IdView::Ask(command) => (
                StartingView { phase: PhaseView::UpAnswer, ..self },
                TurnView {
                    prepare: prepare + u.prepare,
                    steps: u.steps,
                    cleanup: u.cleanup,
                    next: NextView::Run(command),
                },
            ),
        }
    }

    /// The container is up: records the hash if it was made, makes its variables
    /// known, and installs features, which come before the hooks.
    pub open spec fn settle(
        self,
        prepare: Seq<script::StepView>,
        steps: Seq<script::StepView>,
    ) -> (Self, TurnView) {
        let recorded = steps + (if self.created() {
            seq![write_hash_spec(self.docker, self.id, self.hash)]
        } else {
            seq![]
        }) + (if self.spec.env@.len() > 0 {
            seq![env_step(self.docker, self.id, self.spec.env.deep_view())]
        } else {
            seq![]
        });
        if self.created() {
            self.install(self.plan, prepare, recorded)
        } else if self.features.len() == 0 {
            self.hooks(0, prepare, recorded)
        } else {
            self.wait(
                PhaseView::Probing,
                prepare,
                recorded,
                NextView::Probe(
                    self.features.map_values(
                        |f: FeatureRequest|
                            self.docker.done_spec(self.id, features::marker_key_spec(f.reference@)),
                    ),
                ),
            )
        }
    }

    /// Installs a plan, where there is anything to it.
    pub open spec fn install(
        self,
        plan: features::PlanView,
        prepare: Seq<script::StepView>,
        steps: Seq<script::StepView>,
    ) -> (Self, TurnView) {
        if plan.resolved.len() == 0 && plan.work is None {
            self.hooks(0, prepare, steps)
        } else {
            StartingView { plan: features::PlanView::empty(), ..self }.wait(
                PhaseView::Installing,
                prepare,
                steps,
                NextView::Install(plan),
            )
        }
    }

    /// Goes on with the hooks that run once, from the k-th on.
    pub open spec fn hooks(
        self,
        k: int,
        prepare: Seq<script::StepView>,
        steps: Seq<script::StepView>,
    ) -> (Self, TurnView)
        decreases 3 - k,
    {
        if k >= 3 {
            self.post_start(prepare, steps)
        } else if hook_cmd(self.spec, k) is None {
            self.hooks(k + 1, prepare, steps)
        } else {
            self.wait(
                PhaseView::HookMarker(k),
                prepare,
                steps,
                NextView::Run(
                    self.docker.done_spec(self.id, hook_key(k)),
                ),
            )
        }
    }

    /// Goes on with the hook that runs at every start.
    pub open spec fn post_start(
        self,
        prepare: Seq<script::StepView>,
        steps: Seq<script::StepView>,
    ) -> (Self, TurnView) {
        match self.spec.lifecycle.post_start {
            Some(cmd) => self.wait(
                PhaseView::PostStart,
                prepare,
                steps,
                NextView::Hook(self.place().hook("postStartCommand"@, cmd)),
            ),
            None => self.workspace(prepare, steps),
        }
    }

    /// Asks whether the workspace folder exists.
    pub open spec fn workspace(
        self,
        prepare: Seq<script::StepView>,
        steps: Seq<script::StepView>,
    ) -> (Self, TurnView) {
        self.wait(
            PhaseView::WorkspaceTest,
            prepare,
            steps,
            NextView::Run(
                self.docker.command_spec(
                    docker::exec_args_spec(
                        self.id,
                        seq!["test"@, "-e"@, self.spec.workspace_folder@],
                        false,
                    ),
                ),
            ),
        )
    }

    /// The container is ready.
    pub open spec fn ready(self, dir: Seq<char>) -> (Self, TurnView) {
        self.wait(PhaseView::Ready(dir), seq![], seq![], NextView::Done)
    }

    /// Something came that was not waited for.
    pub open spec fn astray(self) -> (Self, TurnView) {
        self.fail(invocation::FailureView::Message("the start is out of step"@))
    }

    /// The output of a command has come.
    pub open spec fn on_output(self, out: Output) -> (Self, TurnView) {
        match self.phase {
            PhaseView::Existing => match backend::existing_spec(
                self.spec.backend.deep_view(),
                out,
            ) {
                Err(f) => self.fail(f),
                Ok(None) => StartingView { existing: None, ..self }.initialize(),
                Ok(Some(id)) => {
                    let s = StartingView { existing: Some(id), ..self };
                    if self.force_build {
                        s.initialize()
                    } else {
                        s.wait(
                            PhaseView::StoredHash,
                            seq![],
                            seq![],
                            read_hash_spec(self.docker, id),
                        )
                    }
                },
            },
            PhaseView::UpQuery => match backend::existing_spec(
                self.spec.backend.deep_view(),
                out,
            ) {
                Err(f) => self.fail(f),
                Ok(id) => self.up(seq![], id is Some),
            },
            PhaseView::UpAnswer => match backend::found_spec(self.spec.backend.deep_view(), out) {
                Err(f) => self.fail(f),
                Ok(id) => StartingView { id, ..self }.settle(seq![], seq![]),
            },
            PhaseView::HookMarker(k) => match hook_cmd(self.spec, k) {
                Some(cmd) => if out.ended.succeeded() {
                    self.hooks(k + 1, seq![], seq![])
                } else {
                    self.wait(
                        PhaseView::HookRun(k),
                        seq![],
                        seq![],
                        NextView::Hook(self.place().hook(hook_label(k), cmd)),
                    )
                },
                None => self.astray(),
            },
            PhaseView::WorkspaceTest => if out.ended.succeeded() {
                self.ready(self.spec.workspace_folder@)
            } else {
                self.wait(
                    PhaseView::Mounts,
                    seq![],
                    seq![],
                    NextView::Run(
                        self.docker.command_spec(
                            seq![
                                "inspect"@,
                                "--format"@,
                                "{{range .Mounts}}{{.Destination}}\n{{end}}"@,
                                self.id,
                            ],
                        ),
                    ),
                )
            },
            PhaseView::Mounts => self.wait(
                PhaseView::Listing(out),
                seq![],
                seq![],
                NextView::Run(workdir::listing_job(self.docker, self.id).command),
            ),
            PhaseView::Listing(mounts) => self.wait(
                PhaseView::Choosing,
                seq![],
                seq![],
                NextView::Choose {
                    configured: self.spec.workspace_folder@,
                    candidates: workdir::workdirs_spec(
                        docker::mounts_spec(mounts),
                        workdir::listed_spec(out),
                    ),
                },
            ),
            _ => self.astray(),
        }
    }

    /// What follows an event.
    pub open spec fn next(self, event: EventView) -> (Self, TurnView) {
        match event {
            EventView::Ran(out) => self.on_output(out),
            EventView::HashRead(contents) => if self.phase is StoredHash {
                if stored_spec(contents) == Some(self.hash) {
                    self.initialize()
                } else {
                    self.wait(
                        PhaseView::Confirming,
                        seq![],
                        seq![],
                        NextView::Confirm(RECREATE@),
                    )
                }
            } else {
                self.astray()
            },
            EventView::Confirmed(yes) => if self.phase is Confirming {
                StartingView { recreate: yes, ..self }.initialize()
            } else {
                self.astray()
            },
            EventView::Initialized(outcome) => if self.phase is Initializing {
                self.begin(Self::told(outcome))
            } else {
                self.astray()
            },
            EventView::Planned(plan) => if self.phase is Planning {
                StartingView { plan, ..self }.begin_up(seq![])
            } else if self.phase is Replanning {
                self.install(plan, seq![], seq![])
            } else {
                self.astray()
            },
            EventView::Probed(probes) => if self.phase is Probing {
                match features::resolve_spec(
                    self.spec.base_dir@,
                    features::missing_spec(self.features, probes),
                    self.docker.runtime,
                ) {
                    Some(f) => StartingView { features: seq![], ..self }.wait(
                        PhaseView::Replanning,
                        seq![],
                        seq![],
                        NextView::Fetch(f),
                    ),
                    None => StartingView { features: seq![], ..self }.hooks(0, seq![], seq![]),
                }
            } else {
                self.astray()
            },
            EventView::Installed => if self.phase is Installing {
                self.hooks(0, seq![], seq![])
            } else {
                self.astray()
            },
            EventView::HookDone(ok) => match self.phase {
                PhaseView::HookRun(k) => if 0 <= k < 3 {
                    self.hooks(
                        k + 1,
                        seq![],
                        if ok {
                            seq![
                                script::StepView::Run(
                                    self.docker.mark_spec(self.id, hook_key(k)),
                                ),
                            ]
                        } else {
                            seq![]
                        },
                    )
                } else {
                    self.astray()
                },
                PhaseView::PostStart => self.workspace(seq![], seq![]),
                _ => self.astray(),
            },
            EventView::Chosen(dir) => if self.phase is Choosing {
                self.ready(dir)
            } else {
                self.astray()
            },
        }
    }
}

// ── the decisions, carried out ────────────────────────────────────────────────

fn label_of(k: usize) -> (r: &'static str)
    ensures
        r@ == hook_label(k as int),
{
    if k == 0 {
        "onCreateCommand"
    } else if k == 1 {
        "updateContentCommand"
    } else {
        "postCreateCommand"
    }
}

fn key_of(k: usize) -> (r: &'static str)
    ensures
        r@ == hook_key(k as int),
{
    if k == 0 {
        "onCreate"
    } else if k == 1 {
        "updateContent"
    } else {
        "postCreate"
    }
}

fn cmd_at<'a>(spec: &'a Spec, k: usize) -> (r: Option<&'a Cmd>)
    ensures
        match r {
            Some(c) => hook_cmd(*spec, k as int) == Some(*c),
            None => hook_cmd(*spec, k as int) is None,
        },
{
    let cmd = if k == 0 {
        &spec.lifecycle.on_create
    } else if k == 1 {
        &spec.lifecycle.update_content
    } else if k == 2 {
        &spec.lifecycle.post_create
    } else {
        return None;
    };
    match cmd {
        Some(c) => Some(c),
        None => None,
    }
}

fn push_all(steps: &mut Vec<Step>, more: Vec<Step>)
    ensures
        final(steps).deep_view() == old(steps).deep_view() + more.deep_view(),
{
    let ghost start = steps.deep_view();
    let ghost all = more@;
    let ghost views = more.deep_view();
    assert(start + views.take(0) =~= start);
    for s in it: more
        invariant
            it.seq() == all,
            views.len() == all.len(),
            forall|j: int| 0 <= j < all.len() ==> #[trigger] views[j] == all[j].deep_view(),
            steps.deep_view() == start + views.take(it.index()),
    {
        let ghost n = it.index();
        then_step(steps, s);
        assert(views[n] == all[n].deep_view());
        assert(steps.deep_view() =~= start + views.take(n + 1));
    }
    assert(views.take(views.len() as int) =~= views);
}

impl Starting {
    fn wait(&mut self, phase: Phase, prepare: Vec<Step>, steps: Vec<Step>, next: Next) -> (r: Turn)
        ensures
            (final(self).deep_view(), r.deep_view()) == old(self).deep_view().wait(
                phase.deep_view(),
                prepare.deep_view(),
                steps.deep_view(),
                next.deep_view(),
            ),
    {
        self.phase = phase;
        Turn { prepare, steps, cleanup: None, next }
    }

    fn fail(&mut self, f: Failure) -> (r: Turn)
        ensures
            (final(self).deep_view(), r.deep_view()) == old(self).deep_view().fail(f.deep_view()),
    {
        self.wait(Phase::Failed, no_steps(), no_steps(), Next::Fail(f))
    }

    fn astray(&mut self) -> (r: Turn)
        ensures
            (final(self).deep_view(), r.deep_view()) == old(self).deep_view().astray(),
    {
        self.fail(Failure::Message("the start is out of step".to_string()))
    }

    fn take_features(&mut self) -> (r: Vec<FeatureRequest>)
        ensures
            r@ == old(self).features@,
            final(self).deep_view() == (StartingView {
                features: seq![],
                ..old(self).deep_view()
            }),
    {
        let mut taken: Vec<FeatureRequest> = Vec::new();
        std::mem::swap(&mut taken, &mut self.features);
        taken
    }

    fn is_created(&self) -> (r: bool)
        ensures
            r == self.deep_view().created(),
    {
        self.force_build || self.existing.is_none() || self.recreate
    }

    fn initialize(&mut self) -> (r: Turn)
        ensures
            (final(self).deep_view(), r.deep_view()) == old(self).deep_view().initialize(),
    {
        match &self.spec.lifecycle.initialize {
            Some(cmd) => {
                let steps = run_on_host(
                    self.spec.base_dir.as_str(),
                    "initializeCommand",
                    cmd,
                    &self.docker.remote,
                    &self.docker.runtime,
                );
                self.wait(Phase::Initializing, no_steps(), no_steps(), Next::OnHost(steps))
            },
            None => self.begin(no_steps()),
        }
    }

    fn on_initialized(&mut self, outcome: Result<(), String>) -> (r: Turn)
        requires
            old(self).phase is Initializing,
        ensures
            (final(self).deep_view(), r.deep_view()) == old(self).deep_view().next(
                EventView::Initialized(features::outcome_view(outcome)),
            ),
    {
        let told = match outcome {
            Ok(()) => no_steps(),
            Err(e) => one_step(Step::Warn(hook_failed("initializeCommand", e.as_str()))),
        };
        self.begin(told)
    }

    fn begin(&mut self, steps: Vec<Step>) -> (r: Turn)
        ensures
            (final(self).deep_view(), r.deep_view()) == old(self).deep_view().begin(
                steps.deep_view(),
            ),
    {
        if self.is_created() && self.features.len() > 0 {
            let wanted = self.take_features();
            if let Some(f) = features::resolve(
                self.spec.base_dir.as_str(),
                wanted,
                &self.docker.runtime,
            ) {
                return self.wait(Phase::Planning, steps, no_steps(), Next::Fetch(f));
            }
        }
        self.begin_up(steps)
    }

    fn begin_up(&mut self, prepare: Vec<Step>) -> (r: Turn)
        ensures
            (final(self).deep_view(), r.deep_view()) == old(self).deep_view().begin_up(
                prepare.deep_view(),
            ),
    {
        match &self.spec.backend {
            Backend::Container(_) => {
                let query = self.spec.backend.existing(&self.docker.runtime);
                self.wait(Phase::UpQuery, prepare, no_steps(), Next::Run(query))
            },
            Backend::Compose(_) => self.up(prepare, false),
        }
    }

    fn up(&mut self, prepare: Vec<Step>, exists_now: bool) -> (r: Turn)
        ensures
            (final(self).deep_view(), r.deep_view()) == old(self).deep_view().up(
                prepare.deep_view(),
                exists_now,
            ),
    {
        let flags = self.plan.create_flags();
        let u = self.spec.backend.up(
            self.force_build || self.recreate,
            &flags,
            exists_now,
            &self.docker.runtime,
        );
        let Up { prepare: more, steps, cleanup, id } = u;
        let mut prepare = prepare;
        push_all(&mut prepare, more);
        match id {
            Id::Known(id) => {
                self.id = id;
                self.settle(prepare, steps)
            },
            Id::Ask(command) => {
                self.phase = Phase::UpAnswer;
                Turn { prepare, steps, cleanup, next: Next::Run(command) }
            },
        }
    }

    fn settle(&mut self, prepare: Vec<Step>, steps: Vec<Step>) -> (r: Turn)
        ensures
            (final(self).deep_view(), r.deep_view()) == old(self).deep_view().settle(
                prepare.deep_view(),
                steps.deep_view(),
            ),
    {
        let ghost before = self.deep_view();
        let ghost start = steps.deep_view();
        let mut steps = steps;
        let made = self.is_created();
        if made {
            let record = write_hash(&self.docker, self.id.as_str(), self.hash.as_str());
            then_step(&mut steps, record);
        }
        if self.spec.env.len() > 0 {
            let line = env_profile(&self.spec.env);
            let job = self.docker.exec_with(
                self.id.as_str(),
                args3("sh", "-c", line.as_str()),
                true,
            );
            then_step(&mut steps, Step::Run(job));
        }
        assert(steps.deep_view() =~= start + (if before.created() {
            seq![write_hash_spec(before.docker, before.id, before.hash)]
        } else {
            seq![]
        }) + (if before.spec.env@.len() > 0 {
            seq![env_step(before.docker, before.id, before.spec.env.deep_view())]
        } else {
            seq![]
        }));
        if made {
            let mut plan = Plan::empty();
            let ghost none = plan.deep_view();
            std::mem::swap(&mut plan, &mut self.plan);
            assert(self.deep_view() =~= StartingView { plan: none, ..before });
            if plan.resolved.len() == 0 && plan.work.is_none() {
                assert(plan.deep_view() =~= none);
                assert(self.deep_view() =~= before);
                return self.hooks(0, prepare, steps);
            }
            return self.wait(Phase::Installing, prepare, steps, Next::Install(plan));
        }
        if self.features.len() == 0 {
            return self.hooks(0, prepare, steps);
        }
        let probes = install_probes(&self.docker, self.id.as_str(), &self.features);
        self.wait(Phase::Probing, prepare, steps, Next::Probe(probes))
    }

    fn hooks(&mut self, k: usize, prepare: Vec<Step>, steps: Vec<Step>) -> (r: Turn)
        requires
            k <= 3,
        ensures
            (final(self).deep_view(), r.deep_view()) == old(self).deep_view().hooks(
                k as int,
                prepare.deep_view(),
                steps.deep_view(),
            ),
        decreases 3 - k,
    {
        if k >= 3 {
            return self.post_start(prepare, steps);
        }
        if cmd_at(&self.spec, k).is_none() {
            return self.hooks(k + 1, prepare, steps);
        }
        let test = self.docker.task_done(self.id.as_str(), key_of(k));
        self.wait(Phase::HookMarker(k), prepare, steps, Next::Run(test))
    }

    fn hook(&self, label: &str, cmd: &Cmd) -> (r: Next)
        ensures
            r.deep_view() == NextView::Hook(self.deep_view().place().hook(label@, *cmd)),
    {
        let env = exec_env(&self.spec.env);
        Next::Hook(
            run_in_container(
                &self.docker,
                self.id.as_str(),
                self.spec.workspace_folder.as_str(),
                &env,
                label,
                cmd,
            ),
        )
    }

    fn post_start(&mut self, prepare: Vec<Step>, steps: Vec<Step>) -> (r: Turn)
        ensures
            (final(self).deep_view(), r.deep_view()) == old(self).deep_view().post_start(
                prepare.deep_view(),
                steps.deep_view(),
            ),
    {
        match &self.spec.lifecycle.post_start {
            Some(cmd) => {
                let next = self.hook("postStartCommand", cmd);
                self.wait(Phase::PostStart, prepare, steps, next)
            },
            None => self.workspace(prepare, steps),
        }
    }

    fn workspace(&mut self, prepare: Vec<Step>, steps: Vec<Step>) -> (r: Turn)
        ensures
            (final(self).deep_view(), r.deep_view()) == old(self).deep_view().workspace(
                prepare.deep_view(),
                steps.deep_view(),
            ),
    {
        let test = self.docker.path_exists(
            self.id.as_str(),
            self.spec.workspace_folder.as_str(),
        );
        self.wait(Phase::WorkspaceTest, prepare, steps, Next::Run(test))
    }

    fn ready(&mut self, dir: String) -> (r: Turn)
        ensures
            (final(self).deep_view(), r.deep_view()) == old(self).deep_view().ready(dir@),
    {
        self.wait(Phase::Ready(dir), no_steps(), no_steps(), Next::Done)
    }

    fn on_existing(&mut self, out: Output) -> (r: Turn)
        requires
            old(self).phase is Existing,
        ensures
            (final(self).deep_view(), r.deep_view()) == old(self).deep_view().on_output(out),
    {
        match self.spec.backend.existing_id(&out) {
            Err(f) => self.fail(f),
            Ok(None) => {
                self.existing = None;
                self.initialize()
            },
            Ok(Some(id)) => {
                let next = read_hash(&self.docker, id.as_str());
                self.existing = Some(id);
                if self.force_build {
                    self.initialize()
                } else {
                    self.wait(Phase::StoredHash, no_steps(), no_steps(), next)
                }
            },
        }
    }

    fn on_marker(&mut self, k: usize, out: Output) -> (r: Turn)
        requires
            old(self).phase == Phase::HookMarker(k),
        ensures
            (final(self).deep_view(), r.deep_view()) == old(self).deep_view().on_output(out),
    {
        match cmd_at(&self.spec, k) {
            Some(cmd) => {
                if out.ended.success() {
                    self.hooks(k + 1, no_steps(), no_steps())
                } else {
                    let next = self.hook(label_of(k), cmd);
                    self.wait(Phase::HookRun(k), no_steps(), no_steps(), next)
                }
            },
            None => self.astray(),
        }
    }

    fn on_output(&mut self, out: Output) -> (r: Turn)
        ensures
            (final(self).deep_view(), r.deep_view()) == old(self).deep_view().on_output(out),
    {
        match &self.phase {
            Phase::Existing => self.on_existing(out),
            Phase::UpQuery => match self.spec.backend.existing_id(&out) {
                Err(f) => self.fail(f),
                Ok(id) => self.up(no_steps(), id.is_some()),
            },
            Phase::UpAnswer => match self.spec.backend.found(&out) {
                Err(f) => self.fail(f),
                Ok(id) => {
                    self.id = id;
                    self.settle(no_steps(), no_steps())
                },
            },
            Phase::HookMarker(k) => {
                let k: usize = *k;
                self.on_marker(k, out)
            },
            Phase::WorkspaceTest => {
                if out.ended.success() {
                    let dir = self.spec.workspace_folder.clone();
                    self.ready(dir)
                } else {
                    let query = self.docker.inspect_mounts(self.id.as_str());
                    self.wait(Phase::Mounts, no_steps(), no_steps(), Next::Run(query))
                }
            },
            Phase::Mounts => {
                let job = workdir::listing(&self.docker, self.id.as_str());
                self.wait(Phase::Listing(out), no_steps(), no_steps(), Next::Run(job.command))
            },
            Phase::Listing(mounts) => {
                let candidates = discover_workdirs(mounts, &out);
                let configured = self.spec.workspace_folder.clone();
                self.wait(
                    Phase::Choosing,
                    no_steps(),
                    no_steps(),
                    Next::Choose { configured, candidates },
                )
            },
            _ => self.astray(),
        }
    }

    fn on_hash(&mut self, contents: Option<String>) -> (r: Turn)
        requires
            old(self).phase is StoredHash,
        ensures
            (final(self).deep_view(), r.deep_view()) == old(self).deep_view().next(
                EventView::HashRead(contents.deep_view()),
            ),
    {
        let fresh = match stored_hash(&contents) {
            Some(h) => same(h.as_str(), self.hash.as_str()),
            None => false,
        };
        if fresh {
            self.initialize()
        } else {
            self.wait(
                Phase::Confirming,
                no_steps(),
                no_steps(),
                Next::Confirm(RECREATE.to_string()),
            )
        }
    }

    fn on_probes(&mut self, probes: Vec<Ended>) -> (r: Turn)
        requires
            old(self).phase is Probing,
        ensures
            (final(self).deep_view(), r.deep_view()) == old(self).deep_view().next(
                EventView::Probed(probes@),
            ),
    {
        let wanted = self.take_features();
        let missing = features::install(wanted, &probes);
        match features::resolve(self.spec.base_dir.as_str(), missing, &self.docker.runtime) {
            Some(f) => self.wait(Phase::Replanning, no_steps(), no_steps(), Next::Fetch(f)),
            None => self.hooks(0, no_steps(), no_steps()),
        }
    }

    fn on_hook(&mut self, k: usize, ok: bool) -> (r: Turn)
        requires
            old(self).phase == Phase::HookRun(k),
        ensures
            (final(self).deep_view(), r.deep_view()) == old(self).deep_view().next(
                EventView::HookDone(ok),
            ),
    {
        if k >= 3 {
            return self.astray();
        }
        let steps = if ok {
            one_step(Step::Run(self.docker.mark_task_done(self.id.as_str(), key_of(k))))
        } else {
            no_steps()
        };
        self.hooks(k + 1, no_steps(), steps)
    }

    fn on_plan(&mut self, plan: Plan) -> (r: Turn)
        requires
            old(self).phase is Replanning,
        ensures
            (final(self).deep_view(), r.deep_view()) == old(self).deep_view().install(
                plan.deep_view(),
                seq![],
                seq![],
            ),
    {
        if plan.resolved.len() == 0 && plan.work.is_none() {
            return self.hooks(0, no_steps(), no_steps());
        }
        self.plan = Plan::empty();
        self.wait(Phase::Installing, no_steps(), no_steps(), Next::Install(plan))
    }

    /// What follows an event: what is done, and what comes next.
    pub fn step(&mut self, event: Event) -> (r: Turn)
        ensures
            (final(self).deep_view(), r.deep_view()) == old(self).deep_view().next(
                event.deep_view(),
            ),
    {
        match event {
            Event::Ran(out) => self.on_output(out),
            Event::HashRead(contents) => match &self.phase {
                Phase::StoredHash => self.on_hash(contents),
                _ => self.astray(),
            },
            Event::Confirmed(yes) => match &self.phase {
                Phase::Confirming => {
                    self.recreate = yes;
                    self.initialize()
                },
                _ => self.astray(),
            },
            Event::Initialized(outcome) => match &self.phase {
                Phase::Initializing => self.on_initialized(outcome),
                _ => self.astray(),
            },
            Event::Planned(plan) => match &self.phase {
                Phase::Planning => {
                    self.plan = plan;
                    self.begin_up(no_steps())
                },
                Phase::Replanning => self.on_plan(plan),
                _ => self.astray(),
            },
            Event::Probed(probes) => match &self.phase {
                Phase::Probing => self.on_probes(probes),
                _ => self.astray(),
            },
            Event::Installed => match &self.phase {
                Phase::Installing => self.hooks(0, no_steps(), no_steps()),
                _ => self.astray(),
            },
            Event::HookDone(ok) => match &self.phase {
                Phase::HookRun(k) => {
                    let k: usize = *k;
                    self.on_hook(k, ok)
                },
                Phase::PostStart => self.workspace(no_steps(), no_steps()),
                _ => self.astray(),
            },
            Event::Chosen(dir) => match &self.phase {
                Phase::Choosing => self.ready(dir),
                _ => self.astray(),
            },
        }
    }

    /// What was started, once the container is ready.
    pub fn finish(self) -> (r: Option<Started>)
        ensures
            r is Some <==> self.phase is Ready,
            r matches Some(s) ==> {
                &&& s.container@ == self.id@
                &&& s.session_name == self.spec.session_name
                &&& self.phase == Phase::Ready(s.workdir)
                &&& s.forward_ports == self.spec.forward_ports
                &&& s.env.deep_view() == vars::exec_env_spec(self.spec.env.deep_view())
                &&& s.post_attach == self.spec.lifecycle.post_attach
            },
    {
        match self.phase {
            Phase::Ready(workdir) => {
                let env = exec_env(&self.spec.env);
                Some(
                    Started {
                        container: self.id,
                        session_name: self.spec.session_name,
                        workdir,
                        forward_ports: self.spec.forward_ports,
                        env,
                        post_attach: self.spec.lifecycle.post_attach,
                    },
                )
            },
            _ => None,
        }
    }
}

/// Starts to bring a devcontainer up, with the hash of its inputs as they are:
/// first it is asked for an existing container.
pub fn start(spec: Spec, hash: String, force_build: bool, remote: &Option<String>, rt: &Runtime)
    -> (r: (Starting, Turn))
    ensures
        r.0.docker == (Docker { remote: *remote, runtime: *rt }),
        r.0.spec.deep_view() == (config::SpecView {
            features: seq![],
            ..spec.deep_view()
        }),
        r.0.features == spec.features,
        r.0.hash == hash,
        r.0.force_build == force_build,
        r.0.existing is None,
        !r.0.recreate,
        r.0.plan.deep_view() == features::PlanView::empty(),
        r.0.id@ == Seq::<char>::empty(),
        r.0.phase is Existing,
        r.1.deep_view() == (TurnView {
            prepare: seq![],
            steps: seq![],
            cleanup: None,
            next: NextView::Run(backend::existing_query(spec.backend.deep_view(), *rt)),
        }),
{
    let ghost whole = spec;
    let mut spec = spec;
    let mut wanted: Vec<FeatureRequest> = Vec::new();
    std::mem::swap(&mut wanted, &mut spec.features);
    assert(spec.features@.map_values(|f: FeatureRequest| config::request_view(f)) =~= seq![]);
    let docker = Docker::new(remote, rt);
    let query = spec.backend.existing(rt);
    let s = Starting {
        docker,
        spec,
        features: wanted,
        hash,
        force_build,
        existing: None,
        recreate: false,
        plan: Plan::empty(),
        id: String::new(),
        phase: Phase::Existing,
    };
    let turn = Turn {
        prepare: no_steps(),
        steps: no_steps(),
        cleanup: None,
        next: Next::Run(query),
    };
    (s, turn)
}

/// What stopping a project's container takes, by the answer about an existing
/// one.
pub open spec fn stop_spec(
    spec: config::SpecView,
    remote: Option<Seq<char>>,
    out: Output,
    rt: Runtime,
) -> Result<Seq<script::StepView>, invocation::FailureView> {
    match backend::existing_spec(spec.backend, out) {
        Ok(Some(id)) => Ok(
            seq![
                script::StepView::Say("[graft] stopping "@ + id),
                script::StepView::Run(
                    backend::docker_run_job(remote, seq!["stop"@, id], rt),
                ),
            ],
        ),
        Ok(None) => Ok(
            seq![
                script::StepView::Say("[graft] no container exists for this devcontainer"@),
            ],
        ),
        Err(f) => Err(f),
    }
}

/// Stops the container that is managed for this project, if one exists, as the
/// answer to [`Backend::existing`] tells. The container is kept so that it can
/// be resumed with everything intact.
pub fn stop(spec: &Spec, remote: &Option<String>, out: &Output, rt: &Runtime) -> (r: Result<
    Vec<Step>,
    Failure,
>)
    ensures
        match r {
            Ok(steps) => stop_spec(spec.deep_view(), remote.deep_view(), *out, *rt) == Ok::<
                Seq<script::StepView>,
                invocation::FailureView,
            >(steps.deep_view()),
            Err(f) => stop_spec(spec.deep_view(), remote.deep_view(), *out, *rt) == Err::<
                Seq<script::StepView>,
                invocation::FailureView,
            >(f.deep_view()),
        },
{
    match spec.backend.existing_id(out) {
        Ok(Some(id)) => {
            let mut steps = one_step(Step::Say(cat("[graft] stopping ", id.as_str())));
            let job = docker_run(remote, args2("stop", id.as_str()), rt);
            then_step(&mut steps, Step::Run(job));
            assert(steps.deep_view() =~= stop_spec(
                spec.deep_view(),
                remote.deep_view(),
                *out,
                *rt,
            )->Ok_0);
            Ok(steps)
        },
        Ok(None) => Ok(
            one_step(
                Step::Say("[graft] no container exists for this devcontainer".to_string()),
            ),
        ),
        Err(f) => Err(f),
    }
}

// ── laws ──────────────────────────────────────────────────────────────────────

/// How much of a start is still to come.
pub open spec fn remaining(phase: PhaseView) -> int {
    match phase {
        PhaseView::Existing => 21,
        PhaseView::StoredHash => 20,
        PhaseView::Confirming => 19,
        PhaseView::Initializing => 18,
        PhaseView::Planning => 17,
        PhaseView::UpQuery => 16,
        PhaseView::UpAnswer => 15,
        PhaseView::Probing => 14,
        PhaseView::Replanning => 13,
        PhaseView::Installing => 12,
        PhaseView::HookMarker(k) => 11 - 2 * k,
        PhaseView::HookRun(k) => 10 - 2 * k,
        PhaseView::PostStart => 5,
        PhaseView::WorkspaceTest => 4,
        PhaseView::Mounts => 3,
        PhaseView::Listing(_) => 2,
        PhaseView::Choosing => 1,
        PhaseView::Ready(_) => 0,
        PhaseView::Failed => 0,
    }
}

/// A hook that is waited for is one of the three that run once.
pub open spec fn in_step(s: StartingView) -> bool {
    match s.phase {
        PhaseView::HookMarker(k) => 0 <= k < 3 && hook_cmd(s.spec, k) is Some,
        PhaseView::HookRun(k) => 0 <= k < 3,
        _ => true,
    }
}

/// What a start is for stays the same.
pub open spec fn same_start(s: StartingView, t: StartingView) -> bool {
    &&& t.docker == s.docker
    &&& t.spec == s.spec
    &&& t.hash == s.hash
    &&& t.force_build == s.force_build
}

/// Of the hooks that run once, from a given one on, and of the one that runs at
/// every start, none is passed over: each is still to come, or is gone on with
/// now.
pub open spec fn waits(t: StartingView, turn: TurnView, from: int) -> bool {
    &&& forall|j: int|
        from <= j < 3 && (#[trigger] hook_cmd(t.spec, j)) is Some ==> {
            &&& remaining(t.phase) >= 11 - 2 * j
            &&& remaining(t.phase) == 11 - 2 * j ==> turn.next == NextView::Run(
                t.docker.done_spec(t.id, hook_key(j)),
            )
        }
    &&& t.spec.lifecycle.post_start matches Some(cmd) ==> {
        &&& remaining(t.phase) >= 5
        &&& remaining(t.phase) == 5 ==> turn.next == NextView::Hook(
            t.place().hook("postStartCommand"@, cmd),
        )
    }
}

/// initializeCommand is not passed over: it is still to come, or is gone on with
/// now.
pub open spec fn awaits_host(t: StartingView, turn: TurnView) -> bool {
    t.spec.lifecycle.initialize matches Some(cmd) ==> {
        &&& remaining(t.phase) >= 18
        &&& remaining(t.phase) == 18 ==> turn.next == NextView::OnHost(
            hooks::on_host_spec(
                t.spec.base_dir@,
                "initializeCommand"@,
                cmd,
                t.docker.remote.deep_view(),
                t.docker.runtime,
            ),
        )
    }
}

/// What going on with the hooks does: the steps are taken, and less is to come.
proof fn lemma_hooks(
    s: StartingView,
    k: int,
    prepare: Seq<script::StepView>,
    steps: Seq<script::StepView>,
)
    requires
        0 <= k <= 3,
    ensures
        ({
            let (t, turn) = s.hooks(k, prepare, steps);
            &&& turn.prepare == prepare
            &&& turn.steps == steps
            &&& turn.next !is Fail
            &&& turn.next !is Confirm
            &&& turn.next !is ReadHash
            &&& t.recreate == s.recreate
            &&& t.existing == s.existing
            &&& t.id == s.id
            &&& same_start(s, t)
            &&& in_step(t)
            &&& waits(t, turn, k)
            &&& 0 < remaining(t.phase) <= 11 - 2 * k
            &&& t.phase !is HookRun
        }),
    decreases 3 - k,
{
    if k < 3 && hook_cmd(s.spec, k) is None {
        lemma_hooks(s, k + 1, prepare, steps);
    }
}

proof fn lemma_install(
    s: StartingView,
    plan: features::PlanView,
    prepare: Seq<script::StepView>,
    steps: Seq<script::StepView>,
)
    ensures
        ({
            let (t, turn) = s.install(plan, prepare, steps);
            &&& turn.steps == steps
            &&& turn.next !is Confirm
            &&& turn.next !is ReadHash
            &&& t.recreate == s.recreate
            &&& t.existing == s.existing
            &&& t.id == s.id
            &&& same_start(s, t)
            &&& in_step(t)
            &&& waits(t, turn, 0)
            &&& 0 < remaining(t.phase) <= 12
        }),
{
    lemma_hooks(s, 0, prepare, steps);
}

proof fn lemma_settle(
    s: StartingView,
    prepare: Seq<script::StepView>,
    steps: Seq<script::StepView>,
)
    ensures
        ({
            let (t, turn) = s.settle(prepare, steps);
            &&& turn.steps == steps + (if s.created() {
                seq![write_hash_spec(s.docker, s.id, s.hash)]
            } else {
                seq![]
            }) + (if s.spec.env@.len() > 0 {
                seq![env_step(s.docker, s.id, s.spec.env.deep_view())]
            } else {
                seq![]
            })
            &&& turn.next !is Confirm
            &&& turn.next !is ReadHash
            &&& t.recreate == s.recreate
            &&& t.existing == s.existing
            &&& t.id == s.id
            &&& same_start(s, t)
            &&& in_step(t)
            &&& waits(t, turn, 0)
            &&& 0 < remaining(t.phase) <= 14
        }),
{
    let recorded = s.settle(prepare, steps).1.steps;
    let all = steps + (if s.created() {
        seq![write_hash_spec(s.docker, s.id, s.hash)]
    } else {
        seq![]
    }) + (if s.spec.env@.len() > 0 {
        seq![env_step(s.docker, s.id, s.spec.env.deep_view())]
    } else {
        seq![]
    });
    lemma_install(s, s.plan, prepare, all);
    lemma_hooks(s, 0, prepare, all);
}

proof fn lemma_begin_up(s: StartingView, prepare: Seq<script::StepView>)
    ensures
        ({
            let (t, turn) = s.begin_up(prepare);
            &&& turn.next !is Confirm
            &&& turn.next !is ReadHash
            &&& t.recreate == s.recreate
            &&& t.existing == s.existing
            &&& same_start(s, t)
            &&& in_step(t)
            &&& waits(t, turn, 0)
            &&& 0 < remaining(t.phase) <= 16
        }),
{
    lemma_up(s, prepare, false);
}

proof fn lemma_up(s: StartingView, prepare: Seq<script::StepView>, exists_now: bool)
    ensures
        ({
            let (t, turn) = s.up(prepare, exists_now);
            &&& turn.next !is Confirm
            &&& turn.next !is ReadHash
            &&& t.recreate == s.recreate
            &&& t.existing == s.existing
            &&& same_start(s, t)
            &&& in_step(t)
            &&& waits(t, turn, 0)
            &&& 0 < remaining(t.phase) <= 15
        }),
{
    let u = backend::up_spec(
        s.spec.backend.deep_view(),
        s.force_build || s.recreate,
        features::flags_of(s.plan.resolved),
        exists_now,
        s.docker.runtime,
    );
    if let backend::IdView::Known(id) = u.id {
        lemma_settle(StartingView { id, ..s }, prepare + u.prepare, u.steps);
    }
}

proof fn lemma_begin(s: StartingView, steps: Seq<script::StepView>)
    ensures
        ({
            let (t, turn) = s.begin(steps);
            &&& turn.next !is Confirm
            &&& turn.next !is ReadHash
            &&& t.recreate == s.recreate
            &&& t.existing == s.existing
            &&& same_start(s, t)
            &&& in_step(t)
            &&& waits(t, turn, 0)
            &&& 0 < remaining(t.phase) <= 17
        }),
{
    lemma_begin_up(s, steps);
}

proof fn lemma_initialize(s: StartingView)
    ensures
        ({
            let (t, turn) = s.initialize();
            &&& turn.next !is Confirm
            &&& turn.next !is ReadHash
            &&& t.recreate == s.recreate
            &&& t.existing == s.existing
            &&& same_start(s, t)
            &&& in_step(t)
            &&& waits(t, turn, 0)
            &&& 0 < remaining(t.phase) <= 18
            &&& remaining(t.phase) == 18 ==> turn.prepare.len() == 0 && turn.steps.len() == 0
            &&& awaits_host(t, turn)
        }),
{
    lemma_begin(s, seq![]);
}

#[verifier::spinoff_prover]
proof fn lemma_next(s: StartingView, event: EventView)
    requires
        in_step(s),
        s.phase !is Ready,
        s.phase !is Failed,
    ensures
        ({
            let (t, turn) = s.next(event);
            &&& in_step(t)
            &&& 0 <= remaining(t.phase) < remaining(s.phase)
            &&& same_start(s, t)
            &&& remaining(s.phase) <= 14 ==> t.id == s.id
            &&& remaining(s.phase) <= 18 ==> t.recreate == s.recreate && t.existing == s.existing
            &&& remaining(t.phase) >= 18 ==> turn.prepare.len() == 0 && turn.steps.len() == 0
            &&& remaining(s.phase) > 18 && t.phase !is Failed ==> awaits_host(t, turn)
            &&& remaining(s.phase) >= 12 && t.phase !is Failed ==> waits(t, turn, 0)
            &&& s.phase matches PhaseView::HookMarker(k) ==> t.phase is Failed || t.phase
                == PhaseView::HookRun(k) || waits(t, turn, k + 1)
            &&& s.phase matches PhaseView::HookRun(k) ==> t.phase is Failed || waits(
                t,
                turn,
                k + 1,
            )
            &&& turn.next is Confirm ==> s.phase is StoredHash
            &&& turn.next is ReadHash ==> s.phase is Existing && !s.force_build
            &&& event != EventView::Confirmed(true) ==> t.recreate == s.recreate || !t.recreate
        }),
{
    match event {
        EventView::Ran(out) => {
            match s.phase {
                PhaseView::Existing => {
                    if let Ok(x) = backend::existing_spec(s.spec.backend.deep_view(), out) {
                        lemma_initialize(StartingView { existing: x, ..s });
                    }
                },
                PhaseView::UpQuery => {
                    if let Ok(x) = backend::existing_spec(s.spec.backend.deep_view(), out) {
                        lemma_up(s, seq![], x is Some);
                    }
                },
                PhaseView::UpAnswer => {
                    if let Ok(id) = backend::found_spec(s.spec.backend.deep_view(), out) {
                        lemma_settle(StartingView { id, ..s }, seq![], seq![]);
                    }
                },
                PhaseView::HookMarker(k) => {
                    lemma_hooks(s, k + 1, seq![], seq![]);
                },
                _ => {},
            }
        },
        EventView::HashRead(_) => {
            lemma_initialize(s);
        },
        EventView::Confirmed(yes) => {
            lemma_initialize(StartingView { recreate: yes, ..s });
        },
        EventView::Initialized(outcome) => {
            lemma_begin(s, StartingView::told(outcome));
        },
        EventView::Planned(plan) => {
            lemma_begin_up(StartingView { plan, ..s }, seq![]);
            lemma_install(s, plan, seq![], seq![]);
        },
        EventView::Probed(_) => {
            lemma_hooks(StartingView { features: seq![], ..s }, 0, seq![], seq![]);
        },
        EventView::Installed => {
            lemma_hooks(s, 0, seq![], seq![]);
        },
        EventView::HookDone(ok) => {
            if let PhaseView::HookRun(k) = s.phase {
                let mark = seq![
                    script::StepView::Run(
                        s.docker.mark_spec(s.id, hook_key(k)),
                    ),
                ];
                lemma_hooks(s, k + 1, seq![], mark);
                lemma_hooks(s, k + 1, seq![], seq![]);
            }
        },
        EventView::Chosen(_) => {},
    }
}

/// A start comes to an end, whatever happens outside: each event leaves less to
/// come.
pub proof fn start_comes_to_an_end(s: StartingView, event: EventView)
    requires
        in_step(s),
        s.phase !is Ready,
        s.phase !is Failed,
    ensures
        in_step(s.next(event).0),
        0 <= remaining(s.next(event).0.phase) < remaining(s.phase),
{
    lemma_next(s, event);
}

/// Nothing but the user's yes has a container recreated that is not to be
/// rebuilt anyway.
pub proof fn only_a_yes_recreates(s: StartingView, event: EventView)
    requires
        in_step(s),
        s.phase !is Ready,
        s.phase !is Failed,
        !s.recreate,
        event != EventView::Confirmed(true),
    ensures
        !s.next(event).0.recreate,
{
    lemma_next(s, event);
}

/// The user is asked whether to recreate a container exactly when its
/// configuration has changed, or when the hash that it was made with is unknown.
pub proof fn asked_iff_the_configuration_changed(s: StartingView, contents: Option<Seq<char>>)
    requires
        s.phase is StoredHash,
    ensures
        s.next(EventView::HashRead(contents)).1.next is Confirm <==> stored_spec(contents) != Some(
            s.hash,
        ),
{
    lemma_initialize(s);
}

/// A build that is forced asks neither for the hash nor the user, from the first
/// event to the last.
pub proof fn forced_build_asks_nothing(s: StartingView, event: EventView)
    requires
        in_step(s),
        s.force_build,
        s.phase !is StoredHash,
        s.phase !is Confirming,
        s.phase !is Ready,
        s.phase !is Failed,
    ensures
        s.next(event).0.force_build,
        s.next(event).0.phase !is StoredHash,
        s.next(event).0.phase !is Confirming,
        s.next(event).1.next !is ReadHash,
        s.next(event).1.next !is Confirm,
{
    lemma_next(s, event);
    if let EventView::Ran(out) = event {
        if s.phase is Existing {
            if let Ok(x) = backend::existing_spec(s.spec.backend.deep_view(), out) {
                lemma_initialize(StartingView { existing: x, ..s });
            }
        }
    }
}

/// The hash is recorded when a container is made, and at no other time.
pub proof fn hash_is_recorded_iff_the_container_is_made(
    s: StartingView,
    prepare: Seq<script::StepView>,
    steps: Seq<script::StepView>,
)
    ensures
        s.settle(prepare, steps).1.steps == steps + (if s.created() {
            seq![write_hash_spec(s.docker, s.id, s.hash)]
        } else {
            seq![]
        }) + (if s.spec.env@.len() > 0 {
            seq![env_step(s.docker, s.id, s.spec.env.deep_view())]
        } else {
            seq![]
        }),
{
    lemma_settle(s, prepare, steps);
}

/// A hook that fails never ends the start, and leaves no marker, so that it is
/// run again at the next start; one that succeeds leaves its marker.
pub proof fn failed_hook_is_retried_and_not_fatal(s: StartingView, k: int, ok: bool)
    requires
        s.phase == PhaseView::HookRun(k),
        0 <= k < 3,
    ensures
        s.next(EventView::HookDone(ok)).1.next !is Fail,
        !ok ==> s.next(EventView::HookDone(ok)).1.steps == Seq::<script::StepView>::empty(),
        ok ==> s.next(EventView::HookDone(ok)).1.steps == seq![
            script::StepView::Run(
                s.docker.mark_spec(s.id, hook_key(k)),
            ),
        ],
{
    let mark = seq![
        script::StepView::Run(
            s.docker.mark_spec(s.id, hook_key(k)),
        ),
    ];
    lemma_hooks(s, k + 1, seq![], mark);
    lemma_hooks(s, k + 1, seq![], seq![]);
}

/// The container is brought up whatever became of initializeCommand: the start
/// goes on exactly as it does when the command succeeds, and a failure is told
/// with its reason first.
pub proof fn failed_initialize_command_is_not_fatal(s: StartingView, reason: Seq<char>)
    requires
        s.phase is Initializing,
    ensures
        ({
            let (good, after) = s.next(EventView::Initialized(Ok(())));
            let (bad, told) = s.next(EventView::Initialized(Err(reason)));
            &&& after.next !is Fail
            &&& bad == good
            &&& told.prepare == seq![
                script::StepView::Warn(hooks::failed_line("initializeCommand"@, reason)),
            ] + after.prepare
            &&& told.steps == after.steps
            &&& told.cleanup == after.cleanup
            &&& told.next == after.next
        }),
{
    let warning = StartingView::told(Err(reason));
    assert(warning + seq![] =~= warning);
    if let Backend::Compose(_) = s.spec.backend {
        let u = backend::up_spec(
            s.spec.backend.deep_view(),
            s.force_build || s.recreate,
            features::flags_of(s.plan.resolved),
            false,
            s.docker.runtime,
        );
        assert(u.id is Ask);
        assert(seq![] + u.prepare =~= u.prepare);
    }
}

/// A hook that has its marker is not run again.
pub proof fn completed_hook_is_skipped(s: StartingView, k: int, out: Output)
    requires
        s.phase == PhaseView::HookMarker(k),
        0 <= k < 3,
        hook_cmd(s.spec, k) is Some,
        out.ended.succeeded(),
    ensures
        s.next(EventView::Ran(out)).0.phase != PhaseView::HookRun(k),
{
    lemma_hooks(s, k + 1, seq![], seq![]);
}

proof fn lemma_trim_plain(s: Seq<char>)
    requires
        forall|i: int| 0 <= i < s.len() ==> !text::is_space(#[trigger] s[i]),
    ensures
        text::trim_spec(s) == s,
{
}

/// A hash in hexadecimal holds no white space.
proof fn lemma_hash_plain(n: nat)
    ensures
        num::zero_padded(num::hex(n), 16).len() >= 16,
        forall|i: int|
            0 <= i < num::zero_padded(num::hex(n), 16).len() ==> !text::is_space(
                #[trigger] num::zero_padded(num::hex(n), 16)[i],
            ),
{
    let h = num::zero_padded(num::hex(n), 16);
    naming::lemma_hex_chars(n);
    let digits = num::hex(n);
    assert forall|i: int| 0 <= i < h.len() implies !text::is_space(#[trigger] h[i]) by {
        if digits.len() < 16 {
            let pad = 16 - digits.len();
            if i < pad {
                assert(h[i] == '0');
            } else {
                assert(h[i] == digits[i - pad]);
                assert(text::is_alnum(digits[i - pad]));
            }
        } else {
            assert(text::is_alnum(digits[i]));
        }
    }
}

/// The first word from a position on holds no white space.
proof fn lemma_first_word_plain(s: Seq<char>, i: int)
    requires
        0 <= i,
        text::words_from(s, i).len() > 0,
    ensures
        forall|j: int|
            0 <= j < text::words_from(s, i)[0].len() ==> !text::is_space(
                #[trigger] text::words_from(s, i)[0][j],
            ),
    decreases s.len() - i,
{
    if i < s.len() {
        if text::is_space(s[i]) {
            let rest = text::words_from(s, i + 1);
            assert(text::words_from(s, i) == rest);
            lemma_first_word_plain(s, i + 1);
            assert forall|j: int| 0 <= j < text::words_from(s, i)[0].len() implies !text::is_space(
                #[trigger] text::words_from(s, i)[0][j],
            ) by {
                assert(!text::is_space(rest[0][j]));
            }
        } else {
            text::lemma_word_end(s, i);
            let e = text::word_end(s, i);
            let word = s.subrange(i, e);
            assert(text::words_from(s, i)[0] == word);
            assert forall|j: int| 0 <= j < word.len() implies !text::is_space(
                #[trigger] word[j],
            ) by {
                assert(word[j] == s[i + j]);
            }
        }
    }
}

/// A hash that was stored is read back as it was, so that a container that has
/// just been made does not count as changed.
pub proof fn stored_hash_reads_back(entries: Seq<hash::EntryView>)
    ensures
        stored_spec(Some(hash::hash_spec(entries))) == Some(hash::hash_spec(entries)),
{
    lemma_hash_plain(hash::hash_entries(hash::sort_entries(entries)) as nat);
    lemma_trim_plain(hash::hash_spec(entries));
}

/// The hash of inputs on a remote is read back as it was too.
pub proof fn stored_remote_hash_reads_back(
    host: Seq<char>,
    config_path: Seq<char>,
    config: Seq<u8>,
    out: Output,
)
    ensures
        hash::remote_hash_spec(host, config_path, config, out) matches Ok(h) ==> stored_spec(Some(h))
            == Some(h),
{
    if let Ok(h) = hash::remote_hash_spec(host, config_path, config, out) {
        reveal_strlit("0");
        reveal_strlit("-");
        let told = text::utf8_lossy(out.stdout@);
        let word = hash::first_word_or(told, "0"@);
        if text::words_spec(told).len() > 0 {
            lemma_first_word_plain(told, 0);
        }
        let own = hash::config_hash(config_path, config);
        lemma_hash_plain(
            hash::fnv_spec(hash::normalize_spec(config_path, config), hash::FNV_OFFSET) as nat,
        );
        assert(h == word + "-"@ + own);
        assert forall|i: int| 0 <= i < h.len() implies !text::is_space(#[trigger] h[i]) by {
            if i < word.len() {
                assert(h[i] == word[i]);
            } else if i > word.len() {
                assert(h[i] == own[i - word.len() - 1]);
            }
        }
        lemma_trim_plain(h);
    }
}

// ── a start as a whole ────────────────────────────────────────────────────────

/// A start as it stands behind some events.
#[verifier::opaque]
pub open spec fn after(s: StartingView, events: Seq<EventView>) -> StartingView
    decreases events.len(),
{
    if events.len() == 0 {
        s
    } else {
        after(s, events.drop_last()).next(events.last()).0
    }
}

/// What is done behind the i-th of some events.
#[verifier::opaque]
pub open spec fn turn(s: StartingView, events: Seq<EventView>, i: int) -> TurnView {
    after(s, events.take(i)).next(events[i]).1
}

/// Nothing but a failure comes behind the end.
proof fn lemma_ended(s: StartingView, event: EventView)
    requires
        s.phase is Ready || s.phase is Failed,
    ensures
        s.next(event).0.phase is Failed,
{
}

/// A start that has not failed was never at an end before, and is in step.
proof fn lemma_run(s: StartingView, events: Seq<EventView>)
    requires
        s.phase is Existing,
        after(s, events).phase !is Failed,
    ensures
        in_step(after(s, events)),
        same_start(s, after(s, events)),
        events.len() > 0 ==> {
            let p = after(s, events.drop_last());
            &&& p.phase !is Failed
            &&& p.phase !is Ready
            &&& remaining(after(s, events).phase) < remaining(p.phase)
        },
    decreases events.len(),
{
    reveal(after);
    if events.len() > 0 {
        let p = after(s, events.drop_last());
        if p.phase is Ready || p.phase is Failed {
            lemma_ended(p, events.last());
        }
        lemma_run(s, events.drop_last());
        lemma_next(p, events.last());
    }
}

/// A start that has not failed had not failed before, and had more to come.
proof fn lemma_prefix(s: StartingView, events: Seq<EventView>, n: int)
    requires
        s.phase is Existing,
        after(s, events).phase !is Failed,
        0 <= n <= events.len(),
    ensures
        after(s, events.take(n)).phase !is Failed,
        remaining(after(s, events.take(n)).phase) >= remaining(after(s, events).phase),
        n < events.len() ==> remaining(after(s, events.take(n)).phase) > remaining(
            after(s, events).phase,
        ),
    decreases events.len() - n,
{
    if n == events.len() {
        assert(events.take(n) =~= events);
    } else {
        lemma_run(s, events);
        lemma_prefix(s, events.drop_last(), n);
        assert(events.drop_last().take(n) =~= events.take(n));
    }
}

/// What was done behind an event does not hang on the events that come later.
proof fn lemma_turn(s: StartingView, events: Seq<EventView>, i: int)
    requires
        0 <= i < events.len(),
    ensures
        i < events.len() - 1 ==> turn(s, events.drop_last(), i) == turn(s, events, i),
        i == events.len() - 1 ==> turn(s, events, i) == after(s, events.drop_last()).next(
            events.last(),
        ).1,
{
    reveal(turn);
    if i < events.len() - 1 {
        assert(events.drop_last().take(i) =~= events.take(i));
    } else {
        assert(events.take(i) =~= events.drop_last());
    }
}

/// A hook that runs once was seen to: behind the i-th event it was tested whether
/// `file` is there; where it was told not to be, `hook` was run, and where all its
/// commands succeeded, `key` was recorded as done.
pub open spec fn seen_to(
    s: StartingView,
    events: Seq<EventView>,
    container: Seq<char>,
    i: int,
    file: Seq<char>,
    hook: hooks::HookView,
    key: Seq<char>,
) -> bool {
    &&& 0 <= i
    &&& i + 1 < events.len()
    &&& turn(s, events, i).next == NextView::Run(
        s.docker.command_spec(seq!["exec"@, container, "test"@, "-e"@, file]),
    )
    &&& events[i + 1] matches EventView::Ran(out) && (out.ended.succeeded() || {
        &&& i + 2 < events.len()
        &&& turn(s, events, i + 1).next == NextView::Hook(hook)
        &&& events[i + 2] matches EventView::HookDone(ok) && turn(s, events, i + 2).steps == (
        if ok {
            seq![script::StepView::Run(s.docker.mark_spec(container, key))]
        } else {
            seq![]
        })
    })
}

/// The k-th hook was seen to, when it was waited for.
spec fn kth_seen_to(s: StartingView, events: Seq<EventView>, k: int, i: int, id: Seq<char>) -> bool {
    &&& 0 <= i
    &&& i + 1 < events.len()
    &&& after(s, events.take(i + 1)).phase == PhaseView::HookMarker(k)
    &&& turn(s, events, i).next == NextView::Run(s.docker.done_spec(id, hook_key(k)))
    &&& events[i + 1] matches EventView::Ran(out) && (out.ended.succeeded() || {
        &&& i + 2 < events.len()
        &&& turn(s, events, i + 1).next == NextView::Hook(
            (StartingView { id, ..s }).place().hook(hook_label(k), hook_cmd(s.spec, k)->0),
        )
        &&& events[i + 2] matches EventView::HookDone(ok) && turn(s, events, i + 2).steps == (
        if ok {
            seq![script::StepView::Run(s.docker.mark_spec(id, hook_key(k)))]
        } else {
            seq![]
        })
    })
}

proof fn lemma_kth_grows(s: StartingView, events: Seq<EventView>, k: int, i: int, id: Seq<char>)
    requires
        events.len() > 0,
        kth_seen_to(s, events.drop_last(), k, i, id),
    ensures
        kth_seen_to(s, events, k, i, id),
{
    let p = events.drop_last();
    lemma_turn(s, events, i);
    lemma_turn(s, events, i + 1);
    assert(p.take(i + 1) =~= events.take(i + 1));
    assert(events[i + 1] == p[i + 1]);
    if i + 2 < p.len() {
        lemma_turn(s, events, i + 2);
        assert(events[i + 2] == p[i + 2]);
    }
}

/// What the last event of a start that has not failed did to its k-th hook.
#[verifier::spinoff_prover]
proof fn lemma_last_event(s: StartingView, events: Seq<EventView>, k: int)
    requires
        s.phase is Existing,
        after(s, events).phase !is Failed,
        events.len() > 0,
        0 <= k < 3,
        hook_cmd(s.spec, k) is Some,
    ensures
        ({
            let p = after(s, events.drop_last());
            let t = after(s, events);
            let last = turn(s, events, events.len() - 1);
            &&& p.phase !is Failed
            &&& remaining(t.phase) < remaining(p.phase)
            &&& remaining(p.phase) <= 14 ==> t.id == p.id
            &&& remaining(p.phase) > 11 - 2 * k ==> {
                &&& remaining(t.phase) >= 11 - 2 * k
                &&& remaining(t.phase) == 11 - 2 * k ==> {
                    &&& t.phase == PhaseView::HookMarker(k)
                    &&& last.next == NextView::Run(s.docker.done_spec(t.id, hook_key(k)))
                }
            }
            &&& p.phase == PhaseView::HookMarker(k) ==> {
                &&& events.last() matches EventView::Ran(out) && (out.ended.succeeded()
                    || remaining(t.phase) == 10 - 2 * k)
                &&& remaining(t.phase) == 10 - 2 * k ==> {
                    &&& t.phase == PhaseView::HookRun(k)
                    &&& events.last() matches EventView::Ran(out) && !out.ended.succeeded()
                    &&& last.next == NextView::Hook(
                        (StartingView { id: t.id, ..s }).place().hook(
                            hook_label(k),
                            hook_cmd(s.spec, k)->0,
                        ),
                    )
                }
            }
            &&& p.phase == PhaseView::HookRun(k) ==> {
                &&& events.last() matches EventView::HookDone(ok) && last.steps == (if ok {
                    seq![script::StepView::Run(s.docker.mark_spec(t.id, hook_key(k)))]
                } else {
                    seq![]
                })
            }
        }),
{
    let p = after(s, events.drop_last());
    let t = after(s, events);
    lemma_run(s, events);
    lemma_run(s, events.drop_last());
    lemma_next(p, events.last());
    lemma_turn(s, events, events.len() - 1);
    assert(t == p.next(events.last()).0) by {
        reveal(after);
    }
    assert(hook_cmd(t.spec, k) is Some);
    if p.phase == PhaseView::HookRun(k) {
        let mark = seq![script::StepView::Run(s.docker.mark_spec(p.id, hook_key(k)))];
        lemma_hooks(p, k + 1, seq![], mark);
        lemma_hooks(p, k + 1, seq![], seq![]);
    }
    if p.phase == PhaseView::HookMarker(k) {
        lemma_hooks(p, k + 1, seq![], seq![]);
    }
}

/// Where a start stands with its k-th hook.
#[verifier::spinoff_prover]
proof fn lemma_kth(s: StartingView, events: Seq<EventView>, k: int)
    requires
        s.phase is Existing,
        after(s, events).phase !is Failed,
        0 <= k < 3,
        hook_cmd(s.spec, k) is Some,
    ensures
        ({
            let t = after(s, events);
            let n = events.len() as int;
            &&& remaining(t.phase) == 11 - 2 * k ==> {
                &&& n >= 1
                &&& t.phase == PhaseView::HookMarker(k)
                &&& turn(s, events, n - 1).next == NextView::Run(
                    s.docker.done_spec(t.id, hook_key(k)),
                )
            }
            &&& remaining(t.phase) == 10 - 2 * k ==> {
                &&& n >= 2
                &&& t.phase == PhaseView::HookRun(k)
                &&& after(s, events.take(n - 1)).phase == PhaseView::HookMarker(k)
                &&& turn(s, events, n - 2).next == NextView::Run(
                    s.docker.done_spec(t.id, hook_key(k)),
                )
                &&& events[n - 1] matches EventView::Ran(out) && !out.ended.succeeded()
                &&& turn(s, events, n - 1).next == NextView::Hook(
                    (StartingView { id: t.id, ..s }).place().hook(
                        hook_label(k),
                        hook_cmd(s.spec, k)->0,
                    ),
                )
            }
            &&& remaining(t.phase) < 10 - 2 * k ==> exists|i: int|
                kth_seen_to(s, events, k, i, t.id)
        }),
    decreases events.len(),
{
    if events.len() == 0 {
        assert(after(s, events) == s) by {
            reveal(after);
        }
    } else {
        let q = events.drop_last();
        let p = after(s, q);
        let t = after(s, events);
        let n = events.len() as int;
        lemma_last_event(s, events, k);
        lemma_kth(s, q, k);
        assert(events.take(n - 1) =~= q);
        if remaining(p.phase) == 11 - 2 * k {
            lemma_turn(s, events, n - 2);
            if remaining(t.phase) < 10 - 2 * k {
                assert(kth_seen_to(s, events, k, n - 2, t.id));
            }
        } else if remaining(p.phase) == 10 - 2 * k {
            lemma_turn(s, events, n - 2);
            lemma_turn(s, events, n - 3);
            assert(q.take(n - 2) =~= events.take(n - 2));
            assert(events[n - 2] == q[n - 2]);
            assert(kth_seen_to(s, events, k, n - 3, t.id));
        } else if remaining(p.phase) < 10 - 2 * k {
            let i = choose|i: int| kth_seen_to(s, q, k, i, p.id);
            lemma_kth_grows(s, events, k, i, p.id);
            assert(kth_seen_to(s, events, k, i, t.id));
        }
    }
}

/// The files that tell that the hooks have run.
proof fn lemma_hook_files(docker: Docker, container: Seq<char>)
    ensures
        docker.done_spec(container, "onCreate"@) == docker.command_spec(
            seq!["exec"@, container, "test"@, "-e"@, "/opt/graft/state/onCreate"@],
        ),
        docker.done_spec(container, "updateContent"@) == docker.command_spec(
            seq!["exec"@, container, "test"@, "-e"@, "/opt/graft/state/updateContent"@],
        ),
        docker.done_spec(container, "postCreate"@) == docker.command_spec(
            seq!["exec"@, container, "test"@, "-e"@, "/opt/graft/state/postCreate"@],
        ),
{
    reveal_strlit("/opt/graft/state");
    reveal_strlit("/");
    reveal_strlit("onCreate");
    reveal_strlit("updateContent");
    reveal_strlit("postCreate");
    reveal_strlit("/opt/graft/state/onCreate");
    reveal_strlit("/opt/graft/state/updateContent");
    reveal_strlit("/opt/graft/state/postCreate");
    assert(docker::marker_path("onCreate"@) =~= "/opt/graft/state/onCreate"@);
    assert(docker::marker_path("updateContent"@) =~= "/opt/graft/state/updateContent"@);
    assert(docker::marker_path("postCreate"@) =~= "/opt/graft/state/postCreate"@);
    docker::lemma_done_args(docker, container, "onCreate"@);
    docker::lemma_done_args(docker, container, "updateContent"@);
    docker::lemma_done_args(docker, container, "postCreate"@);
}

/// onCreateCommand was seen to from the i-th event on, in the container that was
/// brought up and in its workspace folder.
pub open spec fn on_create_seen_to(s: StartingView, events: Seq<EventView>, i: int, c: Cmd) -> bool {
    let id = after(s, events).id;
    seen_to(
        s,
        events,
        id,
        i,
        "/opt/graft/state/onCreate"@,
        (hooks::HookPlace {
            docker: s.docker,
            container: id,
            workdir: s.spec.workspace_folder@,
            env: vars::exec_env_spec(s.spec.env.deep_view()),
        }).hook("onCreateCommand"@, c),
        "onCreate"@,
    )
}

/// The same for updateContentCommand.
pub open spec fn update_content_seen_to(
    s: StartingView,
    events: Seq<EventView>,
    i: int,
    c: Cmd,
) -> bool {
    let id = after(s, events).id;
    seen_to(
        s,
        events,
        id,
        i,
        "/opt/graft/state/updateContent"@,
        (hooks::HookPlace {
            docker: s.docker,
            container: id,
            workdir: s.spec.workspace_folder@,
            env: vars::exec_env_spec(s.spec.env.deep_view()),
        }).hook("updateContentCommand"@, c),
        "updateContent"@,
    )
}

/// The same for postCreateCommand.
pub open spec fn post_create_seen_to(
    s: StartingView,
    events: Seq<EventView>,
    i: int,
    c: Cmd,
) -> bool {
    let id = after(s, events).id;
    seen_to(
        s,
        events,
        id,
        i,
        "/opt/graft/state/postCreate"@,
        (hooks::HookPlace {
            docker: s.docker,
            container: id,
            workdir: s.spec.workspace_folder@,
            env: vars::exec_env_spec(s.spec.env.deep_view()),
        }).hook("postCreateCommand"@, c),
        "postCreate"@,
    )
}

/// Each hook that runs once and that the configuration sets has been seen to once
/// the container is ready: it was tested whether the hook has run before, and
/// where it has not, exactly the command of its own field was run in the
/// container that was brought up.
pub proof fn one_time_hooks_are_seen_to(s: StartingView, events: Seq<EventView>)
    requires
        s.phase is Existing,
        after(s, events).phase is Ready,
    ensures
        s.spec.lifecycle.on_create matches Some(c) ==> exists|i: int|
            on_create_seen_to(s, events, i, c),
        s.spec.lifecycle.update_content matches Some(c) ==> exists|i: int|
            update_content_seen_to(s, events, i, c),
        s.spec.lifecycle.post_create matches Some(c) ==> exists|i: int|
            post_create_seen_to(s, events, i, c),
{
    let id = after(s, events).id;
    lemma_hook_files(s.docker, id);
    if let Some(c) = s.spec.lifecycle.on_create {
        lemma_kth(s, events, 0);
        let i = choose|i: int| kth_seen_to(s, events, 0, i, id);
        assert(on_create_seen_to(s, events, i, c));
    }
    if let Some(c) = s.spec.lifecycle.update_content {
        lemma_kth(s, events, 1);
        let i = choose|i: int| kth_seen_to(s, events, 1, i, id);
        assert(update_content_seen_to(s, events, i, c));
    }
    if let Some(c) = s.spec.lifecycle.post_create {
        lemma_kth(s, events, 2);
        let i = choose|i: int| kth_seen_to(s, events, 2, i, id);
        assert(post_create_seen_to(s, events, i, c));
    }
}

proof fn lemma_kth_order(
    s: StartingView,
    events: Seq<EventView>,
    a: int,
    i: int,
    b: int,
    j: int,
    id: Seq<char>,
)
    requires
        s.phase is Existing,
        after(s, events).phase !is Failed,
        a < b,
        kth_seen_to(s, events, a, i, id),
        kth_seen_to(s, events, b, j, id),
    ensures
        i < j,
{
    if j <= i {
        lemma_prefix(s, events, i + 1);
        lemma_prefix(s, events.take(i + 1), j + 1);
        assert(events.take(i + 1).take(j + 1) =~= events.take(j + 1));
    }
}

/// The hooks that run once come in order: onCreateCommand, updateContentCommand,
/// postCreateCommand.
pub proof fn one_time_hooks_come_in_order(s: StartingView, events: Seq<EventView>, a: Cmd, b: Cmd)
    requires
        s.phase is Existing,
        after(s, events).phase is Ready,
    ensures
        s.spec.lifecycle.on_create == Some(a) && s.spec.lifecycle.update_content == Some(b)
            ==> exists|i: int, j: int|
            i < j && #[trigger] on_create_seen_to(s, events, i, a)
                && #[trigger] update_content_seen_to(s, events, j, b),
        s.spec.lifecycle.on_create == Some(a) && s.spec.lifecycle.post_create == Some(b)
            ==> exists|i: int, j: int|
            i < j && #[trigger] on_create_seen_to(s, events, i, a)
                && #[trigger] post_create_seen_to(s, events, j, b),
        s.spec.lifecycle.update_content == Some(a) && s.spec.lifecycle.post_create == Some(b)
            ==> exists|i: int, j: int|
            i < j && #[trigger] update_content_seen_to(s, events, i, a)
                && #[trigger] post_create_seen_to(s, events, j, b),
{
    let id = after(s, events).id;
    let l = s.spec.lifecycle;
    lemma_hook_files(s.docker, id);
    if l.on_create is Some {
        lemma_kth(s, events, 0);
    }
    if l.update_content is Some {
        lemma_kth(s, events, 1);
    }
    if l.post_create is Some {
        lemma_kth(s, events, 2);
    }
    let i = choose|i: int| kth_seen_to(s, events, 0, i, id);
    let j = choose|i: int| kth_seen_to(s, events, 1, i, id);
    let k = choose|i: int| kth_seen_to(s, events, 2, i, id);
    if l.on_create == Some(a) && l.update_content == Some(b) {
        lemma_kth_order(s, events, 0, i, 1, j, id);
        assert(on_create_seen_to(s, events, i, a) && update_content_seen_to(s, events, j, b));
    }
    if l.on_create == Some(a) && l.post_create == Some(b) {
        lemma_kth_order(s, events, 0, i, 2, k, id);
        assert(on_create_seen_to(s, events, i, a) && post_create_seen_to(s, events, k, b));
    }
    if l.update_content == Some(a) && l.post_create == Some(b) {
        lemma_kth_order(s, events, 1, j, 2, k, id);
        assert(update_content_seen_to(s, events, j, a) && post_create_seen_to(s, events, k, b));
    }
}

/// What is gone on with where a start has no less than `level` to come is gone on
/// with in every start that comes that far.
#[verifier::spinoff_prover]
proof fn lemma_passed(
    s: StartingView,
    events: Seq<EventView>,
    level: int,
    x: spec_fn(StartingView, TurnView) -> bool,
)
    requires
        s.phase is Existing,
        after(s, events).phase !is Failed,
        remaining(after(s, events).phase) <= level < 21,
        forall|p: StartingView, e: EventView|
            same_start(s, p) && in_step(p) && p.phase !is Ready && p.phase !is Failed && remaining(
                p.phase,
            ) > level && (#[trigger] p.next(e)).0.phase !is Failed ==> {
                &&& remaining(p.next(e).0.phase) >= level
                &&& remaining(p.next(e).0.phase) == level ==> x(p.next(e).0, p.next(e).1)
            },
    ensures
        exists|i: int| #[trigger] passed(s, events, level, x, i),
    decreases events.len(),
{
    if events.len() == 0 {
        assert(after(s, events) == s) by {
            reveal(after);
        }
    } else {
        let n = events.len() as int;
        let q = events.drop_last();
        let p = after(s, q);
        lemma_run(s, events);
        lemma_run(s, q);
        lemma_turn(s, events, n - 1);
        assert(after(s, events) == p.next(events.last()).0) by {
            reveal(after);
        }
        if remaining(p.phase) <= level {
            lemma_passed(s, q, level, x);
            let i = choose|i: int| #[trigger] passed(s, q, level, x, i);
            lemma_turn(s, events, i);
            assert(q.take(i + 1) =~= events.take(i + 1));
            assert(passed(s, events, level, x, i));
        } else {
            assert(events.take(n) =~= events);
            assert(passed(s, events, level, x, n - 1));
        }
    }
}

/// Behind the i-th event there was that much to come, and this was gone on with.
spec fn passed(
    s: StartingView,
    events: Seq<EventView>,
    level: int,
    x: spec_fn(StartingView, TurnView) -> bool,
    i: int,
) -> bool {
    &&& 0 <= i < events.len()
    &&& remaining(after(s, events.take(i + 1)).phase) == level
    &&& x(after(s, events.take(i + 1)), turn(s, events, i))
}

/// From the features on, the container stays the same.
proof fn lemma_container_stays(s: StartingView, events: Seq<EventView>, n: int)
    requires
        s.phase is Existing,
        after(s, events).phase !is Failed,
        0 <= n <= events.len(),
        remaining(after(s, events.take(n)).phase) <= 14,
    ensures
        after(s, events).id == after(s, events.take(n)).id,
    decreases events.len() - n,
{
    if n == events.len() {
        assert(events.take(n) =~= events);
    } else {
        let q = events.drop_last();
        lemma_run(s, events);
        lemma_run(s, q);
        assert(q.take(n) =~= events.take(n));
        lemma_container_stays(s, q, n);
        lemma_prefix(s, q, n);
        lemma_next(after(s, q), events.last());
        assert(after(s, events) == after(s, q).next(events.last()).0) by {
            reveal(after);
        }
    }
}

/// postStartCommand is run at every start, in the container that was brought up.
#[verifier::spinoff_prover]
pub proof fn post_start_command_runs_at_every_start(s: StartingView, events: Seq<EventView>, c: Cmd)
    requires
        s.phase is Existing,
        after(s, events).phase is Ready,
        s.spec.lifecycle.post_start == Some(c),
    ensures
        exists|i: int|
            0 <= i < events.len() && (#[trigger] turn(s, events, i)).next == NextView::Hook(
                (hooks::HookPlace {
                    docker: s.docker,
                    container: after(s, events).id,
                    workdir: s.spec.workspace_folder@,
                    env: vars::exec_env_spec(s.spec.env.deep_view()),
                }).hook("postStartCommand"@, c),
            ),
{
    let x = |t: StartingView, turn: TurnView|
        turn.next == NextView::Hook(
            (StartingView { id: t.id, ..s }).place().hook("postStartCommand"@, c),
        );
    assert forall|p: StartingView, e: EventView|
        same_start(s, p) && in_step(p) && p.phase !is Ready && p.phase !is Failed && remaining(
            p.phase,
        ) > 5 && (#[trigger] p.next(e)).0.phase !is Failed implies {
        &&& remaining(p.next(e).0.phase) >= 5
        &&& remaining(p.next(e).0.phase) == 5 ==> x(p.next(e).0, p.next(e).1)
    } by {
        lemma_next(p, e);
    }
    lemma_passed(s, events, 5, x);
    let i = choose|i: int| #[trigger] passed(s, events, 5, x, i);
    lemma_container_stays(s, events, i + 1);
}

/// initializeCommand is run on the host, where the project's files are, and
/// before anything is brought up.
#[verifier::spinoff_prover]
pub proof fn initialize_command_runs_on_the_host_first(
    s: StartingView,
    events: Seq<EventView>,
    c: Cmd,
)
    requires
        s.phase is Existing,
        after(s, events).phase is Ready,
        s.spec.lifecycle.initialize == Some(c),
    ensures
        exists|i: int|
            {
                &&& 0 <= i < events.len()
                &&& (#[trigger] turn(s, events, i)).next == NextView::OnHost(
                    hooks::on_host_spec(
                        s.spec.base_dir@,
                        "initializeCommand"@,
                        c,
                        s.docker.remote.deep_view(),
                        s.docker.runtime,
                    ),
                )
                &&& forall|j: int|
                    0 <= j <= i ==> (#[trigger] turn(s, events, j)).prepare.len() == 0 && turn(
                        s,
                        events,
                        j,
                    ).steps.len() == 0
            },
{
    let x = |t: StartingView, turn: TurnView|
        turn.next == NextView::OnHost(
            hooks::on_host_spec(
                s.spec.base_dir@,
                "initializeCommand"@,
                c,
                s.docker.remote.deep_view(),
                s.docker.runtime,
            ),
        );
    assert forall|p: StartingView, e: EventView|
        same_start(s, p) && in_step(p) && p.phase !is Ready && p.phase !is Failed && remaining(
            p.phase,
        ) > 18 && (#[trigger] p.next(e)).0.phase !is Failed implies {
        &&& remaining(p.next(e).0.phase) >= 18
        &&& remaining(p.next(e).0.phase) == 18 ==> x(p.next(e).0, p.next(e).1)
    } by {
        lemma_next(p, e);
    }
    lemma_passed(s, events, 18, x);
    let i = choose|i: int| #[trigger] passed(s, events, 18, x, i);
    assert forall|j: int| 0 <= j <= i implies (#[trigger] turn(s, events, j)).prepare.len() == 0
        && turn(s, events, j).steps.len() == 0 by {
        let part = events.take(j + 1);
        lemma_prefix(s, events, i + 1);
        lemma_prefix(s, events.take(i + 1), j + 1);
        assert(events.take(i + 1).take(j + 1) =~= part);
        lemma_run(s, part);
        lemma_run(s, part.drop_last());
        assert(part.drop_last() =~= events.take(j));
        assert(part.last() == events[j]);
        assert(after(s, part) == after(s, events.take(j)).next(events[j]).0) by {
            reveal(after);
        }
        assert(turn(s, events, j) == after(s, events.take(j)).next(events[j]).1) by {
            reveal(turn);
        }
        lemma_next(after(s, events.take(j)), events[j]);
    }
}

/// What makes the container known: the hash that it was made with, if it was
/// made, and its variables, if it has any.
pub open spec fn recorded(s: StartingView, container: Seq<char>) -> Seq<script::StepView> {
    (if s.force_build || s.existing is None || s.recreate {
        seq![
            script::StepView::Run(
                s.docker.exec_spec(
                    container,
                    seq![
                        "sh"@,
                        "-c"@,
                        "mkdir -p /opt/graft && printf %s "@ + docker::shell_quote_spec(s.hash)
                            + " > /opt/graft/devcontainer.hash"@,
                    ],
                    true,
                ),
            ),
        ]
    } else {
        seq![]
    }) + (if s.spec.env@.len() > 0 {
        seq![
            script::StepView::Run(
                s.docker.exec_spec(
                    container,
                    seq!["sh"@, "-c"@, vars::env_script(s.spec.env.deep_view())],
                    true,
                ),
            ),
        ]
    } else {
        seq![]
    })
}

proof fn lemma_recorded(s: StartingView, prepare: Seq<script::StepView>, steps: Seq<script::StepView>)
    ensures
        s.settle(prepare, steps).1.steps == steps + recorded(s, s.id),
        s.created() && (s.plan.resolved.len() > 0 || s.plan.work is Some) ==> s.settle(
            prepare,
            steps,
        ).1.next == NextView::Install(s.plan),
{
    reveal_strlit(" > ");
    reveal_strlit("/opt/graft/devcontainer.hash");
    reveal_strlit(" > /opt/graft/devcontainer.hash");
    let head = "mkdir -p /opt/graft && printf %s "@ + docker::shell_quote_spec(s.hash);
    assert(head + " > "@ + HASH_PATH@ =~= head + " > /opt/graft/devcontainer.hash"@);
    lemma_settle(s, prepare, steps);
    assert(s.settle(prepare, steps).1.steps =~= steps + recorded(s, s.id));
}

/// How a container is brought up as a start stands.
spec fn bring_up(s: StartingView, exists_now: bool) -> backend::UpView {
    backend::up_spec(
        s.spec.backend.deep_view(),
        s.force_build || s.recreate,
        features::flags_of(s.plan.resolved),
        exists_now,
        s.docker.runtime,
    )
}

/// What the events round the bringing up of a plain container do.
#[verifier::spinoff_prover]
proof fn lemma_container_event(s: StartingView, event: EventView)
    requires
        in_step(s),
        s.phase !is Ready,
        s.phase !is Failed,
        s.spec.backend is Container,
        s.next(event).0.phase !is Failed,
    ensures
        ({
            let (t, turn) = s.next(event);
            &&& remaining(s.phase) > 16 ==> {
                &&& remaining(t.phase) >= 16
                &&& remaining(t.phase) == 16 ==> turn.next == NextView::Run(
                    backend::existing_query(s.spec.backend.deep_view(), s.docker.runtime),
                )
            }
            &&& s.phase is UpQuery ==> {
                &&& event matches EventView::Ran(out) && (backend::existing_spec(
                    s.spec.backend.deep_view(),
                    out,
                ) matches Ok(found) && turn.steps == bring_up(s, found is Some).steps + recorded(
                    s,
                    s.spec.backend->Container_0.name@,
                ))
                &&& t.id == s.spec.backend->Container_0.name@
                &&& remaining(t.phase) <= 14
                &&& s.created() && (s.plan.resolved.len() > 0 || s.plan.work is Some)
                    ==> turn.next == NextView::Install(s.plan)
            }
            &&& t.phase is Planning ==> t.created()
            &&& s.phase is Planning ==> (event matches EventView::Planned(plan) && t.plan == plan
                && t.phase is UpQuery)
        }),
{
    lemma_next(s, event);
    match event {
        EventView::Ran(out) => {
            if s.phase is UpQuery {
                if let Ok(found) = backend::existing_spec(s.spec.backend.deep_view(), out) {
                    let u = bring_up(s, found is Some);
                    let id = s.spec.backend->Container_0.name@;
                    let r = StartingView { id, ..s };
                    assert(u.id == backend::IdView::Known(id));
                    assert(s.next(event) == r.settle(seq![] + u.prepare, u.steps));
                    lemma_recorded(r, seq![] + u.prepare, u.steps);
                    lemma_settle(r, seq![] + u.prepare, u.steps);
                }
            }
        },
        _ => {},
    }
}

/// The project is brought up, and asked for its container.
spec fn asked(t: StartingView, turn: TurnView) -> bool {
    let u = bring_up(t, false);
    &&& turn.steps == u.steps
    &&& turn.cleanup == u.cleanup
    &&& u.prepare.is_suffix_of(turn.prepare)
    &&& u.id matches backend::IdView::Ask(command) && turn.next == NextView::Run(command)
}

proof fn lemma_compose_up(s: StartingView, prepare: Seq<script::StepView>, exists_now: bool)
    requires
        s.spec.backend is Compose,
    ensures
        s.up(prepare, exists_now).0 == (StartingView { phase: PhaseView::UpAnswer, ..s }),
        asked(s.up(prepare, exists_now).0, s.up(prepare, exists_now).1),
{
    let u = bring_up(s, exists_now);
    assert(u == bring_up(s, false));
    assert(u.id is Ask);
    let t = s.up(prepare, exists_now).0;
    assert(bring_up(t, false) == u);
    let all = prepare + u.prepare;
    assert(all.subrange(all.len() - u.prepare.len(), all.len() as int) =~= u.prepare);
}

proof fn lemma_compose_initialize(s: StartingView, prepare: Seq<script::StepView>)
    requires
        s.spec.backend is Compose,
    ensures
        ({
            let (t, turn) = s.begin(prepare);
            &&& t.phase is Planning && t.created() || t.phase is UpAnswer && asked(t, turn)
        }),
        ({
            let (t, turn) = s.initialize();
            ||| t.phase is Initializing
            ||| t.phase is Planning && t.created()
            ||| t.phase is UpAnswer && asked(t, turn)
        }),
{
    lemma_compose_up(s, prepare, false);
    lemma_compose_up(s, seq![], false);
}

/// What the events round the bringing up of a compose project do.
#[verifier::spinoff_prover]
proof fn lemma_compose_event(s: StartingView, event: EventView)
    requires
        in_step(s),
        s.phase !is Ready,
        s.phase !is Failed,
        s.spec.backend is Compose,
        s.next(event).0.phase !is Failed,
    ensures
        ({
            let (t, turn) = s.next(event);
            &&& remaining(s.phase) > 15 ==> {
                &&& remaining(t.phase) >= 15
                &&& remaining(t.phase) == 15 ==> asked(t, turn)
            }
            &&& s.phase is UpAnswer ==> {
                &&& event matches EventView::Ran(out) && backend::found_spec(
                    s.spec.backend.deep_view(),
                    out,
                ) == Ok::<Seq<char>, invocation::FailureView>(t.id)
                &&& turn.steps == recorded(s, t.id)
                &&& remaining(t.phase) <= 14
                &&& s.created() && (s.plan.resolved.len() > 0 || s.plan.work is Some)
                    ==> turn.next == NextView::Install(s.plan)
            }
            &&& t.phase is Planning ==> t.created()
            &&& s.phase is Planning ==> (event matches EventView::Planned(plan) && t.plan == plan
                && t.phase is UpAnswer)
        }),
{
    lemma_next(s, event);
    match event {
        EventView::Ran(out) => {
            if s.phase is UpAnswer {
                if let Ok(id) = backend::found_spec(s.spec.backend.deep_view(), out) {
                    let r = StartingView { id, ..s };
                    lemma_recorded(r, seq![], seq![]);
                    lemma_settle(r, seq![], seq![]);
                    assert(seq![] + recorded(r, id) =~= recorded(s, id));
                }
            }
            if s.phase is Existing {
                if let Ok(x) = backend::existing_spec(s.spec.backend.deep_view(), out) {
                    lemma_compose_initialize(StartingView { existing: x, ..s }, seq![]);
                }
            }
            if s.phase is UpQuery {
                if let Ok(x) = backend::existing_spec(s.spec.backend.deep_view(), out) {
                    lemma_compose_up(s, seq![], x is Some);
                }
            }
        },
        EventView::HashRead(_) => {
            lemma_compose_initialize(s, seq![]);
        },
        EventView::Confirmed(yes) => {
            lemma_compose_initialize(StartingView { recreate: yes, ..s }, seq![]);
        },
        EventView::Initialized(outcome) => {
            lemma_compose_initialize(s, StartingView::told(outcome));
        },
        EventView::Planned(plan) => {
            lemma_compose_up(StartingView { plan, ..s }, seq![], false);
        },
        _ => {},
    }
}

/// From initializeCommand on, it stays the same whether a container is made.
proof fn lemma_choice_stays(s: StartingView, events: Seq<EventView>, n: int)
    requires
        s.phase is Existing,
        after(s, events).phase !is Failed,
        0 <= n <= events.len(),
        remaining(after(s, events.take(n)).phase) <= 18,
    ensures
        after(s, events).existing == after(s, events.take(n)).existing,
        after(s, events).recreate == after(s, events.take(n)).recreate,
    decreases events.len() - n,
{
    if n == events.len() {
        assert(events.take(n) =~= events);
    } else {
        let q = events.drop_last();
        lemma_run(s, events);
        lemma_run(s, q);
        assert(q.take(n) =~= events.take(n));
        lemma_choice_stays(s, q, n);
        lemma_prefix(s, q, n);
        lemma_next(after(s, q), events.last());
        assert(after(s, events) == after(s, q).next(events.last()).0) by {
            reveal(after);
        }
    }
}

/// What an event of a start that is ready in the end comes to.
proof fn lemma_event(s: StartingView, events: Seq<EventView>, i: int)
    requires
        s.phase is Existing,
        after(s, events).phase !is Failed,
        0 <= i < events.len(),
    ensures
        ({
            let p = after(s, events.take(i));
            let t = after(s, events.take(i + 1));
            &&& p.next(events[i]) == (t, turn(s, events, i))
            &&& same_start(s, p)
            &&& same_start(s, t)
            &&& in_step(p)
            &&& p.phase !is Ready
            &&& p.phase !is Failed
            &&& t.phase !is Failed
        }),
{
    let part = events.take(i + 1);
    lemma_prefix(s, events, i + 1);
    lemma_prefix(s, events, i);
    lemma_run(s, part);
    assert(part.drop_last() =~= events.take(i));
    assert(part.last() == events[i]);
    lemma_run(s, events.take(i));
    assert(after(s, part) == after(s, events.take(i)).next(events[i]).0) by {
        reveal(after);
    }
    assert(turn(s, events, i) == after(s, events.take(i)).next(events[i]).1) by {
        reveal(turn);
    }
}

/// Behind the i-th event it was asked whether the plain container exists; behind
/// the answer it was brought up, with what the features fetched by then ask of
/// it, and recorded.
pub open spec fn container_brought_up(s: StartingView, events: Seq<EventView>, i: int) -> bool {
    let t = after(s, events);
    let plan = after(s, events.take(i + 1)).plan;
    &&& 0 <= i
    &&& i + 1 < events.len()
    &&& s.spec.backend.deep_view() matches config::BackendView::Container {
        remote,
        name,
        source,
        run_args,
    } && {
        &&& turn(s, events, i).next == NextView::Run(
            backend::daemon_command(
                remote,
                seq!["ps"@, "-aq"@, "--filter"@, "name=^"@ + name + "$"@],
                s.docker.runtime,
            ),
        )
        &&& events[i + 1] matches EventView::Ran(out) && (backend::existing_spec(
            s.spec.backend.deep_view(),
            out,
        ) matches Ok(found) && turn(s, events, i + 1).steps == backend::container_up_spec(
            remote,
            name,
            source,
            run_args,
            t.force_build || t.recreate,
            found is Some,
            features::flags_of(plan.resolved),
            s.docker.runtime,
        ).steps + recorded(t, name))
        &&& t.id == name
    }
}

/// A plain container that is ready was brought up: it was asked whether it
/// exists, and it was started, made, or, where it is to be rebuilt or recreated,
/// made anew; then the hash that it was made with and its variables were written
/// into it.
#[verifier::spinoff_prover]
pub proof fn plain_container_is_brought_up(s: StartingView, events: Seq<EventView>)
    requires
        s.phase is Existing,
        after(s, events).phase is Ready,
        s.spec.backend is Container,
    ensures
        exists|i: int| container_brought_up(s, events, i),
{
    let x = |t: StartingView, turn: TurnView|
        turn.next == NextView::Run(
            backend::existing_query(s.spec.backend.deep_view(), s.docker.runtime),
        );
    assert forall|p: StartingView, e: EventView|
        same_start(s, p) && in_step(p) && p.phase !is Ready && p.phase !is Failed && remaining(
            p.phase,
        ) > 16 && (#[trigger] p.next(e)).0.phase !is Failed implies {
        &&& remaining(p.next(e).0.phase) >= 16
        &&& remaining(p.next(e).0.phase) == 16 ==> x(p.next(e).0, p.next(e).1)
    } by {
        lemma_container_event(p, e);
    }
    lemma_passed(s, events, 16, x);
    let i = choose|i: int| #[trigger] passed(s, events, 16, x, i);
    let t = after(s, events);
    let p = after(s, events.take(i + 1));
    if i + 1 == events.len() {
        assert(events.take(i + 1) =~= events);
    }
    lemma_event(s, events, i + 1);
    lemma_run(s, events.take(i + 1));
    assert(p.phase is UpQuery) by {
        if let PhaseView::HookMarker(k) = p.phase {
        }
    }
    lemma_container_event(p, events[i + 1]);
    lemma_choice_stays(s, events, i + 1);
    lemma_container_stays(s, events, i + 2);
    lemma_run(s, events);
    assert(container_brought_up(s, events, i));
}

/// Behind the i-th event the compose project was brought up, with what the
/// features fetched by then ask of it, and asked for its container; behind the
/// answer, which tells the container, it was recorded.
pub open spec fn compose_brought_up(s: StartingView, events: Seq<EventView>, i: int) -> bool {
    let t = after(s, events);
    let plan = after(s, events.take(i + 1)).plan;
    &&& 0 <= i
    &&& i + 1 < events.len()
    &&& s.spec.backend.deep_view() matches config::BackendView::Compose {
        remote,
        dir,
        files,
        service,
        project,
    } && {
        let up = backend::compose_up_spec(
            remote,
            dir,
            files,
            service,
            project,
            t.force_build || t.recreate,
            features::flags_of(plan.resolved),
            s.docker.runtime,
        );
        &&& turn(s, events, i).steps == up.steps
        &&& turn(s, events, i).cleanup == up.cleanup
        &&& up.prepare.is_suffix_of(turn(s, events, i).prepare)
        &&& turn(s, events, i).next == NextView::Run(
            backend::files_command_spec(
                remote,
                Some(dir),
                backend::compose_args(project, files) + seq!["ps"@, "-q"@, service],
                s.docker.runtime,
            ),
        )
        &&& events[i + 1] matches EventView::Ran(out) && backend::compose_id(out) == Ok::<
            Seq<char>,
            invocation::FailureView,
        >(t.id)
        &&& turn(s, events, i + 1).steps == recorded(t, t.id)
    }
}

/// A container of a compose project that is ready was brought up with its
/// project, rebuilt and recreated where that is wanted; it is the one that
/// compose told, and the hash that it was made with and its variables were
/// written into it.
#[verifier::spinoff_prover]
pub proof fn compose_container_is_brought_up(s: StartingView, events: Seq<EventView>)
    requires
        s.phase is Existing,
        after(s, events).phase is Ready,
        s.spec.backend is Compose,
    ensures
        exists|i: int| compose_brought_up(s, events, i),
{
    let x = |t: StartingView, turn: TurnView| asked(t, turn);
    assert forall|p: StartingView, e: EventView|
        same_start(s, p) && in_step(p) && p.phase !is Ready && p.phase !is Failed && remaining(
            p.phase,
        ) > 15 && (#[trigger] p.next(e)).0.phase !is Failed implies {
        &&& remaining(p.next(e).0.phase) >= 15
        &&& remaining(p.next(e).0.phase) == 15 ==> x(p.next(e).0, p.next(e).1)
    } by {
        lemma_compose_event(p, e);
    }
    lemma_passed(s, events, 15, x);
    let i = choose|i: int| #[trigger] passed(s, events, 15, x, i);
    let t = after(s, events);
    let p = after(s, events.take(i + 1));
    if i + 1 == events.len() {
        assert(events.take(i + 1) =~= events);
    }
    lemma_event(s, events, i + 1);
    lemma_run(s, events.take(i + 1));
    assert(p.phase is UpAnswer) by {
        if let PhaseView::HookMarker(k) = p.phase {
        }
    }
    lemma_compose_event(p, events[i + 1]);
    lemma_choice_stays(s, events, i + 1);
    lemma_container_stays(s, events, i + 2);
    lemma_run(s, events);
    assert(compose_brought_up(s, events, i));
}

/// Features that were fetched are installed before the container is ready.
#[verifier::spinoff_prover]
pub proof fn fetched_features_are_installed(
    s: StartingView,
    events: Seq<EventView>,
    i: int,
    plan: features::PlanView,
)
    requires
        s.phase is Existing,
        after(s, events).phase is Ready,
        0 <= i < events.len(),
        events[i] == EventView::Planned(plan),
        plan.resolved.len() > 0 || plan.work is Some,
    ensures
        exists|j: int|
            i <= j < events.len() && (#[trigger] turn(s, events, j)).next == NextView::Install(
                plan,
            ),
{
    let p = after(s, events.take(i));
    let t = after(s, events.take(i + 1));
    lemma_event(s, events, i);
    if p.phase is Replanning {
        assert(turn(s, events, i).next == NextView::Install(plan));
    } else {
        assert(p.phase is Planning);
        if i == 0 {
            assert(events.take(0) =~= seq![]);
            assert(p == s) by {
                reveal(after);
            }
        } else {
            lemma_event(s, events, i - 1);
            let o = after(s, events.take(i - 1));
            if o.spec.backend is Container {
                lemma_container_event(o, events[i - 1]);
            } else {
                lemma_compose_event(o, events[i - 1]);
            }
        }
        assert(p.created());
        if p.spec.backend is Container {
            lemma_container_event(p, events[i]);
        } else {
            lemma_compose_event(p, events[i]);
        }
        lemma_next(p, events[i]);
        assert(t.created());
        if i + 1 == events.len() {
            assert(events.take(i + 1) =~= events);
        }
        lemma_event(s, events, i + 1);
        if p.spec.backend is Container {
            lemma_container_event(t, events[i + 1]);
        } else {
            lemma_compose_event(t, events[i + 1]);
        }
        assert(turn(s, events, i + 1).next == NextView::Install(plan));
    }
}

/// All requested features are fetched for a container that is made, before it is
/// brought up.
pub proof fn features_are_fetched_for_a_container_that_is_made(s: StartingView, event: EventView)
    requires
        in_step(s),
        remaining(s.phase) >= 18,
        s.next(event).0.phase !is Failed,
        s.next(event).0.created(),
        s.features.len() > 0,
    ensures
        remaining(s.next(event).0.phase) >= 17,
        s.next(event).0.phase is Planning ==> (s.next(event).1.next matches NextView::Fetch(f)
            && f.features == s.features && Some(f) == features::resolve_spec(
            s.spec.base_dir@,
            s.features,
            s.docker.runtime,
        )),
{
}

/// Of a container that is kept, each requested feature is probed for by its
/// marker, and what is fetched then are those without one.
pub proof fn features_are_probed_for_in_a_container_that_is_kept(
    s: StartingView,
    event: EventView,
    i: int,
)
    requires
        in_step(s),
        s.phase is UpQuery && s.spec.backend is Container || s.phase is UpAnswer,
        s.next(event).0.phase !is Failed,
        !s.created(),
        0 <= i < s.features.len(),
    ensures
        ({
            let (t, turn) = s.next(event);
            &&& t.phase is Probing
            &&& t.features == s.features
            &&& turn.next matches NextView::Probe(probes) && {
                &&& probes.len() == s.features.len()
                &&& probes[i] == s.docker.command_spec(
                    seq![
                        "exec"@,
                        t.id,
                        "test"@,
                        "-e"@,
                        docker::marker_path(features::marker_key_spec(s.features[i].reference@)),
                    ],
                )
            }
        }),
{
    lemma_next(s, event);
    let t = s.next(event).0;
    docker::lemma_done_args(
        s.docker,
        t.id,
        features::marker_key_spec(s.features[i].reference@),
    );
    if s.spec.backend is Container {
        lemma_container_event(s, event);
    } else {
        lemma_compose_event(s, event);
    }
}

/// The directory to work in is the workspace folder if it is there, as a test in
/// the container tells, and otherwise what the user chose.
pub proof fn ready_where_the_workspace_is(s: StartingView, event: EventView, dir: Seq<char>)
    requires
        in_step(s),
        s.next(event).0.phase == PhaseView::Ready(dir),
    ensures
        s.phase is WorkspaceTest && dir == s.spec.workspace_folder@ && (event matches EventView::Ran(
            out,
        ) && out.ended.succeeded()) || s.phase is Choosing && event == EventView::Chosen(dir),
        s.next(event).1.next is Done,
{
    if s.phase !is Ready && s.phase !is Failed {
        lemma_next(s, event);
        match event {
            EventView::Ran(out) => {
                match s.phase {
                    PhaseView::Existing => {
                        if let Ok(x) = backend::existing_spec(s.spec.backend.deep_view(), out) {
                            lemma_initialize(StartingView { existing: x, ..s });
                        }
                    },
                    PhaseView::UpQuery => {
                        if let Ok(x) = backend::existing_spec(s.spec.backend.deep_view(), out) {
                            lemma_up(s, seq![], x is Some);
                        }
                    },
                    PhaseView::UpAnswer => {
                        if let Ok(id) = backend::found_spec(s.spec.backend.deep_view(), out) {
                            lemma_settle(StartingView { id, ..s }, seq![], seq![]);
                        }
                    },
                    PhaseView::HookMarker(k) => {
                        lemma_hooks(s, k + 1, seq![], seq![]);
                    },
                    _ => {},
                }
            },
            EventView::HashRead(_) => {
                lemma_initialize(s);
            },
            EventView::Confirmed(yes) => {
                lemma_initialize(StartingView { recreate: yes, ..s });
            },
            EventView::Initialized(outcome) => {
                lemma_begin(s, StartingView::told(outcome));
            },
            EventView::Planned(plan) => {
                lemma_begin_up(StartingView { plan, ..s }, seq![]);
                lemma_install(s, plan, seq![], seq![]);
            },
            EventView::Probed(_) => {
                lemma_hooks(StartingView { features: seq![], ..s }, 0, seq![], seq![]);
            },
            EventView::Installed => {
                lemma_hooks(s, 0, seq![], seq![]);
            },
            EventView::HookDone(ok) => {
                if let PhaseView::HookRun(k) = s.phase {
                    let mark = seq![script::StepView::Run(s.docker.mark_spec(s.id, hook_key(k)))];
                    lemma_hooks(s, k + 1, seq![], mark);
                    lemma_hooks(s, k + 1, seq![], seq![]);
                }
            },
            EventView::Chosen(_) => {},
        }
    }
}

/// What is asked of the container to find the directory to work in: first
/// whether the workspace folder is there; where it is not, what is mounted, and
/// then what stands under the usual places. The user chooses among both.
pub proof fn directory_is_looked_for_in_the_container(
    s: StartingView,
    prepare: Seq<script::StepView>,
    steps: Seq<script::StepView>,
    out: Output,
    dir: Seq<char>,
)
    ensures
        s.workspace(prepare, steps).1.next == NextView::Run(
            s.docker.command_spec(
                seq!["exec"@, s.id, "test"@, "-e"@, s.spec.workspace_folder@],
            ),
        ),
        s.phase is WorkspaceTest && !out.ended.succeeded() ==> s.next(EventView::Ran(out)).1.next
            == NextView::Run(
            s.docker.command_spec(
                seq![
                    "inspect"@,
                    "--format"@,
                    "{{range .Mounts}}{{.Destination}}\n{{end}}"@,
                    s.id,
                ],
            ),
        ),
        s.phase is Mounts ==> s.next(EventView::Ran(out)).1.next == NextView::Run(
            s.docker.command_spec(
                seq![
                    "exec"@,
                    s.id,
                    "sh"@,
                    "-c"@,
                    "find /workspaces /workspace -maxdepth 1 -mindepth 1 -type d 2>/dev/null"@,
                ],
            ),
        ),
        s.phase matches PhaseView::Listing(mounts) ==> (s.next(EventView::Ran(out)).1.next
            matches NextView::Choose { configured, candidates } && configured
            == s.spec.workspace_folder@ && (candidates.contains(dir) <==> docker::mounts_spec(
            mounts,
        ).contains(dir) || workdir::listed_spec(out).contains(dir))),
{
    assert(docker::exec_args_spec(
        s.id,
        seq!["test"@, "-e"@, s.spec.workspace_folder@],
        false,
    ) =~= seq!["exec"@, s.id, "test"@, "-e"@, s.spec.workspace_folder@]);
    let find = "find /workspaces /workspace -maxdepth 1 -mindepth 1 -type d 2>/dev/null"@;
    assert(docker::exec_args_spec(s.id, seq!["sh"@, "-c"@, find], false) =~= seq![
        "exec"@,
        s.id,
        "sh"@,
        "-c"@,
        find,
    ]);
    if let PhaseView::Listing(mounts) = s.phase {
        let a = docker::mounts_spec(mounts);
        let b = workdir::listed_spec(out);
        workdir::candidates_are_sorted_and_complete(a + b, dir);
        if a.contains(dir) {
            let i = choose|i: int| 0 <= i < a.len() && a[i] == dir;
            assert((a + b)[i] == dir);
        }
        if b.contains(dir) {
            let i = choose|i: int| 0 <= i < b.len() && b[i] == dir;
            assert((a + b)[a.len() + i] == dir);
        }
    }
}

/// The hash is read from the very file that it is written to when the container
/// is made.
pub proof fn hash_is_read_where_it_is_written(s: StartingView, out: Output, id: Seq<char>)
    requires
        s.phase is Existing,
        !s.force_build,
        backend::existing_spec(s.spec.backend.deep_view(), out) == Ok::<
            Option<Seq<char>>,
            invocation::FailureView,
        >(Some(id)),
    ensures
        s.next(EventView::Ran(out)).1.next matches NextView::ReadHash { fetch, temp } && fetch
            == s.docker.cp_out_spec(id, "/opt/graft/devcontainer.hash"@, temp),
{
}

/// Stopping a container keeps it: the one that exists is stopped, and nothing
/// else is run.
pub proof fn stopping_keeps_the_container(
    spec: config::SpecView,
    remote: Option<Seq<char>>,
    out: Output,
    rt: Runtime,
    i: int,
)
    ensures
        stop_spec(spec, remote, out, rt) matches Ok(steps) ==> {
            &&& 0 <= i < steps.len() && steps[i] !is Say ==> (steps[i] matches script::StepView::Run(
                job,
            ) && backend::existing_spec(spec.backend, out) matches Ok(Some(id)) && job.command
                == backend::daemon_command(remote, seq!["stop"@, id], rt))
            &&& backend::existing_spec(spec.backend, out) matches Ok(Some(_)) ==> exists|j: int|
                0 <= j < steps.len() && (#[trigger] steps[j]) is Run
        },
{
    if let Ok(Some(id)) = backend::existing_spec(spec.backend, out) {
        assert(stop_spec(spec, remote, out, rt)->Ok_0[1] is Run);
    }
}

/// Once the container is ready, what was started is that container, with the
/// directory that was settled on, and everything that the configuration has for
/// later: the ports to forward, the session's name, and the hook that runs before
/// the session.
pub proof fn finished_start_hands_everything_on(s: Starting, r: Option<Started>)
    requires
        call_ensures(Starting::finish, (s,), r),
    ensures
        r is Some <==> s.phase is Ready,
        r matches Some(t) ==> {
            &&& t.container@ == s.id@
            &&& PhaseView::Ready(t.workdir@) == s.phase.deep_view()
            &&& t.session_name@ == s.spec.session_name@
            &&& t.forward_ports.deep_view() == s.spec.forward_ports.deep_view()
            &&& t.env.deep_view() == vars::exec_env_spec(s.spec.env.deep_view())
            &&& t.post_attach == s.spec.lifecycle.post_attach
        },
{
}

/// postAttachCommand is run in the container that was started, in the directory
/// that was settled on; without one, nothing is.
pub proof fn post_attach_command_runs_in_the_container(
    s: Started,
    remote: Option<String>,
    rt: Runtime,
    r: Option<Hook>,
)
    requires
        call_ensures(Started::run_post_attach, (&s, &remote, &rt), r),
    ensures
        match s.post_attach {
            None => r is None,
            Some(cmd) => r matches Some(hook) && hook.deep_view() == (hooks::HookPlace {
                docker: Docker { remote, runtime: rt },
                container: s.container@,
                workdir: s.workdir@,
                env: s.env.deep_view(),
            }).hook("postAttachCommand"@, cmd),
        },
{
}

/// Of a container that is kept, the features whose marker was not found are
/// fetched, and only they; where all were found, the hooks are gone on with.
pub proof fn missing_features_are_fetched(s: StartingView, probes: Seq<Ended>)
    requires
        s.phase is Probing,
    ensures
        ({
            let missing = features::missing_spec(s.features, probes);
            let (t, turn) = s.next(EventView::Probed(probes));
            &&& missing.len() > 0 ==> {
                &&& t.phase is Replanning
                &&& turn.next matches NextView::Fetch(f) && f.features == missing && Some(f)
                    == features::resolve_spec(s.spec.base_dir@, missing, s.docker.runtime)
            }
            &&& missing.len() == 0 ==> turn.next !is Fetch && turn.next !is Install
                && t.phase !is Failed
        }),
{
    lemma_hooks(StartingView { features: seq![], ..s }, 0, seq![], seq![]);
    lemma_hooks_next(StartingView { features: seq![], ..s }, 0, seq![], seq![]);
}

proof fn lemma_hooks_next(
    s: StartingView,
    k: int,
    prepare: Seq<script::StepView>,
    steps: Seq<script::StepView>,
)
    requires
        0 <= k <= 3,
    ensures
        s.hooks(k, prepare, steps).1.next is Run || s.hooks(k, prepare, steps).1.next is Hook,
    decreases 3 - k,
{
    if k < 3 && hook_cmd(s.spec, k) is None {
        lemma_hooks_next(s, k + 1, prepare, steps);
    }
}

/// Where it cannot be told whether the container exists, or which one was brought
/// up, the start ends with that failure.
pub proof fn unanswered_questions_end_the_start(
    s: StartingView,
    out: Output,
    f: invocation::FailureView,
)
    requires
        (s.phase is Existing || s.phase is UpQuery) && backend::existing_spec(
            s.spec.backend.deep_view(),
            out,
        ) == Err::<Option<Seq<char>>, invocation::FailureView>(f) || s.phase is UpAnswer
            && backend::found_spec(s.spec.backend.deep_view(), out) == Err::<
            Seq<char>,
            invocation::FailureView,
        >(f),
    ensures
        s.next(EventView::Ran(out)).0.phase is Failed,
        s.next(EventView::Ran(out)).1.next == NextView::Fail(f),
        s.next(EventView::Ran(out)).1.steps.len() == 0,
{
}

} // verus!
