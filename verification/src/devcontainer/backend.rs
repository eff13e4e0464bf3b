//! How a devcontainer's container is found and brought up.
use vstd::prelude::*;

use crate::devcontainer::config;
use crate::devcontainer::config::{Backend, ComposeBackend, ContainerBackend, ImageSource};
use crate::devcontainer::lookup;
use crate::devcontainer::lookup::ssh_output;
use crate::docker;
use crate::docker::{command_line, script_args, shell_quote};
use crate::features;
use crate::features::CreateFlags;
use crate::invocation;
use crate::invocation::{
    args3, args4, copy_list, push, push_list, Ended, Failure, Invocation, Job, Output,
};
use crate::num;
use crate::num::decimal;
use crate::path;
use crate::runtime::Runtime;
use crate::script;
use crate::script::{no_steps, one_step, then_step, Step};
use crate::shell;
use crate::ssh;
use crate::table;
use crate::text;
use crate::text::{cat, cat3, cat5};

verus! {

// ── commands that read files ──────────────────────────────────────────────────

/// Runs docker where the project's files are, which compose files and build
/// contexts are read from: in a directory here, or on the remote.
pub open spec fn files_command_spec(
    remote: Option<Seq<char>>,
    dir: Option<Seq<char>>,
    args: Seq<Seq<char>>,
    rt: Runtime,
) -> invocation::InvocationView {
    match remote {
        None => invocation::InvocationView::plain("docker"@, args).within(dir),
        Some(host) => ssh::script_spec(
            host,
            (match dir {
                Some(d) => "cd "@ + docker::shell_quote_spec(d) + " && "@,
                None => seq![],
            }) + docker::remote_script_spec(args),
            rt,
        ),
    }
}

/// Builds a command for docker operations that read *files* from disk — a
/// compose project or a build context.
pub fn docker_files_command(
    remote: &Option<String>,
    dir: Option<&str>,
    args: Vec<String>,
    rt: &Runtime,
) -> (r: Invocation)
    ensures
        r.deep_view() == files_command_spec(
            remote.deep_view(),
            dir.deep_view(),
            args.deep_view(),
            *rt,
        ),
{
    match remote {
        None => {
            let mut command = Invocation::new("docker", args);
            command.dir = match dir {
                Some(d) => Some(d.to_string()),
                None => None,
            };
            command
        },
        Some(host) => {
            let mut script = match dir {
                Some(d) => cat3("cd ", shell_quote(d).as_str(), " && "),
                None => String::new(),
            };
            let mut line = "docker".to_string();
            script_args(&mut line, &args);
            script.append(line.as_str());
            ssh::script_command(host.as_str(), script.as_str(), rt)
        },
    }
}

/// `-f` and each compose file.
pub open spec fn file_args(files: Seq<Seq<char>>) -> Seq<Seq<char>>
    decreases files.len(),
{
    if files.len() == 0 {
        seq![]
    } else {
        file_args(files.drop_last()) + seq!["-f"@, files.last()]
    }
}

/// The start of every compose command.
pub open spec fn compose_args(project: Seq<char>, files: Seq<Seq<char>>) -> Seq<Seq<char>> {
    seq!["compose"@, "-p"@, project] + file_args(files)
}

fn compose_head(project: &str, files: &Vec<String>) -> (r: Vec<String>)
    ensures
        r.deep_view() == compose_args(project@, files.deep_view()),
{
    let mut args = args3("compose", "-p", project);
    let ghost head = args.deep_view();
    let ghost all = files.deep_view();
    assert(head + file_args(all.take(0)) =~= head);
    for i in 0..files.len()
        invariant
            all == files.deep_view(),
            args.deep_view() == head + file_args(all.take(i as int)),
    {
        assert(all.take(i + 1).drop_last() =~= all.take(i as int));
        push(&mut args, "-f");
        push(&mut args, files[i].as_str());
        assert(args.deep_view() =~= head + file_args(all.take(i + 1)));
    }
    assert(all.take(all.len() as int) =~= all);
    args
}

/// Asks for the container of a service; with `all`, stopped ones too.
pub open spec fn compose_ps_spec(
    remote: Option<Seq<char>>,
    dir: Seq<char>,
    project: Seq<char>,
    files: Seq<Seq<char>>,
    service: Seq<char>,
    all: bool,
    rt: Runtime,
) -> invocation::InvocationView {
    files_command_spec(
        remote,
        Some(dir),
        compose_args(project, files) + (if all {
            seq!["ps"@, "-a"@, "-q"@, service]
        } else {
            seq!["ps"@, "-q"@, service]
        }),
        rt,
    )
}

/// The first line of a text, without white space at either end.
pub open spec fn first_line(s: Seq<char>) -> Seq<char> {
    let lines = text::lines_spec(s);
    if lines.len() > 0 {
        text::trim_spec(lines[0])
    } else {
        seq![]
    }
}

/// What the answer about the container of a service amounts to: its id, or
/// nothing where there is none.
pub open spec fn compose_id(out: Output) -> Result<Seq<char>, invocation::FailureView> {
    match out.ended {
        Ended::NotStarted(cause) => Err(
            invocation::FailureView::Spawn { context: "docker compose ps"@, cause: cause@ },
        ),
        Ended::Exited(code) => if code != Some(0i32) {
            Err(
                invocation::FailureView::Message(
                    "docker compose ps failed: "@ + text::trim_spec(
                        text::utf8_lossy(out.stderr@),
                    ),
                ),
            )
        } else if vstd::utf8::valid_utf8(out.stdout@) {
            Ok(first_line(vstd::utf8::decode_utf8(out.stdout@)))
        } else {
            Err(invocation::FailureView::NotUtf8)
        },
    }
}

fn id_from_compose(out: &Output) -> (r: Result<String, Failure>)
    ensures
        invocation::result_view(r) == compose_id(*out),
{
    if let Ended::NotStarted(cause) = &out.ended {
        return Err(
            Failure::Spawn { context: "docker compose ps".to_string(), cause: cause.clone() },
        );
    }
    if !out.ended.success() {
        let stderr = text::lossy(&out.stderr);
        return Err(
            Failure::Message(
                cat("docker compose ps failed: ", text::trim(stderr.as_str())),
            ),
        );
    }
    match text::utf8(&out.stdout) {
        Some(s) => {
            let lines = text::lines(s.as_str());
            assert(lines.deep_view().len() == lines@.len());
            if lines.len() > 0 {
                let line: &str = lines[0];
                assert(lines.deep_view()[0] == line@);
                Ok(text::trim(line).to_string())
            } else {
                Ok(String::new())
            }
        },
        None => Err(Failure::NotUtf8),
    }
}

// ── finding ───────────────────────────────────────────────────────────────────

/// Runs docker against the daemon of a backend.
pub open spec fn daemon_command(remote: Option<Seq<char>>, args: Seq<Seq<char>>, rt: Runtime)
    -> invocation::InvocationView {
    match remote {
        None => invocation::InvocationView::plain("docker"@, args),
        Some(host) => ssh::script_spec(host, docker::remote_script_spec(args), rt).closed(),
    }
}

fn daemon(remote: &Option<String>, args: Vec<String>, rt: &Runtime) -> (r: Invocation)
    ensures
        r.deep_view() == daemon_command(remote.deep_view(), args.deep_view(), *rt),
{
    command_line(remote, args, rt)
}

/// Asks for an existing container, running or stopped.
pub open spec fn existing_query(b: config::BackendView, rt: Runtime) -> invocation::InvocationView {
    match b {
        config::BackendView::Compose { remote, dir, files, service, project } => compose_ps_spec(
            remote,
            dir,
            project,
            files,
            service,
            true,
            rt,
        ),
        config::BackendView::Container { remote, name, .. } => daemon_command(
            remote,
            seq!["ps"@, "-aq"@, "--filter"@, "name=^"@ + name + "$"@],
            rt,
        ),
    }
}

/// A text, if it is not empty.
pub open spec fn nonempty(s: Seq<char>) -> Option<Seq<char>> {
    if s.len() == 0 {
        None
    } else {
        Some(s)
    }
}

/// The existing container that the answer tells, if there is one.
pub open spec fn existing_spec(b: config::BackendView, out: Output) -> Result<
    Option<Seq<char>>,
    invocation::FailureView,
> {
    match b {
        config::BackendView::Compose { .. } => match compose_id(out) {
            Ok(id) => Ok(nonempty(id)),
            Err(f) => Err(f),
        },
        config::BackendView::Container { .. } => match out.ended {
            Ended::NotStarted(cause) => Err(
                invocation::FailureView::Spawn { context: "spawning docker"@, cause: cause@ },
            ),
            Ended::Exited(_) => Ok(
                text::first_spec(text::full_lines_spec(text::utf8_lossy(out.stdout@))),
            ),
        },
    }
}

fn compose_ps(b: &ComposeBackend, all: bool, rt: &Runtime) -> (r: Invocation)
    ensures
        r.deep_view() == compose_ps_spec(
            b.remote.deep_view(),
            b.dir@,
            b.project@,
            b.files.deep_view(),
            b.service@,
            all,
            *rt,
        ),
{
    let mut args = compose_head(b.project.as_str(), &b.files);
    let ghost head = args.deep_view();
    push(&mut args, "ps");
    if all {
        push(&mut args, "-a");
    }
    push(&mut args, "-q");
    push(&mut args, b.service.as_str());
    assert(args.deep_view() =~= head + (if all {
        seq!["ps"@, "-a"@, "-q"@, b.service@]
    } else {
        seq!["ps"@, "-q"@, b.service@]
    }));
    docker_files_command(&b.remote, Some(b.dir.as_str()), args, rt)
}

// ── bringing up ───────────────────────────────────────────────────────────────

/// How the id of a container that was brought up is known.
#[derive(Debug, PartialEq, Eq)]
pub enum Id {
    Known(String),
    /// By the answer to a command.
    Ask(Invocation),
}

/// What an [`Id`] says.
pub enum IdView {
    Known(Seq<char>),
    Ask(invocation::InvocationView),
}

impl DeepView for Id {
    type V = IdView;

    open spec fn deep_view(&self) -> IdView {
        match self {
            Id::Known(id) => IdView::Known(id@),
            Id::Ask(command) => IdView::Ask(command.deep_view()),
        }
    }
}

/// How a container is brought up: `prepare`, then `steps`, and behind the steps,
/// whatever became of them, `cleanup`.
#[derive(Debug, PartialEq, Eq)]
pub struct Up {
    pub prepare: Vec<Step>,
    pub steps: Vec<Step>,
    pub cleanup: Option<Invocation>,
    pub id: Id,
}

/// What an [`Up`] says.
pub struct UpView {
    pub prepare: Seq<script::StepView>,
    pub steps: Seq<script::StepView>,
    pub cleanup: Option<invocation::InvocationView>,
    pub id: IdView,
}

impl DeepView for Up {
    type V = UpView;

    open spec fn deep_view(&self) -> UpView {
        UpView {
            prepare: self.prepare.deep_view(),
            steps: self.steps.deep_view(),
            cleanup: self.cleanup.deep_view(),
            id: self.id.deep_view(),
        }
    }
}

/// The name of the file that adds the settings of features to a compose project.
pub open spec fn override_name(rt: Runtime) -> Seq<char> {
    "graft-compose-override-"@ + num::dec(rt.pid as nat) + ".yml"@
}

/// Where that file stands: it is read where compose runs.
pub open spec fn override_path(remote: Option<Seq<char>>, rt: Runtime) -> Seq<char> {
    match remote {
        None => path::join_spec(rt.temp_dir@, override_name(rt)),
        Some(_) => "/tmp/"@ + override_name(rt),
    }
}

/// Writes a file on the remote.
pub open spec fn ssh_write_spec(
    host: Seq<char>,
    file: Seq<char>,
    contents: Seq<char>,
    context: Seq<char>,
    rt: Runtime,
) -> script::StepView {
    script::StepView::Feed {
        context,
        job: invocation::JobView {
            command: ssh::script_spec(host, "cat > "@ + docker::shell_quote_spec(file), rt),
            context: "spawning ssh"@,
            failure: invocation::FailureView::Message(
                "writing "@ + file + " on "@ + host + " failed"@,
            ),
        },
        input: contents,
    }
}

/// Brings a compose project up. To recreate means to rebuild and force a fresh
/// container; otherwise the existing one is kept.
pub open spec fn compose_up_job(
    remote: Option<Seq<char>>,
    dir: Seq<char>,
    project: Seq<char>,
    files: Seq<Seq<char>>,
    recreate: bool,
    rt: Runtime,
) -> script::StepView {
    script::StepView::Run(
        invocation::JobView {
            command: files_command_spec(
                remote,
                Some(dir),
                compose_args(project, files) + (if recreate {
                    seq!["up"@, "-d"@, "--build"@, "--force-recreate"@]
                } else {
                    seq!["up"@, "-d"@, "--no-recreate"@]
                }),
                rt,
            ),
            context: "running docker compose up"@,
            failure: invocation::FailureView::Message("docker compose up failed"@),
        },
    )
}

/// How a compose project is brought up. The settings of features go into a
/// temporary file behind the project's own, which layers over them without
/// changing the project's identity.
pub open spec fn compose_up_spec(
    remote: Option<Seq<char>>,
    dir: Seq<char>,
    files: Seq<Seq<char>>,
    service: Seq<char>,
    project: Seq<char>,
    recreate: bool,
    flags: features::CreateFlagsView,
    rt: Runtime,
) -> UpView {
    let id = IdView::Ask(compose_ps_spec(remote, dir, project, files, service, false, rt));
    let extra = override_path(remote, rt);
    let contents = flags.compose_override(service);
    if flags == features::CreateFlagsView::none() {
        UpView {
            prepare: seq![],
            steps: seq![compose_up_job(remote, dir, project, files, recreate, rt)],
            cleanup: None,
            id,
        }
    } else {
        let up = compose_up_job(remote, dir, project, files.push(extra), recreate, rt);
        match remote {
            None => UpView {
                prepare: seq![],
                steps: seq![
                    script::StepView::WriteTemp {
                        temp: extra,
                        contents,
                        context: "writing compose override"@,
                    },
                    up,
                ],
                cleanup: None,
                id,
            },
            Some(host) => UpView {
                prepare: seq![
                    ssh_write_spec(host, extra, contents, "writing compose override"@, rt),
                ],
                steps: seq![up],
                cleanup: Some(
                    lookup::ssh_output_spec(
                        host,
                        "rm -f "@ + docker::shell_quote_spec(extra),
                        rt,
                    ),
                ),
                id,
            },
        }
    }
}

/// `--build-arg` and each build argument.
pub open spec fn build_args(args: Seq<table::Entry>) -> Seq<Seq<char>>
    decreases args.len(),
{
    if args.len() == 0 {
        seq![]
    } else {
        build_args(args.drop_last()) + seq![
            "--build-arg"@,
            args.last().0 + "="@ + args.last().1,
        ]
    }
}

/// How an image is had: nothing is to be done for one that is named, and one
/// that is not is built where its files are.
pub open spec fn image_steps(
    remote: Option<Seq<char>>,
    source: config::ImageSourceView,
    rt: Runtime,
) -> Seq<script::StepView> {
    match source {
        config::ImageSourceView::Image(_) => seq![],
        config::ImageSourceView::Build { context, dockerfile, target, args, tag } => seq![
            script::StepView::Say("[graft] building image "@ + tag),
            script::StepView::Run(
                invocation::JobView {
                    command: files_command_spec(
                        remote,
                        None,
                        seq!["build"@, "-t"@, tag] + (match dockerfile {
                            Some(df) => seq!["-f"@, path::join_spec(context, df)],
                            None => seq![],
                        }) + docker::option_args("--target"@, target) + build_args(args) + seq![
                            context,
                        ],
                        rt,
                    ),
                    context: "docker build"@,
                    failure: invocation::FailureView::Message("docker build failed"@),
                },
            ),
        ],
    }
}

/// The name of the image.
pub open spec fn image_name(source: config::ImageSourceView) -> Seq<char> {
    match source {
        config::ImageSourceView::Image(img) => img,
        config::ImageSourceView::Build { tag, .. } => tag,
    }
}

/// A docker command that has to succeed.
pub open spec fn docker_run_job(remote: Option<Seq<char>>, args: Seq<Seq<char>>, rt: Runtime)
    -> invocation::JobView {
    invocation::JobView {
        command: daemon_command(remote, args, rt),
        context: "spawning docker"@,
        failure: invocation::FailureView::Message(
            "docker "@ + (if args.len() > 0 {
                args[0]
            } else {
                seq![]
            }) + " failed"@,
        ),
    }
}

/// How a plain container is brought up: an existing one is started, unless it is
/// to be recreated; otherwise one is made.
pub open spec fn container_up_spec(
    remote: Option<Seq<char>>,
    name: Seq<char>,
    source: config::ImageSourceView,
    run_args: Seq<Seq<char>>,
    recreate: bool,
    exists_now: bool,
    flags: features::CreateFlagsView,
    rt: Runtime,
) -> UpView {
    let id = IdView::Known(name);
    if exists_now && !recreate {
        UpView {
            prepare: seq![],
            steps: seq![
                script::StepView::Say("[graft] starting "@ + name),
                script::StepView::Try(daemon_command(remote, seq!["start"@, name], rt)),
            ],
            cleanup: None,
            id,
        }
    } else {
        UpView {
            prepare: seq![],
            steps: (if exists_now {
                seq![script::StepView::Try(daemon_command(remote, seq!["rm"@, "-f"@, name], rt))]
            } else {
                seq![]
            }) + image_steps(remote, source, rt) + seq![
                script::StepView::Say("[graft] creating container "@ + name),
                script::StepView::RunWithin {
                    context: "docker run"@,
                    job: docker_run_job(
                        remote,
                        seq!["run"@, "-d"@, "--name"@, name] + run_args + flags.run_args() + seq![
                            image_name(source),
                            "sleep"@,
                            "infinity"@,
                        ],
                        rt,
                    ),
                },
            ],
            cleanup: None,
            id,
        }
    }
}

/// How a container is brought up. For a plain container it counts whether it
/// exists.
pub open spec fn up_spec(
    b: config::BackendView,
    recreate: bool,
    flags: features::CreateFlagsView,
    exists_now: bool,
    rt: Runtime,
) -> UpView {
    match b {
        config::BackendView::Compose { remote, dir, files, service, project } => compose_up_spec(
            remote,
            dir,
            files,
            service,
            project,
            recreate,
            flags,
            rt,
        ),
        config::BackendView::Container { remote, name, source, run_args } => container_up_spec(
            remote,
            name,
            source,
            run_args,
            recreate,
            exists_now,
            flags,
            rt,
        ),
    }
}

/// What the answer about the container that was brought up amounts to.
pub open spec fn found_spec(b: config::BackendView, out: Output) -> Result<
    Seq<char>,
    invocation::FailureView,
> {
    match compose_id(out) {
        Ok(id) => if id.len() == 0 {
            Err(
                invocation::FailureView::Message(
                    "could not find running container for service '"@ + (match b {
                        config::BackendView::Compose { service, .. } => service,
                        config::BackendView::Container { name, .. } => name,
                    }) + "'"@,
                ),
            )
        } else {
            Ok(id)
        },
        Err(f) => Err(f),
    }
}

fn ssh_write_file(host: &str, file: &str, contents: String, context: &str, rt: &Runtime) -> (r:
    Step)
    ensures
        r.deep_view() == ssh_write_spec(host@, file@, contents@, context@, *rt),
{
    let script = cat("cat > ", shell_quote(file).as_str());
    Step::Feed {
        context: context.to_string(),
        job: Job {
            command: ssh::script_command(host, script.as_str(), rt),
            context: "spawning ssh".to_string(),
            failure: Failure::Message(cat5("writing ", file, " on ", host, " failed")),
        },
        input: contents,
    }
}

impl ComposeBackend {
    fn compose_up(&self, files: &Vec<String>, recreate: bool, rt: &Runtime) -> (r: Step)
        ensures
            r.deep_view() == compose_up_job(
                self.remote.deep_view(),
                self.dir@,
                self.project@,
                files.deep_view(),
                recreate,
                *rt,
            ),
    {
        let mut args = compose_head(self.project.as_str(), files);
        let ghost head = args.deep_view();
        push(&mut args, "up");
        push(&mut args, "-d");
        if recreate {
            push(&mut args, "--build");
            push(&mut args, "--force-recreate");
        } else {
            push(&mut args, "--no-recreate");
        }
        assert(args.deep_view() =~= head + (if recreate {
            seq!["up"@, "-d"@, "--build"@, "--force-recreate"@]
        } else {
            seq!["up"@, "-d"@, "--no-recreate"@]
        }));
        Step::Run(
            Job {
                command: docker_files_command(&self.remote, Some(self.dir.as_str()), args, rt),
                context: "running docker compose up".to_string(),
                failure: Failure::Message("docker compose up failed".to_string()),
            },
        )
    }

    /// Brings the project up.
    pub fn up(&self, recreate: bool, flags: &CreateFlags, rt: &Runtime) -> (r: Up)
        ensures
            r.deep_view() == compose_up_spec(
                self.remote.deep_view(),
                self.dir@,
                self.files.deep_view(),
                self.service@,
                self.project@,
                recreate,
                flags.deep_view(),
                *rt,
            ),
    {
        let id = Id::Ask(compose_ps(self, false, rt));
        if flags.is_empty() {
            return Up {
                prepare: no_steps(),
                steps: one_step(self.compose_up(&self.files, recreate, rt)),
                cleanup: None,
                id,
            };
        }
        let name = cat3("graft-compose-override-", decimal(rt.pid as u64).as_str(), ".yml");
        let contents = flags.compose_override(self.service.as_str());
        let extra = match &self.remote {
            None => path::join(rt.temp_dir.as_str(), name.as_str()),
            Some(_) => cat("/tmp/", name.as_str()),
        };
        let mut files = copy_list(&self.files);
        push(&mut files, extra.as_str());
        let up = self.compose_up(&files, recreate, rt);
        match &self.remote {
            None => {
                let mut steps = one_step(
                    Step::WriteTemp {
                        temp: extra,
                        contents,
                        context: "writing compose override".to_string(),
                    },
                );
                then_step(&mut steps, up);
                assert(steps.deep_view() =~= compose_up_spec(
                    self.remote.deep_view(),
                    self.dir@,
                    self.files.deep_view(),
                    self.service@,
                    self.project@,
                    recreate,
                    flags.deep_view(),
                    *rt,
                ).steps);
                Up { prepare: no_steps(), steps, cleanup: None, id }
            },
            Some(host) => {
                let script = cat("rm -f ", shell_quote(extra.as_str()).as_str());
                let cleanup = ssh_output(host.as_str(), script.as_str(), rt);
                let write = ssh_write_file(
                    host.as_str(),
                    extra.as_str(),
                    contents,
                    "writing compose override",
                    rt,
                );
                Up {
                    prepare: one_step(write),
                    steps: one_step(up),
                    cleanup: Some(cleanup),
                    id,
                }
            },
        }
    }
}

/// A docker command that has to succeed.
pub fn docker_run(remote: &Option<String>, args: Vec<String>, rt: &Runtime) -> (r: Job)
    ensures
        r.deep_view() == docker_run_job(remote.deep_view(), args.deep_view(), *rt),
{
    let verb = if args.len() > 0 {
        args[0].clone()
    } else {
        String::new()
    };
    assert(args.deep_view().len() == args@.len());
    assert(args@.len() > 0 ==> args.deep_view()[0] == args@[0]@);
    Job {
        command: daemon(remote, args, rt),
        context: "spawning docker".to_string(),
        failure: Failure::Message(cat3("docker ", verb.as_str(), " failed")),
    }
}

impl ContainerBackend {
    fn resolve_image(&self, steps: &mut Vec<Step>, rt: &Runtime) -> (r: String)
        ensures
            final(steps).deep_view() == old(steps).deep_view() + image_steps(
                self.remote.deep_view(),
                self.source.deep_view(),
                *rt,
            ),
            r@ == image_name(self.source.deep_view()),
    {
        let ghost start = steps.deep_view();
        match &self.source {
            ImageSource::Image(img) => {
                assert(start + seq![] =~= start);
                img.clone()
            },
            ImageSource::Build { context, dockerfile, target, args, tag } => {
                then_step(steps, Step::Say(cat("[graft] building image ", tag.as_str())));
                let mut a = args3("build", "-t", tag.as_str());
                if let Some(df) = dockerfile {
                    push(&mut a, "-f");
                    push(&mut a, path::join(context.as_str(), df.as_str()).as_str());
                }
                if let Some(t) = target {
                    push(&mut a, "--target");
                    push(&mut a, t.as_str());
                }
                let ghost head = a.deep_view();
                let ghost all = args.deep_view();
                assert(head =~= seq!["build"@, "-t"@, tag@] + (match dockerfile.deep_view() {
                    Some(df) => seq!["-f"@, path::join_spec(context@, df)],
                    None => seq![],
                }) + docker::option_args("--target"@, target.deep_view()));
                assert(head + build_args(all.take(0)) =~= head);
                for i in 0..args.len()
                    invariant
                        all == args.deep_view(),
                        a.deep_view() == head + build_args(all.take(i as int)),
                {
                    assert(all.take(i + 1).drop_last() =~= all.take(i as int));
                    push(&mut a, "--build-arg");
                    push(&mut a, cat3(args[i].0.as_str(), "=", args[i].1.as_str()).as_str());
                    assert(a.deep_view() =~= head + build_args(all.take(i + 1)));
                }
                assert(all.take(all.len() as int) =~= all);
                let ghost so_far = a.deep_view();
                push(&mut a, context.as_str());
                assert(a.deep_view() =~= so_far + seq![context@]);
                then_step(
                    steps,
                    Step::Run(
                        Job {
                            command: docker_files_command(&self.remote, None, a, rt),
                            context: "docker build".to_string(),
                            failure: Failure::Message("docker build failed".to_string()),
                        },
                    ),
                );
                assert(steps.deep_view() =~= start + image_steps(
                    self.remote.deep_view(),
                    self.source.deep_view(),
                    *rt,
                ));
                tag.clone()
            },
        }
    }

    /// Brings the container up.
    pub fn up(&self, recreate: bool, exists_now: bool, flags: &CreateFlags, rt: &Runtime) -> (r: Up)
        ensures
            r.deep_view() == container_up_spec(
                self.remote.deep_view(),
                self.name@,
                self.source.deep_view(),
                self.run_args.deep_view(),
                recreate,
                exists_now,
                flags.deep_view(),
                *rt,
            ),
    {
        let ghost whole = container_up_spec(
            self.remote.deep_view(),
            self.name@,
            self.source.deep_view(),
            self.run_args.deep_view(),
            recreate,
            exists_now,
            flags.deep_view(),
            *rt,
        );
        let name = self.name.as_str();
        let mut steps = no_steps();
        if exists_now && !recreate {
            then_step(&mut steps, Step::Say(cat("[graft] starting ", name)));
            let start = daemon(&self.remote, invocation::args2("start", name), rt);
            then_step(&mut steps, Step::Try(start));
            assert(steps.deep_view() =~= whole.steps);
            return Up {
                prepare: no_steps(),
                steps,
                cleanup: None,
                id: Id::Known(self.name.clone()),
            };
        }
        if exists_now {
            let remove = daemon(&self.remote, args3("rm", "-f", name), rt);
            then_step(&mut steps, Step::Try(remove));
        }
        let ghost head = steps.deep_view();
        let image = self.resolve_image(&mut steps, rt);
        then_step(&mut steps, Step::Say(cat("[graft] creating container ", name)));
        let mut args = args4("run", "-d", "--name", name);
        push_list(&mut args, &self.run_args);
        push_list(&mut args, &flags.run_args());
        let ghost front = args.deep_view();
        push(&mut args, image.as_str());
        push(&mut args, "sleep");
        push(&mut args, "infinity");
        assert(args.deep_view() =~= front + seq![image@, "sleep"@, "infinity"@]);
        then_step(
            &mut steps,
            Step::RunWithin {
                context: "docker run".to_string(),
                job: docker_run(&self.remote, args, rt),
            },
        );
        assert(steps.deep_view() =~= whole.steps);
        Up { prepare: no_steps(), steps, cleanup: None, id: Id::Known(self.name.clone()) }
    }
}

impl Backend {
    /// Asks for an existing container (running or stopped).
    pub fn existing(&self, rt: &Runtime) -> (r: Invocation)
        ensures
            r.deep_view() == existing_query(self.deep_view(), *rt),
    {
        match self {
            Backend::Compose(b) => compose_ps(b, true, rt),
            Backend::Container(b) => {
                let filter = cat3("name=^", b.name.as_str(), "$");
                daemon(&b.remote, args4("ps", "-aq", "--filter", filter.as_str()), rt)
            },
        }
    }

    /// Id of an existing container for this devcontainer (running or stopped),
    /// or nothing if it hasn't been created yet.
    pub fn existing_id(&self, out: &Output) -> (r: Result<Option<String>, Failure>)
        ensures
            match r {
                Ok(id) => existing_spec(self.deep_view(), *out) == Ok::<
                    Option<Seq<char>>,
                    invocation::FailureView,
                >(id.deep_view()),
                Err(f) => existing_spec(self.deep_view(), *out) == Err::<
                    Option<Seq<char>>,
                    invocation::FailureView,
                >(f.deep_view()),
            },
    {
        match self {
            Backend::Compose(_) => match id_from_compose(out) {
                Ok(id) => if id.as_str().is_empty() {
                    Ok(None)
                } else {
                    Ok(Some(id))
                },
                Err(f) => Err(f),
            },
            Backend::Container(_) => match &out.ended {
                Ended::NotStarted(cause) => Err(
                    Failure::Spawn {
                        context: "spawning docker".to_string(),
                        cause: cause.clone(),
                    },
                ),
                Ended::Exited(_) => Ok(
                    text::first(&text::full_lines(text::lossy(&out.stdout).as_str())),
                ),
            },
        }
    }

    /// Brings the container up, recreating it from scratch when `recreate` is
    /// set, applying any feature `flags` at creation.
    pub fn up(&self, recreate: bool, flags: &CreateFlags, exists_now: bool, rt: &Runtime) -> (r: Up)
        ensures
            r.deep_view() == up_spec(
                self.deep_view(),
                recreate,
                flags.deep_view(),
                exists_now,
                *rt,
            ),
    {
        match self {
            Backend::Compose(b) => b.up(recreate, flags, rt),
            Backend::Container(b) => b.up(recreate, exists_now, flags, rt),
        }
    }

    /// The id of the container that was brought up, by the answer about it.
    pub fn found(&self, out: &Output) -> (r: Result<String, Failure>)
        ensures
            invocation::result_view(r) == found_spec(self.deep_view(), *out),
    {
        match id_from_compose(out) {
            Ok(id) => {
                if id.as_str().is_empty() {
                    let service = match self {
                        Backend::Compose(b) => b.service.as_str(),
                        Backend::Container(b) => b.name.as_str(),
                    };
                    Err(
                        Failure::Message(
                            cat3(
                                "could not find running container for service '",
                                service,
                                "'",
                            ),
                        ),
                    )
                } else {
                    Ok(id)
                }
            },
            Err(f) => Err(f),
        }
    }
}

// ── laws ──────────────────────────────────────────────────────────────────────

/// A container that exists is never removed or made anew unless it is to be
/// recreated: it is only started.
pub proof fn existing_container_is_kept(
    remote: Option<Seq<char>>,
    name: Seq<char>,
    source: config::ImageSourceView,
    run_args: Seq<Seq<char>>,
    flags: features::CreateFlagsView,
    rt: Runtime,
)
    ensures
        container_up_spec(remote, name, source, run_args, false, true, flags, rt).steps == seq![
            script::StepView::Say("[graft] starting "@ + name),
            script::StepView::Try(daemon_command(remote, seq!["start"@, name], rt)),
        ],
{
}

/// The container is looked for in the project's own files: the temporary one
/// that adds the settings of features does not change which project it is.
pub proof fn override_keeps_the_project(
    remote: Option<Seq<char>>,
    dir: Seq<char>,
    files: Seq<Seq<char>>,
    service: Seq<char>,
    project: Seq<char>,
    recreate: bool,
    flags: features::CreateFlagsView,
    rt: Runtime,
)
    ensures
        compose_up_spec(remote, dir, files, service, project, recreate, flags, rt).id
            == IdView::Ask(compose_ps_spec(remote, dir, project, files, service, false, rt)),
{
}

/// A command runs docker with these arguments where the files are: in the
/// directory here, or by a line that the remote's shell reads as docker with
/// exactly them, behind a change to the directory.
pub open spec fn runs_docker(
    command: invocation::InvocationView,
    remote: Option<Seq<char>>,
    dir: Option<Seq<char>>,
    args: Seq<Seq<char>>,
    rt: Runtime,
) -> bool {
    match remote {
        None => command.program == "docker"@ && command.args == args && command.dir == dir,
        Some(host) => exists|line: Seq<char>|
            {
                &&& #[trigger] shell::shell_words(line) == Some(seq!["docker"@] + args)
                &&& command == ssh::script_spec(
                    host,
                    match dir {
                        Some(d) => "cd "@ + docker::shell_quote_spec(d) + " && "@ + line,
                        None => line,
                    },
                    rt,
                )
            },
    }
}

/// Docker is run where the project's files are, with the given arguments.
pub proof fn files_are_read_where_they_are(
    remote: Option<Seq<char>>,
    dir: Option<Seq<char>>,
    args: Seq<Seq<char>>,
    rt: Runtime,
)
    ensures
        runs_docker(files_command_spec(remote, dir, args, rt), remote, dir, args, rt),
{
    let line = docker::remote_script_spec(args);
    docker::remote_script_reads_back(args);
    if dir is None {
        assert(seq![] + line =~= line);
    }
    assert(shell::shell_words(line) == Some(seq!["docker"@] + args));
}

/// A daemon is reached in the same way, here or on the remote, whatever
/// directory the files are in.
pub proof fn daemon_is_reached_where_it_is(
    remote: Option<String>,
    args: Seq<Seq<char>>,
    rt: Runtime,
)
    ensures
        daemon_command(remote.deep_view(), args, rt) == docker::command_spec(remote, args, rt),
{
}

proof fn lemma_build_args(args: Seq<table::Entry>, i: int)
    requires
        0 <= i < args.len(),
    ensures
        build_args(args).len() == 2 * args.len(),
        build_args(args)[2 * i] == "--build-arg"@,
        build_args(args)[2 * i + 1] == args[i].0 + "="@ + args[i].1,
    decreases args.len(),
{
    lemma_build_args_len(args.drop_last());
    if i < args.len() - 1 {
        lemma_build_args(args.drop_last(), i);
    }
}

proof fn lemma_build_args_len(args: Seq<table::Entry>)
    ensures
        build_args(args).len() == 2 * args.len(),
    decreases args.len(),
{
    if args.len() > 0 {
        lemma_build_args_len(args.drop_last());
    }
}

/// At a position of a command stands a build argument.
pub open spec fn build_arg_at(args: Seq<Seq<char>>, at: int, e: table::Entry) -> bool {
    args[at] == "--build-arg"@ && args[at + 1] == e.0 + "="@ + e.1
}

/// The command that builds an image, of which nothing is left open: it is tagged
/// as the container's image; the Dockerfile is named inside the context, unless
/// its path is absolute; then come the stage that is wanted and the build
/// arguments, and the context last.
pub open spec fn builds(
    args: Seq<Seq<char>>,
    context: Seq<char>,
    dockerfile: Option<Seq<char>>,
    target: Option<Seq<char>>,
    build: Seq<table::Entry>,
    tag: Seq<char>,
) -> bool {
    let a: int = if dockerfile is Some {
        5
    } else {
        3
    };
    let b: int = if target is Some {
        a + 2
    } else {
        a
    };
    &&& args.len() == b + 2 * build.len() + 1
    &&& args[0] == "build"@
    &&& args[1] == "-t"@
    &&& args[2] == tag
    &&& dockerfile matches Some(df) ==> {
        &&& args[3] == "-f"@
        &&& df.len() > 0 && df[0] == '/' ==> args[4] == df
        &&& !(df.len() > 0 && df[0] == '/') && context.len() > 0 && context.last() != '/'
            ==> args[4] == context + "/"@ + df
        &&& !(df.len() > 0 && df[0] == '/') ==> context.is_prefix_of(args[4])
    }
    &&& target matches Some(t) ==> args[a] == "--target"@ && args[a + 1] == t
    &&& forall|i: int|
        0 <= i < build.len() ==> build_arg_at(args, b + 2 * i, #[trigger] build[i])
    &&& args.last() == context
}

/// An image that is to be built is built where its files are, from its
/// Dockerfile and its context; one that is named is taken as it is.
pub proof fn image_is_built_from_its_context(
    remote: Option<Seq<char>>,
    source: config::ImageSourceView,
    rt: Runtime,
)
    ensures
        source is Image ==> image_steps(remote, source, rt).len() == 0,
        source matches config::ImageSourceView::Build { context, dockerfile, target, args, tag }
            ==> {
            &&& image_steps(remote, source, rt).len() == 2
            &&& image_steps(remote, source, rt)[0] is Say
            &&& image_steps(remote, source, rt)[1] matches script::StepView::Run(job) && exists|
                a: Seq<Seq<char>>,
            | #[trigger]
                builds(a, context, dockerfile, target, args, tag) && runs_docker(
                    job.command,
                    remote,
                    None,
                    a,
                    rt,
                )
        },
{
    if let config::ImageSourceView::Build { context, dockerfile, target, args, tag } = source {
        let all = seq!["build"@, "-t"@, tag] + (match dockerfile {
            Some(df) => seq!["-f"@, path::join_spec(context, df)],
            None => seq![],
        }) + docker::option_args("--target"@, target) + build_args(args) + seq![context];
        reveal_strlit("/");
        lemma_build_args_len(args);
        let a: int = if dockerfile is Some {
            5
        } else {
            3
        };
        let b: int = if target is Some {
            a + 2
        } else {
            a
        };
        if let Some(df) = dockerfile {
            assert(all[3] == "-f"@);
            assert(all[4] == path::join_spec(context, df));
            if !path::is_absolute(df) {
                assert(context.push('/') + df =~= context + "/"@ + df);
                assert(all[4].subrange(0, context.len() as int) =~= context);
                assert(context.is_prefix_of(all[4]));
                if context.len() > 0 && context.last() != '/' {
                    assert(all[4] == context + "/"@ + df);
                }
            }
        }
        assert forall|i: int| 0 <= i < args.len() implies build_arg_at(
            all,
            b + 2 * i,
            #[trigger] args[i],
        ) by {
            lemma_build_args(args, i);
            assert(all[b + 2 * i] == build_args(args)[2 * i]);
            assert(all[b + 2 * i + 1] == build_args(args)[2 * i + 1]);
        }
        if let Some(t) = target {
            assert(all[a] == "--target"@ && all[a + 1] == t);
        }
        assert(all.len() == b + 2 * args.len() + 1);
        assert(all[0] == "build"@ && all[1] == "-t"@ && all[2] == tag);
        assert(all.last() == context);
        assert(builds(all, context, dockerfile, target, args, tag));
        files_are_read_where_they_are(remote, None, all, rt);
    }
}

/// A container that is made is run from its image, the one that was named or
/// built, under its name, with its own arguments and those of the features, and
/// it does nothing but sleep. One that is there already is removed first, under
/// the same name.
pub proof fn container_is_made_from_its_image(
    remote: Option<Seq<char>>,
    name: Seq<char>,
    source: config::ImageSourceView,
    run_args: Seq<Seq<char>>,
    recreate: bool,
    exists_now: bool,
    flags: features::CreateFlagsView,
    rt: Runtime,
)
    requires
        recreate || !exists_now,
    ensures
        ({
            let up = container_up_spec(
                remote,
                name,
                source,
                run_args,
                recreate,
                exists_now,
                flags,
                rt,
            );
            let image = match source {
                config::ImageSourceView::Image(img) => img,
                config::ImageSourceView::Build { tag, .. } => tag,
            };
            let from: int = if exists_now {
                1
            } else {
                0
            };
            let built = image_steps(remote, source, rt);
            &&& up.id == IdView::Known(name)
            &&& up.prepare.len() == 0
            &&& up.cleanup is None
            &&& exists_now ==> up.steps[0] == script::StepView::Try(
                daemon_command(remote, seq!["rm"@, "-f"@, name], rt),
            )
            &&& up.steps.len() == from + built.len() + 2
            &&& up.steps.subrange(from, from + built.len()) == built
            &&& up.steps.last() matches script::StepView::RunWithin { job, .. } && job.command
                == daemon_command(
                remote,
                seq!["run"@, "-d"@, "--name"@, name] + run_args + flags.run_args() + seq![
                    image,
                    "sleep"@,
                    "infinity"@,
                ],
                rt,
            )
        }),
{
    let up = container_up_spec(
        remote,
        name,
        source,
        run_args,
        recreate,
        exists_now,
        flags,
        rt,
    );
    let from: int = if exists_now {
        1
    } else {
        0
    };
    let built = image_steps(remote, source, rt);
    assert(up.steps.subrange(from, from + built.len()) =~= built);
}

proof fn lemma_file_args_len(files: Seq<Seq<char>>)
    ensures
        file_args(files).len() == 2 * files.len(),
    decreases files.len(),
{
    if files.len() > 0 {
        lemma_file_args_len(files.drop_last());
    }
}

proof fn lemma_file_args(files: Seq<Seq<char>>, i: int)
    requires
        0 <= i < files.len(),
    ensures
        file_args(files)[2 * i] == "-f"@,
        file_args(files)[2 * i + 1] == files[i],
    decreases files.len(),
{
    lemma_file_args_len(files.drop_last());
    if i < files.len() - 1 {
        lemma_file_args(files.drop_last(), i);
    }
}

/// Every compose command names the project, then each of its files in order.
pub proof fn compose_commands_name_the_project(project: Seq<char>, files: Seq<Seq<char>>, i: int)
    requires
        0 <= i < files.len(),
    ensures
        compose_args(project, files).len() == 3 + 2 * files.len(),
        compose_args(project, files).take(3) == seq!["compose"@, "-p"@, project],
        compose_args(project, files)[3 + 2 * i] == "-f"@,
        compose_args(project, files)[4 + 2 * i] == files[i],
{
    lemma_file_args_len(files);
    lemma_file_args(files, i);
    assert(compose_args(project, files).take(3) =~= seq!["compose"@, "-p"@, project]);
    assert(compose_args(project, files)[3 + 2 * i] == file_args(files)[2 * i]);
    assert(compose_args(project, files)[4 + 2 * i] == file_args(files)[2 * i + 1]);
}

/// How compose is told to bring a project up: detached; built and recreated
/// exactly where that is wanted, while otherwise what exists is kept.
spec fn up_words(recreate: bool) -> Seq<Seq<char>> {
    if recreate {
        seq!["up"@, "-d"@, "--build"@, "--force-recreate"@]
    } else {
        seq!["up"@, "-d"@, "--no-recreate"@]
    }
}

/// A compose project that no feature asks anything of is brought up from its own
/// files; it is built and recreated exactly where that is wanted.
pub proof fn compose_project_is_brought_up(
    remote: Option<Seq<char>>,
    dir: Seq<char>,
    files: Seq<Seq<char>>,
    service: Seq<char>,
    project: Seq<char>,
    recreate: bool,
    rt: Runtime,
)
    ensures
        ({
            let up = compose_up_spec(
                remote,
                dir,
                files,
                service,
                project,
                recreate,
                features::CreateFlagsView::none(),
                rt,
            );
            &&& up.prepare.len() == 0
            &&& up.cleanup is None
            &&& up.steps.len() == 1
            &&& up.steps[0] matches script::StepView::Run(job) && runs_docker(
                job.command,
                remote,
                Some(dir),
                compose_args(project, files) + (if recreate {
                    seq!["up"@, "-d"@, "--build"@, "--force-recreate"@]
                } else {
                    seq!["up"@, "-d"@, "--no-recreate"@]
                }),
                rt,
            )
        }),
{
    files_are_read_where_they_are(
        remote,
        Some(dir),
        compose_args(project, files) + up_words(recreate),
        rt,
    );
}

/// What features ask of a compose project is written to a temporary file, which
/// compose reads, behind the project's own files, from where it was written.
pub proof fn compose_reads_what_features_ask_for(
    dir: Seq<char>,
    files: Seq<Seq<char>>,
    service: Seq<char>,
    project: Seq<char>,
    recreate: bool,
    flags: features::CreateFlagsView,
    rt: Runtime,
)
    requires
        flags != features::CreateFlagsView::none(),
    ensures
        ({
            let up = compose_up_spec(None, dir, files, service, project, recreate, flags, rt);
            &&& up.prepare.len() == 0
            &&& up.cleanup is None
            &&& up.steps.len() == 2
            &&& up.steps[0] matches script::StepView::WriteTemp { temp, contents, .. } && {
                &&& contents == flags.compose_override(service)
                &&& up.steps[1] matches script::StepView::Run(job) && runs_docker(
                    job.command,
                    None,
                    Some(dir),
                    compose_args(project, files.push(temp)) + (if recreate {
                        seq!["up"@, "-d"@, "--build"@, "--force-recreate"@]
                    } else {
                        seq!["up"@, "-d"@, "--no-recreate"@]
                    }),
                    rt,
                )
            }
        }),
{
    let extra = override_path(None, rt);
    files_are_read_where_they_are(
        None,
        Some(dir),
        compose_args(project, files.push(extra)) + up_words(recreate),
        rt,
    );
}

/// On a remote, the file is written there first, and removed there afterwards.
pub proof fn remote_compose_reads_what_features_ask_for(
    host: Seq<char>,
    dir: Seq<char>,
    files: Seq<Seq<char>>,
    service: Seq<char>,
    project: Seq<char>,
    recreate: bool,
    flags: features::CreateFlagsView,
    rt: Runtime,
)
    requires
        flags != features::CreateFlagsView::none(),
    ensures
        ({
            let up = compose_up_spec(Some(host), dir, files, service, project, recreate, flags, rt);
            let file = "/tmp/graft-compose-override-"@ + num::dec(rt.pid as nat) + ".yml"@;
            &&& up.prepare.len() == 1
            &&& up.prepare[0] matches script::StepView::Feed { job, input, .. } && input
                == flags.compose_override(service) && job.command == ssh::script_spec(
                host,
                "cat > "@ + docker::shell_quote_spec(file),
                rt,
            )
            &&& up.cleanup == Some(
                lookup::ssh_output_spec(host, "rm -f "@ + docker::shell_quote_spec(file), rt),
            )
            &&& up.steps.len() == 1
            &&& up.steps[0] matches script::StepView::Run(job) && runs_docker(
                job.command,
                Some(host),
                Some(dir),
                compose_args(project, files.push(file)) + (if recreate {
                    seq!["up"@, "-d"@, "--build"@, "--force-recreate"@]
                } else {
                    seq!["up"@, "-d"@, "--no-recreate"@]
                }),
                rt,
            )
        }),
{
    reveal_strlit("/tmp/graft-compose-override-");
    reveal_strlit("/tmp/");
    reveal_strlit("graft-compose-override-");
    let extra = override_path(Some(host), rt);
    assert(extra =~= "/tmp/graft-compose-override-"@ + num::dec(rt.pid as nat) + ".yml"@);
    files_are_read_where_they_are(
        Some(host),
        Some(dir),
        compose_args(project, files.push(extra)) + up_words(recreate),
        rt,
    );
}

/// The container of a compose project is asked for by its service: among all of
/// them to find one that exists, and among those that run once it is up.
pub proof fn compose_container_is_asked_for_by_its_service(
    remote: Option<Seq<char>>,
    dir: Seq<char>,
    files: Seq<Seq<char>>,
    service: Seq<char>,
    project: Seq<char>,
    recreate: bool,
    flags: features::CreateFlagsView,
    rt: Runtime,
)
    ensures
        ({
            let b = config::BackendView::Compose { remote, dir, files, service, project };
            &&& runs_docker(
                existing_query(b, rt),
                remote,
                Some(dir),
                compose_args(project, files) + seq!["ps"@, "-a"@, "-q"@, service],
                rt,
            )
            &&& up_spec(b, recreate, flags, false, rt).id matches IdView::Ask(command)
                && runs_docker(
                command,
                remote,
                Some(dir),
                compose_args(project, files) + seq!["ps"@, "-q"@, service],
                rt,
            )
        }),
{
    let head = compose_args(project, files);
    files_are_read_where_they_are(
        remote,
        Some(dir),
        head + seq!["ps"@, "-a"@, "-q"@, service],
        rt,
    );
    files_are_read_where_they_are(remote, Some(dir), head + seq!["ps"@, "-q"@, service], rt);
}

/// The container of a service is the first that compose tells, and there is none
/// where it tells nothing; an answer that failed is never taken for none.
pub proof fn first_told_container_counts(out: Output, a: Seq<char>, b: Seq<char>)
    requires
        vstd::utf8::valid_utf8(out.stdout@),
        vstd::utf8::decode_utf8(out.stdout@) == a + seq!['\n'] + b,
        forall|i: int| 0 <= i < a.len() ==> a[i] != '\n',
        a.len() == 0 || a.last() != '\r',
    ensures
        out.ended == Ended::Exited(Some(0i32)) ==> compose_id(out) == Ok::<
            Seq<char>,
            invocation::FailureView,
        >(text::trim_spec(a)),
        out.ended != Ended::Exited(Some(0i32)) ==> compose_id(out) is Err,
{
    text::lines_end_at_line_feeds(a, b);
}

/// A plain container exists where docker tells its id, on the first full line of
/// its answer.
pub proof fn told_container_exists(b: config::BackendView, out: Output)
    requires
        b is Container,
        out.ended is Exited,
    ensures
        ({
            let told = text::full_lines_spec(text::utf8_lossy(out.stdout@));
            existing_spec(b, out) == Ok::<Option<Seq<char>>, invocation::FailureView>(
                if told.len() == 0 {
                    None
                } else {
                    Some(told[0])
                },
            )
        }),
{
}

} // verus!
