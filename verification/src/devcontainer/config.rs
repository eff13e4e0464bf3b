//! devcontainer.json, and the container that it describes.
use vstd::prelude::*;

use crate::devcontainer::naming;
use crate::devcontainer::naming::{container_name, lower_text, project_name, session_name};
use crate::devcontainer::ports;
use crate::devcontainer::ports::parse_forward_ports;
use crate::devcontainer::run;
use crate::devcontainer::run::build_run_args;
use crate::devcontainer::vars;
use crate::devcontainer::vars::{normalize_env_value, substitute_vars};
use crate::features::FeatureRequest;
use crate::forward;
use crate::forward::PortForward;
use crate::invocation;
use crate::invocation::{push, Failure};
use crate::json::{Json, JsonKind};
use crate::path;
use crate::table;
use crate::text;
use crate::text::cat;

verus! {

/// devcontainer.json as it stands.
#[derive(Debug, PartialEq, Eq)]
pub struct DevcontainerConfig {
    /// Human-readable label, used (when present) for the session name.
    pub name: Option<String>,
    pub docker_compose_file: Option<Json>,
    pub service: Option<String>,
    pub image: Option<String>,
    pub build: Option<BuildConfig>,
    pub docker_file: Option<String>,
    pub context: Option<String>,
    pub run_args: Option<Vec<String>>,
    pub workspace_mount: Option<String>,
    pub mounts: Option<Vec<Json>>,
    pub workspace_folder: Option<String>,
    pub forward_ports: Option<Vec<Json>>,
    /// The requested features with their options, in the order of their names.
    pub features: Option<Vec<(String, Json)>>,
    pub override_feature_install_order: Option<Vec<String>>,
    pub container_env: Option<Vec<(String, String)>>,
    pub remote_env: Option<Vec<(String, String)>>,
    pub initialize_command: Option<Cmd>,
    pub on_create_command: Option<Cmd>,
    pub update_content_command: Option<Cmd>,
    pub post_create_command: Option<Cmd>,
    pub post_start_command: Option<Cmd>,
    pub post_attach_command: Option<Cmd>,
}

/// How an image is built.
#[derive(Debug, PartialEq, Eq)]
pub struct BuildConfig {
    pub dockerfile: Option<String>,
    pub context: Option<String>,
    pub target: Option<String>,
    /// Build arguments in the order of their names.
    pub args: Vec<(String, String)>,
}

/// A lifecycle command in any of its three shapes.
#[derive(Debug, PartialEq, Eq)]
pub enum Cmd {
    /// A line for a shell.
    Shell(String),
    /// A program with its arguments.
    Exec(Vec<String>),
    /// Named commands, in the order of their names.
    Named(Vec<(String, OneCmd)>),
}

/// A single lifecycle command.
#[derive(Debug, PartialEq, Eq)]
pub enum OneCmd {
    Shell(String),
    Exec(Vec<String>),
}

/// The lifecycle commands of a devcontainer.
#[derive(Debug, PartialEq, Eq)]
pub struct Lifecycle {
    pub initialize: Option<Cmd>,
    pub on_create: Option<Cmd>,
    pub update_content: Option<Cmd>,
    pub post_create: Option<Cmd>,
    pub post_start: Option<Cmd>,
    pub post_attach: Option<Cmd>,
}

/// A devcontainer that a compose file describes.
#[derive(Debug, PartialEq, Eq)]
pub struct ComposeBackend {
    pub remote: Option<String>,
    pub dir: String,
    pub files: Vec<String>,
    pub service: String,
    /// Explicit compose project name. Without it, compose derives the project
    /// from the compose file's directory — which is ".devcontainer" for most
    /// devcontainers, so they would all share one project.
    pub project: String,
}

/// Where the image of a container comes from.
#[derive(Debug, PartialEq, Eq)]
pub enum ImageSource {
    Image(String),
    Build {
        context: String,
        dockerfile: Option<String>,
        target: Option<String>,
        args: Vec<(String, String)>,
        tag: String,
    },
}

/// A plain devcontainer: an image to run or to build, run detached as `sleep
/// infinity` with the workspace mounted, under a stable per-project name.
#[derive(Debug, PartialEq, Eq)]
pub struct ContainerBackend {
    pub remote: Option<String>,
    pub name: String,
    pub source: ImageSource,
    pub run_args: Vec<String>,
}

/// How a devcontainer's container is found and brought up.
#[derive(Debug, PartialEq, Eq)]
pub enum Backend {
    Compose(ComposeBackend),
    Container(ContainerBackend),
}

/// What a [`Backend`] says.
#[verifier::ext_equal]
pub enum BackendView {
    Compose {
        remote: Option<Seq<char>>,
        dir: Seq<char>,
        files: Seq<Seq<char>>,
        service: Seq<char>,
        project: Seq<char>,
    },
    Container {
        remote: Option<Seq<char>>,
        name: Seq<char>,
        source: ImageSourceView,
        run_args: Seq<Seq<char>>,
    },
}

/// What an [`ImageSource`] says.
#[verifier::ext_equal]
pub enum ImageSourceView {
    Image(Seq<char>),
    Build {
        context: Seq<char>,
        dockerfile: Option<Seq<char>>,
        target: Option<Seq<char>>,
        args: Seq<table::Entry>,
        tag: Seq<char>,
    },
}

impl DeepView for ImageSource {
    type V = ImageSourceView;

    open spec fn deep_view(&self) -> ImageSourceView {
        match self {
            ImageSource::Image(img) => ImageSourceView::Image(img@),
            ImageSource::Build { context, dockerfile, target, args, tag } =>
                ImageSourceView::Build {
                context: context@,
                dockerfile: dockerfile.deep_view(),
                target: target.deep_view(),
                args: args.deep_view(),
                tag: tag@,
            },
        }
    }
}

impl DeepView for Backend {
    type V = BackendView;

    open spec fn deep_view(&self) -> BackendView {
        match self {
            Backend::Compose(b) => BackendView::Compose {
                remote: b.remote.deep_view(),
                dir: b.dir@,
                files: b.files.deep_view(),
                service: b.service@,
                project: b.project@,
            },
            Backend::Container(b) => BackendView::Container {
                remote: b.remote.deep_view(),
                name: b.name@,
                source: b.source.deep_view(),
                run_args: b.run_args.deep_view(),
            },
        }
    }
}

/// A devcontainer, ready to be brought up.
#[derive(Debug, PartialEq, Eq)]
pub struct Spec {
    pub config_path: String,
    /// Directory the devcontainer.json lives in: hashed for change detection,
    /// where initializeCommand runs, and the base for local features.
    pub base_dir: String,
    /// Extra files (besides the .devcontainer dir) to fold into the hash.
    pub hash_extra: Vec<String>,
    pub workspace_folder: String,
    pub session_name: String,
    pub forward_ports: Vec<PortForward>,
    pub lifecycle: Lifecycle,
    pub features: Vec<FeatureRequest>,
    pub override_feature_order: Vec<String>,
    /// containerEnv and remoteEnv, in the order of the names.
    pub env: Vec<(String, String)>,
    pub backend: Backend,
}

/// What a request for a feature says.
pub type RequestView = (Seq<char>, Seq<(String, Json)>);

/// What a request for a feature says.
pub open spec fn request_view(f: FeatureRequest) -> RequestView {
    (f.reference@, f.options@)
}

/// What a [`Spec`] says.
#[verifier::ext_equal]
pub struct SpecView {
    pub config_path: Seq<char>,
    pub base_dir: Seq<char>,
    pub hash_extra: Seq<Seq<char>>,
    pub workspace_folder: Seq<char>,
    pub session_name: Seq<char>,
    pub forward_ports: Seq<forward::PortForwardView>,
    pub lifecycle: Lifecycle,
    pub features: Seq<RequestView>,
    pub override_feature_order: Seq<Seq<char>>,
    pub env: Seq<table::Entry>,
    pub backend: BackendView,
}

impl DeepView for Spec {
    type V = SpecView;

    open spec fn deep_view(&self) -> SpecView {
        SpecView {
            config_path: self.config_path@,
            base_dir: self.base_dir@,
            hash_extra: self.hash_extra.deep_view(),
            workspace_folder: self.workspace_folder@,
            session_name: self.session_name@,
            forward_ports: self.forward_ports.deep_view(),
            lifecycle: self.lifecycle,
            features: self.features@.map_values(|f: FeatureRequest| request_view(f)),
            override_feature_order: self.override_feature_order.deep_view(),
            env: self.env.deep_view(),
            backend: self.backend.deep_view(),
        }
    }
}

/// What is told when variables refer to each other without end.
pub open spec fn endless() -> invocation::FailureView {
    invocation::FailureView::Message(
        "variables in devcontainer.json refer to each other without end"@,
    )
}

/// The directory that a configuration stands in.
pub open spec fn base_dir_spec(config_path: Seq<char>, project: Seq<char>) -> Seq<char> {
    match path::parent_spec(config_path) {
        Some(d) => d,
        None => project,
    }
}

/// The workspace folder: as configured, or under `/workspaces`.
pub open spec fn workspace_spec(
    configured: Option<Seq<char>>,
    project: Seq<char>,
    env: Seq<table::Entry>,
) -> Option<Seq<char>> {
    match configured {
        Some(wf) => vars::substitute_spec(wf, project, env),
        None => Some("/workspaces/"@ + naming::project_name_spec(project)),
    }
}

/// The requests for features; options that are no object count as none.
pub open spec fn requests_spec(features: Seq<(String, Json)>) -> Seq<RequestView> {
    features.map_values(
        |f: (String, Json)|
            (
                f.0@,
                match f.1.kind {
                    JsonKind::Object(m) => m@,
                    _ => seq![],
                },
            ),
    )
}

/// The pairs that there are.
pub open spec fn pairs_of<A>(items: Option<Vec<(String, A)>>) -> Seq<(String, A)> {
    match items {
        Some(v) => v@,
        None => seq![],
    }
}

/// The variables that there are.
pub open spec fn entries_of(items: Option<Vec<(String, String)>>) -> Seq<table::Entry> {
    match items {
        Some(v) => v.deep_view(),
        None => seq![],
    }
}

/// Variables set on top of others, each value in the form that the container's
/// shell expands.
pub open spec fn with_variables(
    base: Seq<table::Entry>,
    more: Seq<table::Entry>,
    project: Seq<char>,
    env: Seq<table::Entry>,
) -> Option<Seq<table::Entry>>
    decreases more.len(),
{
    if more.len() == 0 {
        Some(base)
    } else {
        match (
            with_variables(base, more.drop_last(), project, env),
            vars::normalize_spec(more.last().1, project, env),
        ) {
            (Some(t), Some(v)) => Some(table::insert_spec(t, more.last().0, v)),
            _ => None,
        }
    }
}

/// The container's variables: containerEnv, then remoteEnv, which wins.
pub open spec fn env_spec(
    container_env: Seq<table::Entry>,
    remote_env: Seq<table::Entry>,
    project: Seq<char>,
    env: Seq<table::Entry>,
) -> Option<Seq<table::Entry>> {
    match with_variables(seq![], container_env, project, env) {
        Some(t) => with_variables(t, remote_env, project, env),
        None => None,
    }
}

/// The texts in an array; other items are left out.
pub open spec fn text_items(items: Seq<Json>) -> Seq<Seq<char>>
    decreases items.len(),
{
    if items.len() == 0 {
        seq![]
    } else {
        let rest = text_items(items.drop_last());
        match items.last().kind {
            JsonKind::Text(s) => rest.push(s@),
            _ => rest,
        }
    }
}

/// The compose files: one, or several.
pub open spec fn compose_files(v: Json) -> Option<Seq<Seq<char>>> {
    match v.kind {
        JsonKind::Text(s) => Some(seq![s@]),
        JsonKind::Array(a) => Some(text_items(a@)),
        _ => None,
    }
}

/// The first of two texts that is there.
pub open spec fn either(a: Option<Seq<char>>, b: Option<Seq<char>>) -> Option<Seq<char>> {
    match a {
        Some(s) => Some(s),
        None => b,
    }
}

/// Where the image comes from: an image that is named, or a build.
pub open spec fn source_spec(
    config: DevcontainerConfig,
    base_dir: Seq<char>,
    name: Seq<char>,
) -> ImageSourceView {
    match config.image {
        Some(img) => ImageSourceView::Image(img@),
        None => {
            let context = match config.build {
                Some(b) => either(b.context.deep_view(), config.context.deep_view()),
                None => config.context.deep_view(),
            };
            ImageSourceView::Build {
                context: path::join_spec(
                    base_dir,
                    match context {
                        Some(c) => c,
                        None => "."@,
                    },
                ),
                dockerfile: match config.build {
                    Some(b) => either(b.dockerfile.deep_view(), config.docker_file.deep_view()),
                    None => config.docker_file.deep_view(),
                },
                target: match config.build {
                    Some(b) => b.target.deep_view(),
                    None => None,
                },
                args: match config.build {
                    Some(b) => b.args.deep_view(),
                    None => seq![],
                },
                tag: name + "-img"@,
            }
        },
    }
}

/// The backend that a devcontainer uses, and what else counts for its hash:
/// compose where there is a compose file, or else an image or a build.
pub open spec fn backend_spec(
    config: DevcontainerConfig,
    base_dir: Seq<char>,
    project: Seq<char>,
    workspace_folder: Seq<char>,
    remote: Option<Seq<char>>,
    env: Seq<table::Entry>,
) -> Result<(BackendView, Seq<Seq<char>>), invocation::FailureView> {
    let name = naming::container_name_spec(project);
    match config.docker_compose_file {
        Some(file) => match (compose_files(file), config.service) {
            (Some(files), Some(service)) => Ok(
                (
                    BackendView::Compose {
                        remote,
                        dir: base_dir,
                        files,
                        service: service@,
                        project: naming::lower_spec(name),
                    },
                    files.map_values(|f: Seq<char>| path::join_spec(base_dir, f)),
                ),
            ),
            (None, _) => Err(
                invocation::FailureView::Message("unexpected dockerComposeFile format"@),
            ),
            (_, None) => Err(
                invocation::FailureView::Message(
                    "devcontainer.json with dockerComposeFile is missing 'service'"@,
                ),
            ),
        },
        None => if config.image is None && config.build is None && config.docker_file is None {
            Err(
                invocation::FailureView::Message(
                    "devcontainer.json must set one of: dockerComposeFile, image, build, or dockerFile"@,
                ),
            )
        } else {
            match run::run_args_spec(
                run::texts(config.run_args),
                config.workspace_mount.deep_view(),
                ports::listed(config.mounts),
                project,
                workspace_folder,
                env,
            ) {
                Some(run_args) => Ok(
                    (
                        BackendView::Container {
                            remote,
                            name,
                            source: source_spec(config, base_dir, name),
                            run_args,
                        },
                        seq![],
                    ),
                ),
                None => Err(endless()),
            }
        },
    }
}

/// The devcontainer that a configuration describes.
pub open spec fn load_spec_spec(
    config: DevcontainerConfig,
    config_path: Seq<char>,
    project: Seq<char>,
    remote: Option<Seq<char>>,
    env: Seq<table::Entry>,
) -> Result<SpecView, invocation::FailureView> {
    let base_dir = base_dir_spec(config_path, project);
    match (
        workspace_spec(config.workspace_folder.deep_view(), project, env),
        env_spec(
            entries_of(config.container_env),
            entries_of(config.remote_env),
            project,
            env,
        ),
    ) {
        (Some(workspace_folder), Some(variables)) => match backend_spec(
            config,
            base_dir,
            project,
            workspace_folder,
            remote,
            env,
        ) {
            Ok((backend, hash_extra)) => Ok(
                SpecView {
                    config_path,
                    base_dir,
                    hash_extra,
                    workspace_folder,
                    session_name: naming::session_name_spec(
                        config.name.deep_view(),
                        naming::project_name_spec(project),
                        project,
                    ),
                    forward_ports: ports::forward_ports_spec(
                        ports::listed(config.forward_ports),
                    ),
                    lifecycle: Lifecycle {
                        initialize: config.initialize_command,
                        on_create: config.on_create_command,
                        update_content: config.update_content_command,
                        post_create: config.post_create_command,
                        post_start: config.post_start_command,
                        post_attach: config.post_attach_command,
                    },
                    features: requests_spec(pairs_of(config.features)),
                    override_feature_order: run::texts(config.override_feature_install_order),
                    env: variables,
                    backend,
                },
            ),
            Err(f) => Err(f),
        },
        _ => Err(endless()),
    }
}

fn endless_failure() -> (r: Failure)
    ensures
        r.deep_view() == endless(),
{
    Failure::Message(
        "variables in devcontainer.json refer to each other without end".to_string(),
    )
}

proof fn lemma_variables_fail(
    base: Seq<table::Entry>,
    more: Seq<table::Entry>,
    project: Seq<char>,
    env: Seq<table::Entry>,
    i: int,
)
    requires
        0 <= i <= more.len(),
        with_variables(base, more.take(i), project, env) is None,
    ensures
        with_variables(base, more, project, env) is None,
    decreases more.len() - i,
{
    if i == more.len() {
        assert(more.take(i) =~= more);
    } else {
        assert(more.take(i + 1).drop_last() =~= more.take(i));
        lemma_variables_fail(base, more, project, env, i + 1);
    }
}

fn add_variables(
    t: Vec<(String, String)>,
    more: &Option<Vec<(String, String)>>,
    project_path: &str,
    env: &Vec<(String, String)>,
) -> (r: Option<Vec<(String, String)>>)
    ensures
        r.deep_view() == with_variables(
            t.deep_view(),
            entries_of(*more),
            project_path@,
            env.deep_view(),
        ),
{
    let mut out = t;
    let ghost base = t.deep_view();
    if let Some(pairs) = more {
        let ghost all = pairs.deep_view();
        assert(all.take(0) =~= seq![]);
        for i in 0..pairs.len()
            invariant
                all == pairs.deep_view(),
                base == t.deep_view(),
                entries_of(*more) == all,
                with_variables(base, all.take(i as int), project_path@, env.deep_view()) == Some(
                    out.deep_view(),
                ),
        {
            assert(all.take(i + 1).drop_last() =~= all.take(i as int));
            assert(all[i as int] == pairs@[i as int].deep_view());
            match normalize_env_value(pairs[i].1.as_str(), project_path, env) {
                Some(v) => table::insert(&mut out, pairs[i].0.as_str(), v.as_str()),
                None => {
                    proof {
                        lemma_variables_fail(
                            base,
                            all,
                            project_path@,
                            env.deep_view(),
                            i + 1,
                        );
                    }
                    return None;
                },
            }
        }
        assert(all.take(all.len() as int) =~= all);
    }
    Some(out)
}

fn requests(features: Option<Vec<(String, Json)>>) -> (r: Vec<FeatureRequest>)
    ensures
        r@.map_values(|f: FeatureRequest| request_view(f)) == requests_spec(pairs_of(features)),
{
    let mut out: Vec<FeatureRequest> = Vec::new();
    let ghost all = requests_spec(pairs_of(features));
    if let Some(list) = features {
        let ghost raw = list@;
        for f in it: list
            invariant
                it.seq() == raw,
                all == requests_spec(raw),
                out@.map_values(|f: FeatureRequest| request_view(f)) == all.take(it.index()),
        {
            let ghost n = it.index();
            let ghost before = out@.map_values(|f: FeatureRequest| request_view(f));
            assert(raw[n] == f);
            let (reference, given) = f;
            let options: Vec<(String, Json)> = match given.kind {
                JsonKind::Object(m) => m,
                _ => Vec::new(),
            };
            let request = FeatureRequest { reference, options };
            out.push(request);
            assert(request_view(request).1 =~= all[n].1);
            assert(out@.map_values(|f: FeatureRequest| request_view(f)) =~= before.push(all[n]));
            assert(out@.map_values(|f: FeatureRequest| request_view(f)) =~= all.take(n + 1));
        }
    }
    assert(out@.map_values(|f: FeatureRequest| request_view(f)) =~= all);
    out
}

fn files_of(v: &Json) -> (r: Option<Vec<String>>)
    ensures
        r.deep_view() == compose_files(*v),
{
    match &v.kind {
        JsonKind::Text(s) => Some(invocation::args1(s.as_str())),
        JsonKind::Array(a) => {
            let mut out: Vec<String> = Vec::new();
            let ghost all = a@;
            assert(out.deep_view() =~= text_items(all.take(0)));
            for i in 0..a.len()
                invariant
                    all == a@,
                    out.deep_view() == text_items(all.take(i as int)),
            {
                assert(all.take(i + 1).drop_last() =~= all.take(i as int));
                if let JsonKind::Text(s) = &a[i].kind {
                    push(&mut out, s.as_str());
                }
            }
            assert(all.take(all.len() as int) =~= all);
            Some(out)
        },
        _ => None,
    }
}

fn joined(base_dir: &str, files: &Vec<String>) -> (r: Vec<String>)
    ensures
        r.deep_view() == files.deep_view().map_values(
            |f: Seq<char>| path::join_spec(base_dir@, f),
        ),
{
    let mut out: Vec<String> = Vec::new();
    let ghost all = files.deep_view().map_values(|f: Seq<char>| path::join_spec(base_dir@, f));
    for i in 0..files.len()
        invariant
            all == files.deep_view().map_values(|f: Seq<char>| path::join_spec(base_dir@, f)),
            out.deep_view() == all.take(i as int),
    {
        assert(files.deep_view()[i as int] == files@[i as int]@);
        push(&mut out, path::join(base_dir, files[i].as_str()).as_str());
        assert(out.deep_view() =~= all.take(i + 1));
    }
    assert(out.deep_view() =~= all);
    out
}

fn or_else(a: Option<String>, b: Option<String>) -> (r: Option<String>)
    ensures
        r.deep_view() == either(a.deep_view(), b.deep_view()),
{
    match a {
        Some(s) => Some(s),
        None => b,
    }
}

/// Which image the container is made of: one that is named, or one that is built.
fn image_source(
    image: Option<String>,
    build: Option<BuildConfig>,
    context: Option<String>,
    docker_file: Option<String>,
    base_dir: &str,
    name: &str,
    Ghost(config): Ghost<DevcontainerConfig>,
) -> (r: ImageSource)
    requires
        config.image == image,
        config.build == build,
        config.context == context,
        config.docker_file == docker_file,
    ensures
        r.deep_view() == source_spec(config, base_dir@, name@),
{
    if let Some(img) = image {
        return ImageSource::Image(img);
    }
    let (from, file, target, args) = match build {
        Some(b) => (
            or_else(b.context, context),
            or_else(b.dockerfile, docker_file),
            b.target,
            b.args,
        ),
        None => {
            let none: Vec<(String, String)> = Vec::new();
            assert(none.deep_view() =~= seq![]);
            (context, docker_file, None, none)
        },
    };
    let rel = match from {
        Some(c) => c,
        None => ".".to_string(),
    };
    ImageSource::Build {
        context: path::join(base_dir, rel.as_str()),
        dockerfile: file,
        target,
        args,
        tag: cat(name, "-img"),
    }
}

fn items_of(items: Option<Vec<String>>) -> (r: Vec<String>)
    ensures
        r.deep_view() == run::texts(items),
{
    match items {
        Some(v) => v,
        None => {
            let none: Vec<String> = Vec::new();
            assert(none.deep_view() =~= seq![]);
            none
        },
    }
}

/// The devcontainer that a configuration describes: which backend it uses, where
/// its workspace is, what is forwarded, installed, set and run.
pub fn load_spec(
    config: DevcontainerConfig,
    config_path: &str,
    project_path: &str,
    remote: &Option<String>,
    env: &Vec<(String, String)>,
) -> (r: Result<Spec, Failure>)
    ensures
        invocation::result_view(r) == load_spec_spec(
            config,
            config_path@,
            project_path@,
            remote.deep_view(),
            env.deep_view(),
        ),
{
    let ghost whole = config;
    let DevcontainerConfig {
        name,
        docker_compose_file,
        service,
        image,
        build,
        docker_file,
        context,
        run_args,
        workspace_mount,
        mounts,
        workspace_folder,
        forward_ports,
        features,
        override_feature_install_order,
        container_env,
        remote_env,
        initialize_command,
        on_create_command,
        update_content_command,
        post_create_command,
        post_start_command,
        post_attach_command,
    } = config;
    let base_dir = match path::parent(config_path) {
        Some(d) => d.to_string(),
        None => project_path.to_string(),
    };
    let basename = project_name(project_path);
    let settled = match &workspace_folder {
        Some(wf) => substitute_vars(wf.as_str(), project_path, env),
        None => Some(cat("/workspaces/", basename.as_str())),
    };
    let workspace_folder = match settled {
        Some(wf) => wf,
        None => {
            return Err(endless_failure());
        },
    };
    let label = match &name {
        Some(n) => Some(n.as_str()),
        None => None,
    };
    let session_name = session_name(label, basename.as_str(), project_path);
    let empty: Vec<(String, String)> = Vec::new();
    assert(empty.deep_view() =~= seq![]);
    let variables = match add_variables(empty, &container_env, project_path, env) {
        Some(t) => match add_variables(t, &remote_env, project_path, env) {
            Some(t) => t,
            None => {
                return Err(endless_failure());
            },
        },
        None => {
            return Err(endless_failure());
        },
    };
    let (backend, hash_extra) = if let Some(file) = docker_compose_file {
        let files = match files_of(&file) {
            Some(files) => files,
            None => {
                return Err(
                    Failure::Message("unexpected dockerComposeFile format".to_string()),
                );
            },
        };
        let service = match service {
            Some(s) => s,
            None => {
                return Err(
                    Failure::Message(
                        "devcontainer.json with dockerComposeFile is missing 'service'".to_string(),
                    ),
                );
            },
        };
        let extra = joined(base_dir.as_str(), &files);
        let project = lower_text(container_name(project_path).as_str());
        (
            Backend::Compose(
                ComposeBackend {
                    remote: remote.clone(),
                    dir: base_dir.clone(),
                    files,
                    service,
                    project,
                },
            ),
            extra,
        )
    } else if image.is_some() || build.is_some() || docker_file.is_some() {
        let container = container_name(project_path);
        let args = match build_run_args(
            &run_args,
            &workspace_mount,
            &mounts,
            project_path,
            workspace_folder.as_str(),
            env,
        ) {
            Some(args) => args,
            None => {
                return Err(endless_failure());
            },
        };
        let source = image_source(
            image,
            build,
            context,
            docker_file,
            base_dir.as_str(),
            container.as_str(),
            Ghost(whole),
        );
        let none: Vec<String> = Vec::new();
        assert(none.deep_view() =~= seq![]);
        (
            Backend::Container(
                ContainerBackend {
                    remote: remote.clone(),
                    name: container,
                    source,
                    run_args: args,
                },
            ),
            none,
        )
    } else {
        return Err(
            Failure::Message(
                "devcontainer.json must set one of: dockerComposeFile, image, build, or dockerFile".to_string(),
            ),
        );
    };
    let spec = Spec {
        config_path: config_path.to_string(),
        base_dir,
        hash_extra,
        workspace_folder,
        session_name,
        forward_ports: parse_forward_ports(&forward_ports),
        lifecycle: Lifecycle {
            initialize: initialize_command,
            on_create: on_create_command,
            update_content: update_content_command,
            post_create: post_create_command,
            post_start: post_start_command,
            post_attach: post_attach_command,
        },
        features: requests(features),
        override_feature_order: items_of(override_feature_install_order),
        env: variables,
        backend,
    };
    Ok(spec)
}

// ── laws ──────────────────────────────────────────────────────────────────────

proof fn lemma_with_variables(
    base: Seq<table::Entry>,
    more: Seq<table::Entry>,
    project: Seq<char>,
    env: Seq<table::Entry>,
    k: Seq<char>,
)
    requires
        table::sorted(base),
        table::sorted(more),
        with_variables(base, more, project, env) is Some,
    ensures
        table::sorted(with_variables(base, more, project, env)->0),
        table::get(with_variables(base, more, project, env)->0, k) == match table::get(more, k) {
            Some(v) => vars::normalize_spec(v, project, env),
            None => table::get(base, k),
        },
    decreases more.len(),
{
    if more.len() > 0 {
        let init = more.drop_last();
        let last = more.last();
        assert(table::sorted(init)) by {
            assert forall|i: int, j: int| 0 <= i < j < init.len() implies text::text_lt(
                init[i].0,
                init[j].0,
            ) by {
                assert(init[i] == more[i] && init[j] == more[j]);
            }
        }
        lemma_with_variables(base, init, project, env, k);
        let t = with_variables(base, init, project, env)->0;
        let v = vars::normalize_spec(last.1, project, env)->0;
        table::setting_keeps_order(t, last.0, v);
        table::set_name_is_found(t, last.0, v, k);
        table::lemma_get_last(more, k);
    }
}

/// The container's variables are those of containerEnv and remoteEnv; where both
/// set one, that of remoteEnv wins. They come in the order of their names.
pub proof fn remote_env_wins(
    container_env: Seq<table::Entry>,
    remote_env: Seq<table::Entry>,
    project: Seq<char>,
    env: Seq<table::Entry>,
    k: Seq<char>,
)
    requires
        table::sorted(container_env),
        table::sorted(remote_env),
        env_spec(container_env, remote_env, project, env) is Some,
    ensures
        table::sorted(env_spec(container_env, remote_env, project, env)->0),
        table::get(env_spec(container_env, remote_env, project, env)->0, k) == match table::get(
            remote_env,
            k,
        ) {
            Some(v) => vars::normalize_spec(v, project, env),
            None => match table::get(container_env, k) {
                Some(v) => vars::normalize_spec(v, project, env),
                None => None,
            },
        },
{
    lemma_with_variables(seq![], container_env, project, env, k);
    let t = with_variables(seq![], container_env, project, env)->0;
    lemma_with_variables(t, remote_env, project, env, k);
}

/// A compose file takes precedence over an image or a build.
pub proof fn compose_takes_precedence(
    config: DevcontainerConfig,
    base_dir: Seq<char>,
    project: Seq<char>,
    workspace_folder: Seq<char>,
    remote: Option<Seq<char>>,
    env: Seq<table::Entry>,
)
    requires
        config.docker_compose_file is Some,
    ensures
        backend_spec(config, base_dir, project, workspace_folder, remote, env) matches Ok((b, _))
            ==> b is Compose,
{
}

/// Each hook, the features with their options and order, and everything else that
/// a configuration sets stands under its own name in what is brought up.
pub proof fn settings_keep_their_meaning(
    config: DevcontainerConfig,
    config_path: Seq<char>,
    project: Seq<char>,
    remote: Option<Seq<char>>,
    env: Seq<table::Entry>,
)
    ensures
        load_spec_spec(config, config_path, project, remote, env) matches Ok(s) ==> {
            &&& s.config_path == config_path
            &&& path::parent_spec(config_path) matches Some(d) ==> s.base_dir == d
            &&& s.lifecycle.initialize == config.initialize_command
            &&& s.lifecycle.on_create == config.on_create_command
            &&& s.lifecycle.update_content == config.update_content_command
            &&& s.lifecycle.post_create == config.post_create_command
            &&& s.lifecycle.post_start == config.post_start_command
            &&& s.lifecycle.post_attach == config.post_attach_command
            &&& match config.override_feature_install_order {
                Some(order) => s.override_feature_order == order.deep_view(),
                None => s.override_feature_order.len() == 0,
            }
            &&& match config.features {
                Some(f) => s.features.len() == f@.len(),
                None => s.features.len() == 0,
            }
            &&& config.forward_ports is None ==> s.forward_ports.len() == 0
            &&& config.forward_ports matches Some(v) ==> s.forward_ports
                == ports::forward_ports_spec(v@)
            &&& match s.backend {
                BackendView::Compose { remote: r, .. } => r == remote,
                BackendView::Container { remote: r, .. } => r == remote,
            }
        },
{
}

/// Each requested feature keeps its reference and its options.
pub proof fn requested_features_keep_their_options(
    config: DevcontainerConfig,
    config_path: Seq<char>,
    project: Seq<char>,
    remote: Option<Seq<char>>,
    env: Seq<table::Entry>,
    f: Vec<(String, Json)>,
    i: int,
)
    requires
        config.features == Some(f),
        0 <= i < f@.len(),
    ensures
        load_spec_spec(config, config_path, project, remote, env) matches Ok(s) ==> {
            &&& s.features[i].0 == f@[i].0@
            &&& match f@[i].1.kind {
                JsonKind::Object(m) => s.features[i].1 == m@,
                _ => s.features[i].1.len() == 0,
            }
        },
{
}

/// The workspace folder is the configured one, with its variables resolved, or
/// that of the project's name under `/workspaces`.
pub proof fn workspace_is_the_configured_one(
    config: DevcontainerConfig,
    config_path: Seq<char>,
    project: Seq<char>,
    remote: Option<Seq<char>>,
    env: Seq<table::Entry>,
)
    ensures
        load_spec_spec(config, config_path, project, remote, env) matches Ok(s) ==> match
            config.workspace_folder {
            Some(wf) => vars::substitute_spec(wf@, project, env) == Some(s.workspace_folder),
            None => match path::file_name_spec(project) {
                Some(name) => s.workspace_folder == "/workspaces/"@ + name,
                None => s.workspace_folder == "/workspaces/workspace"@,
            },
        },
{
    reveal_strlit("/workspaces/");
    reveal_strlit("workspace");
    reveal_strlit("/workspaces/workspace");
    assert("/workspaces/"@ + "workspace"@ =~= "/workspaces/workspace"@);
}

/// A build takes its context, Dockerfile, stage and arguments from the build
/// section; context and Dockerfile may stand beside it, and the context is seen
/// from the directory of the configuration, which it is where none is given.
pub proof fn build_is_the_configured_one(
    config: DevcontainerConfig,
    base_dir: Seq<char>,
    name: Seq<char>,
)
    requires
        config.image is None,
    ensures
        source_spec(config, base_dir, name) matches ImageSourceView::Build {
            context,
            dockerfile,
            target,
            args,
            tag,
        } && {
            &&& tag == name + "-img"@
            &&& config.build matches Some(b) ==> {
                &&& b.context matches Some(c) ==> context == path::join_spec(base_dir, c@)
                &&& b.dockerfile matches Some(d) ==> dockerfile == Some(d@)
                &&& b.target matches Some(t) ==> target == Some(t@)
                &&& b.target is None ==> target is None
                &&& args == b.args.deep_view()
            }
            &&& config.build is None ==> target is None && args.len() == 0
            &&& (config.build matches Some(b) ==> b.context is None) ==> match config.context {
                Some(c) => context == path::join_spec(base_dir, c@),
                None => context == path::join_spec(base_dir, "."@),
            }
            &&& (config.build matches Some(b) ==> b.dockerfile is None) ==> match
                config.docker_file {
                Some(d) => dockerfile == Some(d@),
                None => dockerfile is None,
            }
        },
{
}

/// A container is run from the image that is named, or else built; it is named
/// after the project, and its arguments are those of the workspace, the mounts
/// and the user.
pub proof fn container_is_the_configured_one(
    config: DevcontainerConfig,
    config_path: Seq<char>,
    project: Seq<char>,
    remote: Option<Seq<char>>,
    env: Seq<table::Entry>,
)
    requires
        config.docker_compose_file is None,
    ensures
        load_spec_spec(config, config_path, project, remote, env) matches Ok(s) ==> (s.backend
            matches BackendView::Container { name, source, run_args, .. } && {
            &&& name == naming::container_name_spec(project)
            &&& match config.image {
                Some(img) => source == ImageSourceView::Image(img@),
                None => source is Build && source == source_spec(config, s.base_dir, name),
            }
            &&& run::run_args_spec(
                run::texts(config.run_args),
                config.workspace_mount.deep_view(),
                ports::listed(config.mounts),
                project,
                s.workspace_folder,
                env,
            ) == Some(run_args)
        }),
{
}

/// A compose project is driven from the directory of the configuration, with the
/// files and the service that are configured; a change of any of its files counts
/// as one of the configuration.
pub proof fn compose_is_the_configured_one(
    config: DevcontainerConfig,
    config_path: Seq<char>,
    project: Seq<char>,
    remote: Option<Seq<char>>,
    env: Seq<table::Entry>,
    file: Json,
    i: int,
)
    requires
        config.docker_compose_file == Some(file),
    ensures
        load_spec_spec(config, config_path, project, remote, env) matches Ok(s) ==> (s.backend
            matches BackendView::Compose { dir, files, service, project: own, .. } && {
            &&& dir == s.base_dir
            &&& config.service matches Some(v) && service == v@
            &&& own == naming::lower_spec(naming::container_name_spec(project))
            &&& file.kind matches JsonKind::Text(t) ==> files == seq![t@]
            &&& file.kind matches JsonKind::Array(a) ==> files == text_items(a@)
            &&& s.hash_extra.len() == files.len()
            &&& 0 <= i < files.len() ==> s.hash_extra[i] == path::join_spec(s.base_dir, files[i])
        }),
{
}

} // verus!
