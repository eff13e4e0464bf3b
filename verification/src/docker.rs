//! Commands for the docker CLI, run locally or on a remote host over ssh.
//!
//! With a remote, the docker CLI runs *on the remote host* (`ssh <host> docker
//! …`), so no local docker CLI is needed. Files cannot be passed by path then:
//! copies stream their bytes through the ssh pipe.
use vstd::prelude::*;

use crate::invocation;
use crate::invocation::{
    args1, args2, args3, args4, args5, args6, list, push, push_list, push_strs, Ended, Failure,
    Invocation, Job, Output,
};
use crate::num;
use crate::num::decimal;
use crate::path;
use crate::runtime::Runtime;
use crate::shell;
use crate::ssh;
use crate::text;
use crate::text::{alnum, cat, cat3, cat4, chars, full_lines};

verus! {

/// Where the markers of completed one-shot tasks stand in a container.
pub const GRAFT_STATE: &'static str = "/opt/graft/state";

/// `s` with each single quote turned into `'\''`.
pub open spec fn escaped_spec(s: Seq<char>) -> Seq<char>
    decreases s.len(),
{
    if s.len() == 0 {
        seq![]
    } else if s.last() == '\'' {
        escaped_spec(s.drop_last()) + "'\\''"@
    } else {
        escaped_spec(s.drop_last()).push(s.last())
    }
}

/// `s` in single quotes.
pub open spec fn shell_quote_spec(s: Seq<char>) -> Seq<char> {
    "'"@ + escaped_spec(s) + "'"@
}

/// POSIX single-quote escaping: wraps in single quotes, and turns any embedded
/// single quote into `'\''`. Safe for interpolation into an `sh -c` or ssh
/// string.
pub fn shell_quote(s: &str) -> (r: String)
    ensures
        r@ == shell_quote_spec(s@),
{
    let v = chars(s);
    let mut out = "'".to_string();
    assert(s@.take(0) =~= seq![]);
    for i in 0..v.len()
        invariant
            v@ == s@,
            out@ == "'"@ + escaped_spec(s@.take(i as int)),
    {
        assert(s@.take(i + 1).drop_last() =~= s@.take(i as int));
        let ghost before = out@;
        if v[i] == '\'' {
            out.append("'\\''");
        } else {
            out.push(v[i]);
        }
        assert(out@ =~= "'"@ + escaped_spec(s@.take(i + 1)));
    }
    assert(s@.take(s@.len() as int) =~= s@);
    out.append("'");
    out
}

/// A shell reads a quoted text as that text, whatever it holds, within the
/// current word.
pub proof fn lemma_read_quoted(r: shell::Reader, s: Seq<char>)
    requires
        !r.quoted,
        !r.escaped,
    ensures
        shell::read(r, shell_quote_spec(s)) == (shell::Reader {
            open: true,
            word: r.word + s,
            ..r
        }),
{
    reveal_strlit("'");
    assert("'"@ =~= seq!['\'']);
    let start = shell::read(r, "'"@);
    shell::lemma_read_one(r, '\'');
    lemma_read_escaped(start, s);
    shell::lemma_read_concat(r, "'"@, escaped_spec(s));
    shell::lemma_read_concat(r, "'"@ + escaped_spec(s), "'"@);
    shell::lemma_read_one(shell::read(r, "'"@ + escaped_spec(s)), '\'');
}

proof fn lemma_read_escaped(r: shell::Reader, s: Seq<char>)
    requires
        r.quoted,
        !r.escaped,
        r.open,
    ensures
        shell::read(r, escaped_spec(s)) == (shell::Reader { word: r.word + s, ..r }),
    decreases s.len(),
{
    if s.len() == 0 {
        assert(r.word + s =~= r.word);
    } else {
        let body = s.drop_last();
        lemma_read_escaped(r, body);
        let mid = shell::read(r, escaped_spec(body));
        assert(r.word + s =~= (r.word + body).push(s.last()));
        if s.last() == '\'' {
            reveal_strlit("'\\''");
            let e = "'\\''"@;
            assert(e =~= seq!['\'', '\\', '\'', '\'']);
            shell::lemma_read_concat(r, escaped_spec(body), e);
            assert(shell::read(mid, e) == shell::step(
                shell::step(shell::step(shell::step(mid, '\''), '\\'), '\''),
                '\'',
            )) by {
                assert(e.drop_last() =~= seq!['\'', '\\', '\'']);
                assert(e.drop_last().drop_last() =~= seq!['\'', '\\']);
                assert(e.drop_last().drop_last().drop_last() =~= seq!['\'']);
                assert(e.drop_last().drop_last().drop_last().drop_last() =~= seq![]);
                reveal_with_fuel(shell::read, 5);
            }
        } else {
            assert(escaped_spec(s).drop_last() =~= escaped_spec(body));
        }
    }
}

/// Behind a space, a quoted text is one word more.
pub proof fn lemma_next_quoted(words: Seq<Seq<char>>, s: Seq<char>)
    requires
        words.len() > 0,
    ensures
        shell::read(shell::behind(words), " "@ + shell_quote_spec(s)) == shell::behind(
            words.push(s),
        ),
{
    reveal_strlit(" ");
    assert(" "@ =~= seq![' ']);
    shell::lemma_read_concat(shell::behind(words), " "@, shell_quote_spec(s));
    shell::lemma_read_one(shell::behind(words), ' ');
    lemma_read_quoted(shell::step(shell::behind(words), ' '), s);
    assert(seq![] + s =~= s);
    assert(words.drop_last().push(words.last()) =~= words.push(s).drop_last());
}

// ── command lines ─────────────────────────────────────────────────────────────

/// `docker` and the arguments, each quoted, in one line.
pub open spec fn remote_script_spec(args: Seq<Seq<char>>) -> Seq<char>
    decreases args.len(),
{
    if args.len() == 0 {
        "docker"@
    } else {
        remote_script_spec(args.drop_last()) + " "@ + shell_quote_spec(args.last())
    }
}

/// Joins `docker <args>` into a single shell-quoted command line for the remote
/// login shell that ssh hands the command to.
pub fn remote_script(args: &[&str]) -> (r: String)
    ensures
        r@ == remote_script_spec(args.deep_view()),
{
    let mut s = "docker".to_string();
    script_args(&mut s, &list(args));
    s
}

/// Appends each argument, quoted, behind a space.
pub(crate) fn script_args(script: &mut String, args: &Vec<String>)
    requires
        old(script)@ == "docker"@,
    ensures
        final(script)@ == remote_script_spec(args.deep_view()),
{
    let ghost all = args.deep_view();
    for i in 0..args.len()
        invariant
            all == args.deep_view(),
            script@ == remote_script_spec(all.take(i as int)),
    {
        assert(all.take(i + 1).drop_last() =~= all.take(i as int));
        script.append(" ");
        script.append(shell_quote(args[i].as_str()).as_str());
    }
    assert(all.take(all.len() as int) =~= all);
}

/// What runs `docker <args>`: the CLI itself, or with a remote, ssh with the
/// command line, its standard input closed so that it leaves the terminal alone.
pub open spec fn command_spec(
    remote: Option<String>,
    args: Seq<Seq<char>>,
    rt: Runtime,
) -> invocation::InvocationView {
    match remote {
        None => invocation::InvocationView::plain("docker"@, args),
        Some(host) => ssh::script_spec(host@, remote_script_spec(args), rt).closed(),
    }
}

/// Builds a command that runs `docker <args>` against the configured daemon.
pub fn command(remote: &Option<String>, args: &[&str], rt: &Runtime) -> (r: Invocation)
    ensures
        r.deep_view() == command_spec(*remote, args.deep_view(), *rt),
{
    command_line(remote, list(args), rt)
}

/// Builds a command that runs `docker <args>` against the configured daemon.
pub fn command_line(remote: &Option<String>, args: Vec<String>, rt: &Runtime) -> (r: Invocation)
    ensures
        r.deep_view() == command_spec(*remote, args.deep_view(), *rt),
{
    match remote {
        None => Invocation::new("docker", args),
        Some(host) => {
            let script = remote_line(args);
            let mut c = ssh::script_command(host.as_str(), script.as_str(), rt);
            c.stdin_null = true;
            c
        },
    }
}

/// A character that a task's marker file may hold in its name.
pub open spec fn key_char(c: char) -> char {
    if text::is_alnum(c) || c == '-' || c == '_' || c == '.' {
        c
    } else {
        '_'
    }
}

/// The name of the marker file of a task.
pub open spec fn sanitize_key_spec(key: Seq<char>) -> Seq<char> {
    Seq::new(key.len(), |i: int| key_char(key[i]))
}

/// The name of the marker file of a task.
pub fn sanitize_key(key: &str) -> (r: String)
    ensures
        r@ == sanitize_key_spec(key@),
{
    let v = chars(key);
    let mut out = String::new();
    for i in 0..v.len()
        invariant
            v@ == key@,
            out@ == sanitize_key_spec(key@).take(i as int),
    {
        let c = v[i];
        if alnum(c) || c == '-' || c == '_' || c == '.' {
            out.push(c);
        } else {
            out.push('_');
        }
        assert(out@ =~= sanitize_key_spec(key@).take(i + 1));
    }
    assert(out@ =~= sanitize_key_spec(key@));
    out
}

// ── jobs ──────────────────────────────────────────────────────────────────────

/// Runs `docker` commands against the local daemon, or against the remote one
/// by running the docker CLI on the remote host over ssh.
#[derive(Debug, PartialEq, Eq)]
pub struct Docker {
    pub remote: Option<String>,
    pub runtime: Runtime,
}

/// The arguments of `docker exec`: as root where asked, then the container,
/// then the command.
pub open spec fn exec_args_spec(
    container: Seq<char>,
    argv: Seq<Seq<char>>,
    root: bool,
) -> Seq<Seq<char>> {
    seq!["exec"@] + (if root {
        seq!["-u"@, "0"@]
    } else {
        seq![]
    }) + seq![container] + argv
}

/// Each variable as `-e NAME=value`.
pub open spec fn env_args(env: Seq<(Seq<char>, Seq<char>)>) -> Seq<Seq<char>>
    decreases env.len(),
{
    if env.len() == 0 {
        seq![]
    } else {
        env_args(env.drop_last()) + seq!["-e"@, env.last().0 + "="@ + env.last().1]
    }
}

/// An option with its value, where there is one.
pub open spec fn option_args(option: Seq<char>, value: Option<Seq<char>>) -> Seq<Seq<char>> {
    match value {
        Some(v) => seq![option, v],
        None => seq![],
    }
}

/// The arguments of `docker exec` for a hook or an install script.
pub open spec fn exec_in_args(
    container: Seq<char>,
    workdir: Option<Seq<char>>,
    env: Seq<(Seq<char>, Seq<char>)>,
    argv: Seq<Seq<char>>,
    root: bool,
) -> Seq<Seq<char>> {
    seq!["exec"@] + (if root {
        seq!["-u"@, "0"@]
    } else {
        seq![]
    }) + option_args("--workdir"@, workdir) + env_args(env) + seq![container] + argv
}

/// A command in a container as a job: its failure tells the command.
pub open spec fn exec_job(
    command: invocation::InvocationView,
    argv: Seq<Seq<char>>,
) -> invocation::JobView {
    invocation::JobView {
        command,
        context: "spawning docker exec"@,
        failure: invocation::FailureView::Exec { argv, stderr: None },
    }
}

/// The marker file of a task.
pub open spec fn marker_path(key: Seq<char>) -> Seq<char> {
    GRAFT_STATE@ + "/"@ + sanitize_key_spec(key)
}

impl Docker {
    /// What runs `docker <args>` against this daemon.
    pub open spec fn command_spec(self, args: Seq<Seq<char>>) -> invocation::InvocationView {
        command_spec(self.remote, args, self.runtime)
    }

    /// A command in a container, as a job.
    pub open spec fn exec_spec(
        self,
        container: Seq<char>,
        argv: Seq<Seq<char>>,
        root: bool,
    ) -> invocation::JobView {
        exec_job(self.command_spec(exec_args_spec(container, argv, root)), argv)
    }

    /// A hook or an install script in a container, as a job.
    pub open spec fn exec_in_spec(
        self,
        container: Seq<char>,
        workdir: Option<Seq<char>>,
        env: Seq<(Seq<char>, Seq<char>)>,
        argv: Seq<Seq<char>>,
        root: bool,
    ) -> invocation::JobView {
        exec_job(self.command_spec(exec_in_args(container, workdir, env, argv, root)), argv)
    }

    /// Tests for the marker of a task.
    pub open spec fn done_spec(self, container: Seq<char>, key: Seq<char>)
        -> invocation::InvocationView {
        self.command_spec(
            exec_args_spec(container, seq!["test"@, "-e"@, marker_path(key)], false),
        )
    }

    /// Makes the marker of a task, as root.
    pub open spec fn mark_spec(self, container: Seq<char>, key: Seq<char>) -> invocation::JobView {
        self.exec_spec(
            container,
            seq![
                "sh"@,
                "-c"@,
                "mkdir -p "@ + GRAFT_STATE@ + " && : > "@ + shell_quote_spec(marker_path(key)),
            ],
            true,
        )
    }

    /// The docker of a remote, or the local one.
    pub fn new(remote: &Option<String>, rt: &Runtime) -> (r: Self)
        ensures
            r.remote == *remote,
            r.runtime == *rt,
    {
        Docker { remote: remote.clone(), runtime: rt.copy() }
    }

    fn command(&self, args: Vec<String>) -> (r: Invocation)
        ensures
            r.deep_view() == self.command_spec(args.deep_view()),
    {
        command_line(&self.remote, args, &self.runtime)
    }

    /// Builds the `exec [-u 0] <container> <argv>` argument list. `root` forces
    /// the command to run as uid 0 regardless of the image's `USER`.
    pub fn exec_args(container: &str, argv: &Vec<String>, root: bool) -> (r: Vec<String>)
        ensures
            r.deep_view() == exec_args_spec(container@, argv.deep_view(), root),
    {
        let mut a = args1("exec");
        if root {
            push(&mut a, "-u");
            push(&mut a, "0");
        }
        push(&mut a, container);
        push_list(&mut a, argv);
        assert(a.deep_view() =~= exec_args_spec(container@, argv.deep_view(), root));
        a
    }

    /// Runs `docker exec <container> <argv>` as the container's default user.
    pub fn exec(&self, container: &str, argv: &[&str]) -> (r: Job)
        ensures
            r.deep_view() == self.exec_spec(container@, argv.deep_view(), false),
    {
        self.exec_with(container, list(argv), false)
    }

    /// Like [`exec`](Self::exec) but runs as root (`-u 0`), for writes into
    /// root-owned paths.
    pub fn exec_root(&self, container: &str, argv: &[&str]) -> (r: Job)
        ensures
            r.deep_view() == self.exec_spec(container@, argv.deep_view(), true),
    {
        self.exec_with(container, list(argv), true)
    }

    /// Runs `docker exec [-u 0] <container> <argv>`.
    pub fn exec_with(&self, container: &str, argv: Vec<String>, root: bool) -> (r: Job)
        ensures
            r.deep_view() == self.exec_spec(container@, argv.deep_view(), root),
    {
        let args = Self::exec_args(container, &argv, root);
        exec_job_of(self.command(args), argv)
    }

    /// Runs `docker exec <container> <argv>` as a test.
    fn exec_test(&self, container: &str, argv: Vec<String>) -> (r: Invocation)
        ensures
            r.deep_view() == self.command_spec(
                exec_args_spec(container@, argv.deep_view(), false),
            ),
    {
        self.command(Self::exec_args(container, &argv, false))
    }

    /// Runs `docker exec [-u 0] [--workdir W] [-e K=V ...] <container> <argv>`.
    /// Used for lifecycle hooks, which run as the container's default user, and
    /// feature install scripts, which run as root.
    pub fn exec_in(
        &self,
        container: &str,
        workdir: Option<&str>,
        env: &[(String, String)],
        argv: &[&str],
        root: bool,
    ) -> (r: Job)
        ensures
            r.deep_view() == self.exec_in_spec(
                container@,
                workdir.deep_view(),
                env.deep_view(),
                argv.deep_view(),
                root,
            ),
    {
        self.exec_in_with(container, workdir, env, list(argv), root)
    }

    /// The same for a list of owned strings.
    pub fn exec_in_with(
        &self,
        container: &str,
        workdir: Option<&str>,
        env: &[(String, String)],
        argv: Vec<String>,
        root: bool,
    ) -> (r: Job)
        ensures
            r.deep_view() == self.exec_in_spec(
                container@,
                workdir.deep_view(),
                env.deep_view(),
                argv.deep_view(),
                root,
            ),
    {
        let mut args = args1("exec");
        if root {
            push(&mut args, "-u");
            push(&mut args, "0");
        }
        if let Some(wd) = workdir {
            push(&mut args, "--workdir");
            push(&mut args, wd);
        }
        let ghost head = args.deep_view();
        let ghost pairs = env.deep_view();
        for i in 0..env.len()
            invariant
                pairs == env.deep_view(),
                args.deep_view() == head + env_args(pairs.take(i as int)),
        {
            assert(pairs.take(i + 1).drop_last() =~= pairs.take(i as int));
            let pair = cat3(env[i].0.as_str(), "=", env[i].1.as_str());
            push(&mut args, "-e");
            push(&mut args, pair.as_str());
            assert(args.deep_view() =~= head + env_args(pairs.take(i + 1)));
        }
        assert(pairs.take(pairs.len() as int) =~= pairs);
        push(&mut args, container);
        push_list(&mut args, &argv);
        assert(args.deep_view() =~= exec_in_args(
            container@,
            workdir.deep_view(),
            pairs,
            argv.deep_view(),
            root,
        ));
        exec_job_of(self.command(args), argv)
    }

    /// Runs `docker exec <container> <argv>` for its output.
    pub fn exec_capture(&self, container: &str, argv: &[&str]) -> (r: Job)
        ensures
            r.deep_view() == self.exec_spec(container@, argv.deep_view(), false),
    {
        self.exec_with(container, list(argv), false)
    }

    /// Like [`exec_capture`](Self::exec_capture) but runs as `user`, or as the
    /// container's default user where there is none.
    pub fn exec_capture_as(&self, container: &str, user: Option<&str>, argv: &[&str]) -> (r: Job)
        ensures
            r.deep_view() == exec_job(
                self.command_spec(
                    seq!["exec"@] + option_args("-u"@, user.deep_view()) + seq![container@]
                        + argv.deep_view(),
                ),
                argv.deep_view(),
            ),
    {
        let mut args = list(&["exec"]);
        if let Some(u) = user {
            push_strs(&mut args, &["-u", u]);
        }
        push(&mut args, container);
        push_strs(&mut args, argv);
        assert(args.deep_view() =~= seq!["exec"@] + option_args("-u"@, user.deep_view()) + seq![
            container@,
        ] + argv.deep_view());
        exec_job_of(self.command(args), list(argv))
    }

    /// Tells the mount destination paths inside the container.
    pub fn inspect_mounts(&self, container: &str) -> (r: Invocation)
        ensures
            r.deep_view() == self.command_spec(
                seq![
                    "inspect"@,
                    "--format"@,
                    "{{range .Mounts}}{{.Destination}}\n{{end}}"@,
                    container@,
                ],
            ),
    {
        self.command(
            args4("inspect", "--format", "{{range .Mounts}}{{.Destination}}\n{{end}}", container),
        )
    }

    /// Succeeds if `path` is a regular file inside the container.
    pub fn file_exists(&self, container: &str, path: &str) -> (r: Invocation)
        ensures
            r.deep_view() == self.command_spec(
                exec_args_spec(container@, seq!["test"@, "-f"@, path@], false),
            ),
    {
        self.exec_test(container, args3("test", "-f", path))
    }

    /// Succeeds if `path` exists (file or directory) inside the container.
    pub fn path_exists(&self, container: &str, path: &str) -> (r: Invocation)
        ensures
            r.deep_view() == self.command_spec(
                exec_args_spec(container@, seq!["test"@, "-e"@, path@], false),
            ),
    {
        self.exec_test(container, args3("test", "-e", path))
    }

    /// Succeeds if `cmd` is on PATH inside the container.
    pub fn has_command(&self, container: &str, cmd: &str) -> (r: Invocation)
        ensures
            r.deep_view() == self.command_spec(
                exec_args_spec(
                    container@,
                    seq![
                        "sh"@,
                        "-c"@,
                        "command -v "@ + shell_quote_spec(cmd@) + " >/dev/null 2>&1"@,
                    ],
                    false,
                ),
            ),
    {
        let script = cat3("command -v ", shell_quote(cmd).as_str(), " >/dev/null 2>&1");
        self.exec_test(container, args3("sh", "-c", script.as_str()))
    }

    /// `mkdir -p` for one or more directories inside the container, as root.
    pub fn mkdir_p(&self, container: &str, dirs: &[&str]) -> (r: Job)
        ensures
            r.deep_view() == self.exec_spec(
                container@,
                seq!["mkdir"@, "-p"@] + dirs.deep_view(),
                true,
            ),
    {
        let mut argv = args2("mkdir", "-p");
        push_strs(&mut argv, dirs);
        self.exec_with(container, argv, true)
    }

    /// Succeeds if the one-shot task `key` has already completed in this
    /// container.
    pub fn task_done(&self, container: &str, key: &str) -> (r: Invocation)
        ensures
            r.deep_view() == self.done_spec(container@, key@),
    {
        let path = cat3(GRAFT_STATE, "/", sanitize_key(key).as_str());
        self.path_exists(container, path.as_str())
    }

    /// Records that the one-shot task `key` completed.
    pub fn mark_task_done(&self, container: &str, key: &str) -> (r: Job)
        ensures
            r.deep_view() == self.mark_spec(container@, key@),
    {
        let path = cat3(GRAFT_STATE, "/", sanitize_key(key).as_str());
        let mut script = cat3("mkdir -p ", GRAFT_STATE, " && : > ");
        script.append(shell_quote(path.as_str()).as_str());
        self.exec_with(container, args3("sh", "-c", script.as_str()), true)
    }
}

// ── copies ────────────────────────────────────────────────────────────────────

/// How something is copied into a container.
#[derive(Debug, PartialEq, Eq)]
pub enum Transfer {
    /// By one command.
    Direct(Job),
    /// By what `pack` writes going into `unpack`, once `prepare` has succeeded.
    Packed { prepare: Job, pack: Job, unpack: Job },
    /// By the contents of a local file going into a command.
    Streamed { file: String, sink: Job },
}

/// What a [`Transfer`] says.
pub enum TransferView {
    Direct(invocation::JobView),
    Packed {
        prepare: invocation::JobView,
        pack: invocation::JobView,
        unpack: invocation::JobView,
    },
    Streamed { file: Seq<char>, sink: invocation::JobView },
}

impl DeepView for Transfer {
    type V = TransferView;

    open spec fn deep_view(&self) -> TransferView {
        match self {
            Transfer::Direct(job) => TransferView::Direct(job.deep_view()),
            Transfer::Packed { prepare, pack, unpack } => TransferView::Packed {
                prepare: prepare.deep_view(),
                pack: pack.deep_view(),
                unpack: unpack.deep_view(),
            },
            Transfer::Streamed { file, sink } => TransferView::Streamed {
                file: file@,
                sink: sink.deep_view(),
            },
        }
    }
}

/// How something is copied out of a container.
#[derive(Debug, PartialEq, Eq)]
pub enum Fetch {
    /// By one command.
    Direct(Job),
    /// By what `source` writes going into `unpack`, which leaves it in the fresh
    /// directory `staging`; then `entry` is moved to `dest`.
    Unpacked {
        source: Job,
        unpack: Job,
        staging: String,
        entry: String,
        dest: String,
        dest_parent: Option<String>,
    },
}

/// What a [`Fetch`] says.
pub enum FetchView {
    Direct(invocation::JobView),
    Unpacked {
        source: invocation::JobView,
        unpack: invocation::JobView,
        staging: Seq<char>,
        entry: Seq<char>,
        dest: Seq<char>,
        dest_parent: Option<Seq<char>>,
    },
}

impl DeepView for Fetch {
    type V = FetchView;

    open spec fn deep_view(&self) -> FetchView {
        match self {
            Fetch::Direct(job) => FetchView::Direct(job.deep_view()),
            Fetch::Unpacked { source, unpack, staging, entry, dest, dest_parent } =>
                FetchView::Unpacked {
                source: source.deep_view(),
                unpack: unpack.deep_view(),
                staging: staging@,
                entry: entry@,
                dest: dest@,
                dest_parent: dest_parent.deep_view(),
            },
        }
    }
}

/// The message of a copy that failed.
pub open spec fn cp_failed(from: Seq<char>, to: Seq<char>) -> invocation::FailureView {
    invocation::FailureView::Message("docker cp failed: "@ + from + " -> "@ + to)
}

fn cp_failure(from: &str, to: &str) -> (r: Failure)
    ensures
        r.deep_view() == cp_failed(from@, to@),
{
    Failure::Message(cat4("docker cp failed: ", from, " -> ", to))
}

/// A path inside a container, as `docker cp` takes it.
pub open spec fn inside(container: Seq<char>, path: Seq<char>) -> Seq<char> {
    container + ":"@ + path
}

/// What two commands joined by a pipe amount to: whichever could not be started
/// is told first, then a failure of the first, then one of the second.
pub open spec fn piped_spec(
    first: invocation::JobView,
    first_ended: Ended,
    second: invocation::JobView,
    second_ended: Ended,
) -> Result<(), invocation::FailureView> {
    if first_ended is NotStarted {
        first.judged(first_ended)
    } else if second_ended is NotStarted {
        second.judged(second_ended)
    } else if first.judged(first_ended) is Err {
        first.judged(first_ended)
    } else {
        second.judged(second_ended)
    }
}

/// What two commands joined by a pipe amount to.
pub fn piped(first: Job, first_ended: Ended, second: Job, second_ended: Ended) -> (r: Result<
    (),
    Failure,
>)
    ensures
        invocation::result_view(r) == piped_spec(
            first.deep_view(),
            first_ended,
            second.deep_view(),
            second_ended,
        ),
{
    match second_ended {
        Ended::NotStarted(cause) => {
            match first_ended {
                Ended::NotStarted(earlier) => first.judge(Ended::NotStarted(earlier)),
                Ended::Exited(_) => second.judge(Ended::NotStarted(cause)),
            }
        },
        Ended::Exited(code) => match first.judge(first_ended) {
            Ok(()) => second.judge(Ended::Exited(code)),
            Err(f) => Err(f),
        },
    }
}

impl Docker {
    /// A copy into a container without a local docker CLI: a directory is
    /// packed, and unpacked by the daemon into `dest`, which mirrors it; a file
    /// is streamed into `dest`, as root.
    pub open spec fn cp_remote_spec(
        self,
        host: Seq<char>,
        src: Seq<char>,
        container: Seq<char>,
        dest: Seq<char>,
        src_is_dir: bool,
    ) -> TransferView {
        if src_is_dir {
            TransferView::Packed {
                prepare: self.exec_spec(container, seq!["mkdir"@, "-p"@] + seq![dest], true),
                pack: invocation::JobView {
                    command: invocation::InvocationView::plain(
                        "tar"@,
                        seq!["-C"@, src, "-cf"@, "-"@, "."@],
                    ).closed(),
                    context: "spawning tar for docker cp"@,
                    failure: invocation::FailureView::Message("tar failed packing "@ + src),
                },
                unpack: invocation::JobView {
                    command: ssh::script_spec(
                        host,
                        remote_script_spec(seq!["cp"@, "-"@, inside(container, dest)]),
                        self.runtime,
                    ),
                    context: "spawning ssh docker cp"@,
                    failure: cp_failed(src, inside(container, dest)),
                },
            }
        } else {
            TransferView::Streamed {
                file: src,
                sink: invocation::JobView {
                    command: ssh::script_spec(
                        host,
                        remote_script_spec(
                            seq![
                                "exec"@,
                                "-u"@,
                                "0"@,
                                "-i"@,
                                container,
                                "sh"@,
                                "-c"@,
                                "cat > "@ + shell_quote_spec(dest),
                            ],
                        ),
                        self.runtime,
                    ),
                    context: "spawning ssh docker exec for cp"@,
                    failure: invocation::FailureView::Message(
                        "docker cp (stream) failed: "@ + src + " -> "@ + inside(container, dest),
                    ),
                },
            }
        }
    }

    /// A copy into a container.
    pub open spec fn cp_spec(
        self,
        src: Seq<char>,
        container: Seq<char>,
        dest: Seq<char>,
        src_is_dir: bool,
    ) -> TransferView {
        match self.remote {
            None => TransferView::Direct(
                invocation::JobView {
                    command: self.command_spec(seq!["cp"@, src, inside(container, dest)]),
                    context: "spawning docker cp"@,
                    failure: cp_failed(src, inside(container, dest)),
                },
            ),
            Some(host) => self.cp_remote_spec(host@, src, container, dest, src_is_dir),
        }
    }

    /// `docker cp <src> <container>:<dest>`. With a remote, `src` is a *local*
    /// path that the remote docker cannot see, so the bytes are streamed over
    /// ssh instead; then it matters whether `src` is a directory.
    pub fn cp(&self, src: &str, container: &str, dest: &str, src_is_dir: bool) -> (r: Transfer)
        ensures
            r.deep_view() == self.cp_spec(src@, container@, dest@, src_is_dir),
    {
        match &self.remote {
            None => {
                let target = cat3(container, ":", dest);
                Transfer::Direct(
                    Job {
                        command: self.command(args3("cp", src, target.as_str())),
                        context: "spawning docker cp".to_string(),
                        failure: cp_failure(src, target.as_str()),
                    },
                )
            },
            Some(host) => self.cp_remote(host.as_str(), src, container, dest, src_is_dir),
        }
    }

    fn cp_remote(&self, host: &str, src: &str, container: &str, dest: &str, src_is_dir: bool) -> (r:
        Transfer)
        ensures
            r.deep_view() == self.cp_remote_spec(host@, src@, container@, dest@, src_is_dir),
    {
        let target = cat3(container, ":", dest);
        if src_is_dir {
            let mut argv = args2("mkdir", "-p");
            push(&mut argv, dest);
            assert(argv.deep_view() =~= seq!["mkdir"@, "-p"@] + seq![dest@]);
            let mut tar = Invocation::new("tar", args5("-C", src, "-cf", "-", "."));
            tar.stdin_null = true;
            let script = remote_line(args3("cp", "-", target.as_str()));
            Transfer::Packed {
                prepare: self.exec_with(container, argv, true),
                pack: Job {
                    command: tar,
                    context: "spawning tar for docker cp".to_string(),
                    failure: Failure::Message(cat("tar failed packing ", src)),
                },
                unpack: Job {
                    command: ssh::script_command(host, script.as_str(), &self.runtime),
                    context: "spawning ssh docker cp".to_string(),
                    failure: cp_failure(src, target.as_str()),
                },
            }
        } else {
            let inner = cat("cat > ", shell_quote(dest).as_str());
            let mut argv = args6("exec", "-u", "0", "-i", container, "sh");
            push(&mut argv, "-c");
            push(&mut argv, inner.as_str());
            assert(argv.deep_view() =~= seq![
                "exec"@,
                "-u"@,
                "0"@,
                "-i"@,
                container@,
                "sh"@,
                "-c"@,
                inner@,
            ]);
            let script = remote_line(argv);
            Transfer::Streamed {
                file: src.to_string(),
                sink: Job {
                    command: ssh::script_command(host, script.as_str(), &self.runtime),
                    context: "spawning ssh docker exec for cp".to_string(),
                    failure: Failure::Message(
                        cat4("docker cp (stream) failed: ", src, " -> ", target.as_str()),
                    ),
                },
            }
        }
    }

    /// The directory that a copy out of a container is unpacked in.
    pub open spec fn staging_spec(self) -> Seq<char> {
        path::join_spec(
            self.runtime.temp_dir@,
            "graft-cpout-"@ + num::dec(self.runtime.pid as nat),
        )
    }

    /// A copy out of a container without a local docker CLI: the single entry
    /// that the remote docker packs, named after `src`, is unpacked and moved.
    pub open spec fn cp_out_remote_spec(
        self,
        host: Seq<char>,
        container: Seq<char>,
        src: Seq<char>,
        local_dst: Seq<char>,
    ) -> FetchView {
        let from = inside(container, src);
        FetchView::Unpacked {
            source: invocation::JobView {
                command: ssh::script_spec(
                    host,
                    remote_script_spec(seq!["cp"@, from, "-"@]),
                    self.runtime,
                ).closed(),
                context: "spawning ssh docker cp"@,
                failure: cp_failed(from, local_dst),
            },
            unpack: invocation::JobView {
                command: invocation::InvocationView::plain(
                    "tar"@,
                    seq!["-xf"@, "-"@, "-C"@, self.staging_spec()],
                ),
                context: "spawning tar to unpack cp"@,
                failure: cp_failed(from, local_dst),
            },
            staging: self.staging_spec(),
            entry: path::join_spec(
                self.staging_spec(),
                match path::file_name_spec(src) {
                    Some(name) => name,
                    None => ""@,
                },
            ),
            dest: local_dst,
            dest_parent: path::parent_spec(local_dst),
        }
    }

    /// A copy out of a container.
    pub open spec fn cp_out_spec(
        self,
        container: Seq<char>,
        src: Seq<char>,
        local_dst: Seq<char>,
    ) -> FetchView {
        match self.remote {
            None => FetchView::Direct(
                invocation::JobView {
                    command: self.command_spec(seq!["cp"@, inside(container, src), local_dst]),
                    context: "spawning docker cp"@,
                    failure: cp_failed(inside(container, src), local_dst),
                },
            ),
            Some(host) => self.cp_out_remote_spec(host@, container, src, local_dst),
        }
    }

    /// `docker cp <container>:<src> <local_dst>` (works on stopped containers).
    /// With a remote, the remote docker writes a tar to its output, which is
    /// piped back over ssh and unpacked here.
    pub fn cp_out(&self, container: &str, src: &str, local_dst: &str) -> (r: Fetch)
        ensures
            r.deep_view() == self.cp_out_spec(container@, src@, local_dst@),
    {
        match &self.remote {
            None => {
                let from = cat3(container, ":", src);
                Fetch::Direct(
                    Job {
                        command: self.command(args3("cp", from.as_str(), local_dst)),
                        context: "spawning docker cp".to_string(),
                        failure: cp_failure(from.as_str(), local_dst),
                    },
                )
            },
            Some(host) => self.cp_out_remote(host.as_str(), container, src, local_dst),
        }
    }

    fn cp_out_remote(&self, host: &str, container: &str, src: &str, local_dst: &str) -> (r: Fetch)
        ensures
            r.deep_view() == self.cp_out_remote_spec(host@, container@, src@, local_dst@),
    {
        let from = cat3(container, ":", src);
        let script = remote_line(args3("cp", from.as_str(), "-"));
        let mut source = ssh::script_command(host, script.as_str(), &self.runtime);
        source.stdin_null = true;
        let dir = cat("graft-cpout-", decimal(self.runtime.pid as u64).as_str());
        let staging = path::join(self.runtime.temp_dir.as_str(), dir.as_str());
        let name = match path::file_name(src) {
            Some(name) => name,
            None => "",
        };
        let entry = path::join(staging.as_str(), name);
        let dest_parent = match path::parent(local_dst) {
            Some(p) => Some(p.to_string()),
            None => None,
        };
        Fetch::Unpacked {
            source: Job {
                command: source,
                context: "spawning ssh docker cp".to_string(),
                failure: cp_failure(from.as_str(), local_dst),
            },
            unpack: Job {
                command: Invocation::new("tar", args4("-xf", "-", "-C", staging.as_str())),
                context: "spawning tar to unpack cp".to_string(),
                failure: cp_failure(from.as_str(), local_dst),
            },
            staging,
            entry,
            dest: local_dst.to_string(),
            dest_parent,
        }
    }
}

/// The mount destinations that an inspection told: none where it failed.
pub open spec fn mounts_spec(out: Output) -> Seq<Seq<char>> {
    if out.ended.succeeded() {
        text::full_lines_spec(text::utf8_lossy(out.stdout@))
    } else {
        seq![]
    }
}

/// The mount destinations that an inspection told.
pub fn mounts(out: &Output) -> (r: Vec<String>)
    ensures
        r.deep_view() == mounts_spec(*out),
{
    if !out.ended.success() {
        let none: Vec<String> = Vec::new();
        assert(none.deep_view() =~= seq![]);
        return none;
    }
    full_lines(text::lossy(&out.stdout).as_str())
}

// ── laws ──────────────────────────────────────────────────────────────────────

/// A quoted text is read by a shell as exactly that text, whatever it holds.
pub proof fn quoted_text_reads_back(s: Seq<char>)
    ensures
        shell::shell_words(shell_quote_spec(s)) == Some(seq![s]),
{
    lemma_read_quoted(shell::fresh(), s);
    assert(shell::fresh().word + s =~= s);
    assert(shell::fresh().words.push(s) =~= seq![s]);
}

/// Distinct texts stay distinct when they are quoted.
pub proof fn quoting_is_injective(a: Seq<char>, b: Seq<char>)
    requires
        shell_quote_spec(a) == shell_quote_spec(b),
    ensures
        a == b,
{
    quoted_text_reads_back(a);
    quoted_text_reads_back(b);
    assert(seq![a][0] == seq![b][0]);
}

/// The remote shell reads a remote command line as `docker` with exactly the
/// arguments that it was made of.
pub proof fn remote_script_reads_back(args: Seq<Seq<char>>)
    ensures
        shell::shell_words(remote_script_spec(args)) == Some(seq!["docker"@] + args),
{
    reveal_strlit("docker");
    lemma_read_script(args);
    let r = shell::read(shell::fresh(), remote_script_spec(args));
    assert(r.words.push(r.word) =~= seq!["docker"@] + args);
}

proof fn lemma_read_script(args: Seq<Seq<char>>)
    ensures
        shell::read(shell::fresh(), remote_script_spec(args)) == shell::behind(
            seq!["docker"@] + args,
        ),
    decreases args.len(),
{
    reveal_strlit("docker");
    let all = seq!["docker"@] + args;
    if args.len() == 0 {
        shell::lemma_read_ordinary(shell::fresh(), "docker"@);
        assert(seq![] + "docker"@ =~= "docker"@);
        assert(all.drop_last() =~= seq![]);
    } else {
        let init = args.drop_last();
        lemma_read_script(init);
        let piece = " "@ + shell_quote_spec(args.last());
        assert(remote_script_spec(args) =~= remote_script_spec(init) + piece);
        shell::lemma_read_concat(shell::fresh(), remote_script_spec(init), piece);
        lemma_next_quoted(seq!["docker"@] + init, args.last());
        assert((seq!["docker"@] + init).push(args.last()) =~= all);
    }
}

/// A marker stands in the directory of the markers, whatever its task is
/// called, but for a task without a name and for `.` and `..`.
pub proof fn marker_stays_in_its_directory(key: Seq<char>)
    requires
        key.len() > 0,
        key != "."@,
        key != ".."@,
    ensures
        path::parent_spec(marker_path(key)) == Some(GRAFT_STATE@),
        path::file_name_spec(marker_path(key)) == Some(sanitize_key_spec(key)),
{
    reveal_strlit("/opt/graft/state");
    reveal_strlit("/");
    reveal_strlit(".");
    reveal_strlit("..");
    let name = sanitize_key_spec(key);
    let p = marker_path(key);
    let n = GRAFT_STATE@.len() as int;
    assert forall|i: int| 0 <= i < name.len() implies #[trigger] p[n + 1 + i] == name[i]
        && name[i] != '/' by {}
    assert(p.last() == name.last());
    if name.last() == '.' {
        if name.len() == 1 {
            assert(key =~= "."@);
        } else {
            assert(p[p.len() - 2] == name[name.len() - 2]);
        }
    }
    assert(path::strip_tail_spec(p) == p);
    assert(p[n] == '/');
    text::lemma_rindex(p, '/');
    assert(text::rindex_spec(p, '/') == Some(n)) by {
        assert forall|j: int| n < j < p.len() implies p[j] != '/' by {
            assert(p[n + 1 + (j - n - 1)] == name[j - n - 1]);
        }
    }
    assert(p.skip(n + 1) =~= name);
    assert(name != "."@ && name != ".."@) by {
        if name == "."@ {
            assert(key[0] == '.');
            assert(key =~= "."@);
        }
        if name == ".."@ {
            assert(name[0] == '.' && name[1] == '.');
            assert(key[0] == '.' && key[1] == '.');
            assert(key =~= ".."@);
        }
    }
    let up = p.take(n + 1);
    assert(up =~= GRAFT_STATE@.push('/'));
    assert(up.drop_last() =~= GRAFT_STATE@);
    reveal_with_fuel(path::strip_tail_spec, 3);
}

/// The files that there are in a container once a task was recorded: those that
/// there were, the directories that its marker stands in, and the marker.
pub open spec fn files_once_marked(files: Set<Seq<char>>, key: Seq<char>) -> Set<Seq<char>> {
    files.insert("/opt"@).insert("/opt/graft"@).insert(GRAFT_STATE@).insert(marker_path(key))
}

/// What tests for a marker, argument by argument.
pub proof fn lemma_done_args(docker: Docker, container: Seq<char>, key: Seq<char>)
    ensures
        docker.done_spec(container, key) == docker.command_spec(
            seq!["exec"@, container, "test"@, "-e"@, marker_path(key)],
        ),
{
    assert(exec_args_spec(container, seq!["test"@, "-e"@, marker_path(key)], false) =~= seq![
        "exec"@,
        container,
        "test"@,
        "-e"@,
        marker_path(key),
    ]);
}

/// A task that was recorded is found done: the file that is made is the one that
/// is tested for. Whether any other task is found done is not changed by it.
/// Tasks without a name, `.` and `..` are no such others: what they are tested by
/// is a directory.
pub proof fn marked_task_is_found_done(
    docker: Docker,
    container: Seq<char>,
    files: Set<Seq<char>>,
    key: Seq<char>,
    other: Seq<char>,
)
    requires
        sanitize_key_spec(other) != sanitize_key_spec(key),
        other.len() > 0,
        other != "."@,
        other != ".."@,
    ensures
        docker.mark_spec(container, key) == docker.exec_spec(
            container,
            seq![
                "sh"@,
                "-c"@,
                "mkdir -p /opt/graft/state && : > "@ + shell_quote_spec(marker_path(key)),
            ],
            true,
        ),
        shell::shell_words(shell_quote_spec(marker_path(key))) == Some(seq![marker_path(key)]),
        docker.done_spec(container, key) == docker.command_spec(
            seq!["exec"@, container, "test"@, "-e"@, marker_path(key)],
        ),
        files_once_marked(files, key).contains(marker_path(key)),
        marker_path(other) != marker_path(key),
        files_once_marked(files, key).contains(marker_path(other)) == files.contains(
            marker_path(other),
        ),
{
    reveal_strlit("mkdir -p /opt/graft/state && : > ");
    reveal_strlit("mkdir -p ");
    reveal_strlit(" && : > ");
    reveal_strlit("/opt/graft/state");
    reveal_strlit("/opt/graft");
    reveal_strlit("/opt");
    reveal_strlit("/");
    assert("mkdir -p "@ + GRAFT_STATE@ + " && : > "@ =~= "mkdir -p /opt/graft/state && : > "@);
    quoted_text_reads_back(marker_path(key));
    lemma_done_args(docker, container, key);
    let n = (GRAFT_STATE@ + "/"@).len() as int;
    assert(marker_path(key).skip(n) =~= sanitize_key_spec(key));
    assert(marker_path(other).skip(n) =~= sanitize_key_spec(other));
    assert(marker_path(other).len() > GRAFT_STATE@.len());
}

fn remote_line(args: Vec<String>) -> (r: String)
    ensures
        r@ == remote_script_spec(args.deep_view()),
{
    let mut s = "docker".to_string();
    script_args(&mut s, &args);
    s
}

fn exec_job_of(command: Invocation, argv: Vec<String>) -> (r: Job)
    ensures
        r.deep_view() == exec_job(command.deep_view(), argv.deep_view()),
{
    Job {
        command,
        context: "spawning docker exec".to_string(),
        failure: Failure::Exec { argv, stderr: None },
    }
}

/// Each variable is handed to a command as one option, in order.
pub proof fn every_variable_is_handed_over(env: Seq<(Seq<char>, Seq<char>)>, i: int)
    requires
        0 <= i < env.len(),
    ensures
        env_args(env).len() == 2 * env.len(),
        env_args(env)[2 * i] == "-e"@,
        env_args(env)[2 * i + 1] == env[i].0 + "="@ + env[i].1,
    decreases env.len(),
{
    let init = env.drop_last();
    if init.len() > 0 {
        every_variable_is_handed_over(
            init,
            if i < init.len() {
                i
            } else {
                0
            },
        );
    } else {
        assert(env_args(init).len() == 0);
    }
}

/// A copy goes into the container from the local path to the place that is
/// asked for, here and with a remote, where the bytes go through the connection:
/// those of a directory are unpacked at the place, which is made first, and those
/// of a file are written to it.
pub proof fn copies_go_where_they_are_told(
    docker: Docker,
    src: Seq<char>,
    container: Seq<char>,
    dest: Seq<char>,
    src_is_dir: bool,
)
    ensures
        match docker.cp_spec(src, container, dest, src_is_dir) {
            TransferView::Direct(job) => docker.remote is None && job.command
                == invocation::InvocationView::plain(
                "docker"@,
                seq!["cp"@, src, container + ":"@ + dest],
            ),
            TransferView::Packed { prepare, pack, unpack } => {
                &&& src_is_dir
                &&& prepare.command == docker.command_spec(
                    seq!["exec"@, "-u"@, "0"@, container, "mkdir"@, "-p"@, dest],
                )
                &&& pack.command.program == "tar"@
                &&& pack.command.args == seq!["-C"@, src, "-cf"@, "-"@, "."@]
                &&& docker.remote matches Some(host) && exists|line: Seq<char>|
                    {
                        &&& #[trigger] shell::shell_words(line) == Some(
                            seq!["docker"@, "cp"@, "-"@, container + ":"@ + dest],
                        )
                        &&& unpack.command == ssh::script_spec(host@, line, docker.runtime)
                    }
            },
            TransferView::Streamed { file, sink } => {
                &&& !src_is_dir
                &&& file == src
                &&& docker.remote matches Some(host) && exists|line: Seq<char>|
                    {
                        &&& #[trigger] shell::shell_words(line) == Some(
                            seq![
                                "docker"@,
                                "exec"@,
                                "-u"@,
                                "0"@,
                                "-i"@,
                                container,
                                "sh"@,
                                "-c"@,
                                "cat > "@ + shell_quote_spec(dest),
                            ],
                        )
                        &&& sink.command == ssh::script_spec(host@, line, docker.runtime)
                    }
            },
        },
{
    let a = seq!["cp"@, "-"@, container + ":"@ + dest];
    let b = seq![
        "exec"@,
        "-u"@,
        "0"@,
        "-i"@,
        container,
        "sh"@,
        "-c"@,
        "cat > "@ + shell_quote_spec(dest),
    ];
    remote_script_reads_back(a);
    remote_script_reads_back(b);
    assert(seq!["docker"@] + a =~= seq!["docker"@, "cp"@, "-"@, container + ":"@ + dest]);
    assert(seq!["docker"@] + b =~= seq![
        "docker"@,
        "exec"@,
        "-u"@,
        "0"@,
        "-i"@,
        container,
        "sh"@,
        "-c"@,
        "cat > "@ + shell_quote_spec(dest),
    ]);
    assert(shell::shell_words(remote_script_spec(a)) is Some);
    assert(shell::shell_words(remote_script_spec(b)) is Some);
    assert(exec_args_spec(container, seq!["mkdir"@, "-p"@] + seq![dest], true) =~= seq![
        "exec"@,
        "-u"@,
        "0"@,
        container,
        "mkdir"@,
        "-p"@,
        dest,
    ]);
}

/// A copy comes out of the container from the place that is asked for, and ends
/// up at the local path: with a remote, the one entry that is unpacked carries
/// the name of its place.
pub proof fn copies_come_from_where_they_are_told(
    docker: Docker,
    container: Seq<char>,
    src: Seq<char>,
    local_dst: Seq<char>,
)
    ensures
        match docker.cp_out_spec(container, src, local_dst) {
            FetchView::Direct(job) => docker.remote is None && job.command
                == invocation::InvocationView::plain(
                "docker"@,
                seq!["cp"@, container + ":"@ + src, local_dst],
            ),
            FetchView::Unpacked { source, unpack, staging, entry, dest, .. } => {
                &&& dest == local_dst
                &&& path::file_name_spec(src) matches Some(name) ==> entry == path::join_spec(
                    staging,
                    name,
                )
                &&& unpack.command.program == "tar"@
                &&& unpack.command.args == seq!["-xf"@, "-"@, "-C"@, staging]
                &&& docker.remote matches Some(host) && exists|line: Seq<char>|
                    {
                        &&& #[trigger] shell::shell_words(line) == Some(
                            seq!["docker"@, "cp"@, container + ":"@ + src, "-"@],
                        )
                        &&& source.command == ssh::script_spec(
                            host@,
                            line,
                            docker.runtime,
                        ).closed()
                    }
            },
        },
{
    let a = seq!["cp"@, container + ":"@ + src, "-"@];
    remote_script_reads_back(a);
    assert(seq!["docker"@] + a =~= seq!["docker"@, "cp"@, container + ":"@ + src, "-"@]);
    assert(shell::shell_words(remote_script_spec(a)) is Some);
}

/// Every docker command is run by the docker CLI with its arguments, here or on
/// the remote, whose shell reads them as they are; there it does not take over
/// the terminal.
pub proof fn commands_reach_docker(docker: Docker, args: Seq<Seq<char>>)
    ensures
        match docker.remote {
            None => docker.command_spec(args) == invocation::InvocationView::plain(
                "docker"@,
                args,
            ),
            Some(host) => exists|line: Seq<char>|
                {
                    &&& #[trigger] shell::shell_words(line) == Some(seq!["docker"@] + args)
                    &&& docker.command_spec(args) == ssh::script_spec(
                        host@,
                        line,
                        docker.runtime,
                    ).closed()
                },
        },
{
    remote_script_reads_back(args);
    assert(shell::shell_words(remote_script_spec(args)) is Some);
}

} // verus!
