//! The interactive session inside a container.
use vstd::prelude::*;

use crate::docker;
use crate::docker::shell_quote;
use crate::invocation;
use crate::invocation::{args2, args3, args5, Ended, Failure, Invocation, Job, Output};
use crate::num;
use crate::num::decimal;
use crate::runtime::Runtime;
use crate::shell;
use crate::ssh;
use crate::text;
use crate::text::{alnum, cat, cat4, chars, same};
use crate::verbose;

verus! {

/// What is told when the remote ssh server refuses a terminal.
pub const PTY_HELP: &'static str = "[graft] the remote SSH server refused a PTY for this connection, so the\n[graft] interactive shell (`docker exec -it`) was dropped immediately. Fix it\n[graft] on the server: set `PermitTTY yes` in sshd_config, and remove any\n[graft] `restrict`/`no-pty` option on this key in ~/.ssh/authorized_keys, then\n[graft] reload sshd.";

/// The docker command line that opens a shell inside the container.
pub open spec fn exec_line(
    container: Seq<char>,
    workdir: Seq<char>,
    user: Option<Seq<char>>,
    shell: Seq<char>,
) -> Seq<char> {
    "docker exec -it"@ + (match user {
        Some(u) => " -u "@ + docker::shell_quote_spec(u),
        None => seq![],
    }) + " --workdir "@ + docker::shell_quote_spec(workdir) + " "@ + docker::shell_quote_spec(
        container,
    ) + " "@ + docker::shell_quote_spec(shell) + " -l"@
}

/// The command line that opens a shell inside the container: the docker command
/// line itself or, with a remote, ssh with it and a forced terminal.
pub open spec fn run_line(remote: Option<Seq<char>>, exec: Seq<char>, rt: Runtime) -> Seq<char> {
    match remote {
        None => exec,
        Some(host) => {
            let (dest, port) = ssh::split_spec(host);
            "ssh -tt"@ + (match port {
                Some(p) => " -p "@ + num::dec(p as nat),
                None => seq![],
            }) + (if rt.verbosity.level > 0 {
                " "@ + verbose::flags_spec(rt.verbosity.level)
            } else {
                seq![]
            }) + " "@ + docker::shell_quote_spec(dest) + " "@ + docker::shell_quote_spec(exec)
        },
    }
}

/// A character that tmux accepts in session names.
pub open spec fn session_char(c: char) -> char {
    if text::is_alnum(c) {
        c
    } else {
        '-'
    }
}

/// A session name that tmux accepts.
pub open spec fn sanitize_spec(s: Seq<char>) -> Seq<char> {
    Seq::new(s.len(), |i: int| session_char(s[i]))
}

/// Replaces characters tmux dislikes in session names with '-'.
pub fn sanitize(s: &str) -> (r: String)
    ensures
        r@ == sanitize_spec(s@),
{
    let v = chars(s);
    let mut out = String::new();
    for i in 0..v.len()
        invariant
            v@ == s@,
            out@ == sanitize_spec(s@).take(i as int),
    {
        if alnum(v[i]) {
            out.push(v[i]);
        } else {
            out.push('-');
        }
        assert(out@ =~= sanitize_spec(s@).take(i + 1));
    }
    assert(out@ =~= sanitize_spec(s@));
    out
}

/// How a session is opened.
#[derive(Debug, PartialEq, Eq)]
pub enum Session {
    /// In the named tmux session: made if it is not there (a failure does not
    /// matter), told to open new windows in the container too, and then gone to.
    Tmux { create: Invocation, configure: Invocation, attach: Job },
    /// Without a multiplexer.
    Direct(Job),
}

/// What a [`Session`] says.
pub enum SessionView {
    Tmux {
        create: invocation::InvocationView,
        configure: invocation::InvocationView,
        attach: invocation::JobView,
    },
    Direct(invocation::JobView),
}

impl DeepView for Session {
    type V = SessionView;

    open spec fn deep_view(&self) -> SessionView {
        match self {
            Session::Tmux { create, configure, attach } => SessionView::Tmux {
                create: create.deep_view(),
                configure: configure.deep_view(),
                attach: attach.deep_view(),
            },
            Session::Direct(job) => SessionView::Direct(job.deep_view()),
        }
    }
}

/// The named tmux session for a command line. Inside tmux, `attach-session`
/// refuses to nest, so the current client is switched to the session instead.
pub open spec fn tmux_spec(name: Seq<char>, line: Seq<char>, in_tmux: bool) -> SessionView {
    let session = sanitize_spec(name);
    let action = if in_tmux {
        "switch-client"@
    } else {
        "attach-session"@
    };
    SessionView::Tmux {
        create: invocation::InvocationView::plain(
            "tmux"@,
            seq!["new-session"@, "-d"@, "-s"@, session, line],
        ),
        configure: invocation::InvocationView::plain(
            "tmux"@,
            seq!["set-option"@, "-t"@, session, "default-command"@, line],
        ),
        attach: invocation::JobView {
            command: invocation::InvocationView::plain("tmux"@, seq![action, "-t"@, session]),
            context: ""@,
            failure: invocation::FailureView::Message(
                "tmux "@ + action + " -t "@ + session + " failed"@,
            ),
        },
    }
}

/// A session for a command line without a multiplexer.
pub open spec fn direct_spec(line: Seq<char>) -> SessionView {
    SessionView::Direct(
        invocation::JobView {
            command: invocation::InvocationView::plain("sh"@, seq!["-c"@, line]),
            context: ""@,
            failure: invocation::FailureView::Message("session exited with failure"@),
        },
    )
}

fn enter_tmux(name: &str, line: &str, in_tmux: bool) -> (r: Session)
    ensures
        r.deep_view() == tmux_spec(name@, line@, in_tmux),
{
    let session = sanitize(name);
    let action = if in_tmux {
        "switch-client"
    } else {
        "attach-session"
    };
    let mut message = cat4("tmux ", action, " -t ", session.as_str());
    message.append(" failed");
    Session::Tmux {
        create: Invocation::new(
            "tmux",
            args5("new-session", "-d", "-s", session.as_str(), line),
        ),
        configure: Invocation::new(
            "tmux",
            args5("set-option", "-t", session.as_str(), "default-command", line),
        ),
        attach: Job {
            command: Invocation::new("tmux", args3(action, "-t", session.as_str())),
            context: "".to_string(),
            failure: Failure::Message(message),
        },
    }
}

fn enter_direct(line: &str) -> (r: Session)
    ensures
        r.deep_view() == direct_spec(line@),
{
    Session::Direct(
        Job {
            command: Invocation::new("sh", args2("-c", line)),
            context: "".to_string(),
            failure: Failure::Message("session exited with failure".to_string()),
        },
    )
}

/// What telling tmux to open new windows in the container amounts to: only that
/// tmux cannot be started counts as a failure.
pub fn configured(ended: Ended) -> (r: Result<(), Failure>)
    ensures
        invocation::result_view(r) == match ended {
            Ended::NotStarted(cause) => Err::<(), invocation::FailureView>(
                invocation::FailureView::Spawn { context: ""@, cause: cause@ },
            ),
            Ended::Exited(_) => Ok(()),
        },
{
    match ended {
        Ended::NotStarted(cause) => Err(Failure::Spawn { context: "".to_string(), cause }),
        Ended::Exited(_) => Ok(()),
    }
}

/// How a container is entered.
#[derive(Debug, PartialEq, Eq)]
pub struct Entrance {
    /// Told to the user.
    pub note: String,
    /// Told to the user if commands are traced.
    pub trace: Option<String>,
    /// The session, unless the configuration names a multiplexer that there is
    /// not.
    pub session: Result<Session, Failure>,
}

/// Opens an interactive shell inside the container. Values are shell-quoted,
/// because the command line is run through a shell. With a remote, the docker
/// CLI runs *on the remote* over `ssh -tt`.
pub fn enter(
    container: &str,
    session_name: &str,
    workdir: &str,
    remote: &Option<String>,
    remote_user: Option<&str>,
    login_shell: &str,
    multiplexer: &str,
    in_tmux: bool,
    rt: &Runtime,
) -> (r: Entrance)
    ensures
        r.note@ == "[graft] entering "@ + container@,
        ({
            let line = run_line(
                remote.deep_view(),
                exec_line(container@, workdir@, remote_user.deep_view(), login_shell@),
                *rt,
            );
            &&& r.trace.deep_view() == (if rt.verbosity.level > 0 {
                Some("[graft] $ "@ + line)
            } else {
                None
            })
            &&& invocation::result_view(r.session) == (if multiplexer@ == "tmux"@ {
                Ok::<SessionView, invocation::FailureView>(
                    tmux_spec(session_name@, line, in_tmux),
                )
            } else if multiplexer@ == "none"@ {
                Ok(direct_spec(line))
            } else {
                Err(invocation::FailureView::UnknownMultiplexer(multiplexer@))
            })
        }),
{
    let mut exec = "docker exec -it".to_string();
    if let Some(u) = remote_user {
        exec.append(cat(" -u ", shell_quote(u).as_str()).as_str());
    } else {
        assert(exec@ + seq![] =~= exec@);
    }
    exec.append(" --workdir ");
    exec.append(shell_quote(workdir).as_str());
    exec.append(" ");
    exec.append(shell_quote(container).as_str());
    exec.append(" ");
    exec.append(shell_quote(login_shell).as_str());
    exec.append(" -l");
    let line = match remote {
        None => exec,
        Some(host) => {
            let (dest, port) = ssh::split(host.as_str());
            let mut s = "ssh -tt".to_string();
            if let Some(p) = port {
                s.append(cat(" -p ", decimal(p as u64).as_str()).as_str());
            } else {
                assert(s@ + seq![] =~= s@);
            }
            if verbose::enabled(&rt.verbosity) {
                s.append(cat(" ", verbose::flags(&rt.verbosity).as_str()).as_str());
            } else {
                assert(s@ + seq![] =~= s@);
            }
            s.append(" ");
            s.append(shell_quote(dest.as_str()).as_str());
            s.append(" ");
            s.append(shell_quote(exec.as_str()).as_str());
            s
        },
    };
    let trace = if verbose::enabled(&rt.verbosity) {
        Some(cat("[graft] $ ", line.as_str()))
    } else {
        None
    };
    let session = if same(multiplexer, "tmux") {
        Ok(enter_tmux(session_name, line.as_str(), in_tmux))
    } else if same(multiplexer, "none") {
        Ok(enter_direct(line.as_str()))
    } else {
        Err(Failure::UnknownMultiplexer(multiplexer.to_string()))
    };
    Entrance { note: cat("[graft] entering ", container), trace, session }
}

/// The command that finds out whether a remote refuses a terminal, once a
/// session has ended: only where it failed in less than two seconds, so that a
/// shell that fails after real use does not cost another connection.
pub fn pty_probe(remote: &Option<String>, failed: bool, elapsed_ms: u64, rt: &Runtime) -> (r:
    Option<Invocation>)
    ensures
        r.deep_view() == match remote {
            Some(host) => if failed && elapsed_ms < 2000 {
                Some(
                    ssh::base_spec(host@, *rt).with(
                        seq![
                            "-tt"@,
                            "-o"@,
                            "BatchMode=yes"@,
                            ssh::split_spec(host@).0,
                            "tty"@,
                        ],
                    ).closed(),
                )
            } else {
                None
            },
            None => None,
        },
{
    match remote {
        Some(host) => {
            if failed && elapsed_ms < 2000 {
                let (mut cmd, dest) = ssh::base_command(host.as_str(), rt);
                let ghost before = cmd.deep_view().args;
                cmd.arg("-tt");
                cmd.arg("-o");
                cmd.arg("BatchMode=yes");
                cmd.arg(dest.as_str());
                cmd.arg("tty");
                cmd.stdin_null = true;
                assert(cmd.deep_view().args =~= before + seq![
                    "-tt"@,
                    "-o"@,
                    "BatchMode=yes"@,
                    dest@,
                    "tty"@,
                ]);
                Some(cmd)
            } else {
                None
            }
        },
        None => None,
    }
}

/// A probe told that the server refuses a terminal.
pub open spec fn pty_denied_spec(out: Output) -> bool {
    let combined = text::utf8_lossy(out.stdout@) + text::utf8_lossy(out.stderr@);
    out.ended !is NotStarted && (text::contains_spec(combined, "allocation request failed"@)
        || text::contains_spec(combined, "not a tty"@))
}

/// Whether a probe told that the server refuses a terminal: ssh then fails with
/// "Pseudo-terminal allocation request failed", or `tty` prints "not a tty".
pub fn pty_denied(out: &Output) -> (r: bool)
    ensures
        r == pty_denied_spec(*out),
{
    if let Ended::NotStarted(_) = &out.ended {
        return false;
    }
    let combined = cat(text::lossy(&out.stdout).as_str(), text::lossy(&out.stderr).as_str());
    text::contains(combined.as_str(), "allocation request failed") || text::contains(
        combined.as_str(),
        "not a tty",
    )
}

// ── laws ──────────────────────────────────────────────────────────────────────

/// A session name holds nothing but ASCII letters, digits and dashes, and one
/// that does so already is left as it is.
pub proof fn session_names_are_plain(s: Seq<char>)
    ensures
        sanitize_spec(s).len() == s.len(),
        forall|i: int|
            0 <= i < s.len() ==> text::is_alnum(#[trigger] sanitize_spec(s)[i])
                || sanitize_spec(s)[i] == '-',
        sanitize_spec(sanitize_spec(s)) == sanitize_spec(s),
{
    assert(sanitize_spec(sanitize_spec(s)) =~= sanitize_spec(s));
}

/// The options that ssh gets between `-tt` and the destination.
pub open spec fn line_options(port: Option<u16>, level: u8) -> Seq<Seq<char>> {
    ssh::port_args(port) + ssh::verbose_args(level)
}

/// A local shell reads the command line for a remote as ssh with its options,
/// the destination and, as one word, the docker command line.
pub proof fn remote_line_reads_back(host: Seq<char>, exec: Seq<char>, rt: Runtime)
    ensures
        shell::shell_words(run_line(Some(host), exec, rt)) == Some(
            seq!["ssh"@, "-tt"@] + line_options(
                ssh::split_spec(host).1,
                rt.verbosity.level,
            ) + seq![ssh::split_spec(host).0, exec],
        ),
{
    let (dest, port) = ssh::split_spec(host);
    let level = rt.verbosity.level;
    let line = run_line(Some(host), exec, rt);
    reveal_strlit("ssh -tt");
    reveal_strlit("ssh");
    reveal_strlit("-tt");
    reveal_strlit(" ");
    reveal_strlit("-p");
    reveal_strlit(" -p ");
    reveal_strlit("-");
    let r0 = shell::fresh();
    let w1 = seq!["ssh"@];
    shell::lemma_read_ordinary(r0, "ssh"@);
    assert(seq![] + "ssh"@ =~= "ssh"@);
    assert(w1.drop_last() =~= seq![]);
    assert(shell::read(r0, "ssh"@) == shell::behind(w1));
    let w2 = w1.push("-tt"@);
    let l2 = "ssh"@ + (" "@ + "-tt"@);
    shell::lemma_next_word(w1, "-tt"@);
    shell::lemma_read_concat(r0, "ssh"@, " "@ + "-tt"@);
    assert(l2 =~= "ssh -tt"@);
    let digits = num::dec(port->0 as nat);
    let (w3, l3) = match port {
        Some(p) => (w2.push("-p"@).push(digits), l2 + (" "@ + "-p"@) + (" "@ + digits)),
        None => (w2, l2),
    };
    if port is Some {
        num::lemma_decimal_digits(port->0 as nat);
        shell::lemma_next_word(w2, "-p"@);
        shell::lemma_read_concat(r0, l2, " "@ + "-p"@);
        shell::lemma_next_word(w2.push("-p"@), digits);
        shell::lemma_read_concat(r0, l2 + (" "@ + "-p"@), " "@ + digits);
        assert(" -p "@ =~= " "@ + "-p"@ + " "@);
    }
    assert(shell::read(r0, l3) == shell::behind(w3));
    let flags = verbose::flags_spec(level);
    let (w4, l4) = if level > 0 {
        (w3.push(flags), l3 + (" "@ + flags))
    } else {
        (w3, l3)
    };
    if level > 0 {
        shell::lemma_next_word(w3, flags);
        shell::lemma_read_concat(r0, l3, " "@ + flags);
    }
    assert(shell::read(r0, l4) == shell::behind(w4));
    let q1 = " "@ + docker::shell_quote_spec(dest);
    let q2 = " "@ + docker::shell_quote_spec(exec);
    docker::lemma_next_quoted(w4, dest);
    shell::lemma_read_concat(r0, l4, q1);
    docker::lemma_next_quoted(w4.push(dest), exec);
    shell::lemma_read_concat(r0, l4 + q1, q2);
    assert(line =~= l4 + q1 + q2);
    let all = w4.push(dest).push(exec);
    assert(all =~= seq!["ssh"@, "-tt"@] + line_options(port, level) + seq![dest, exec]);
    assert(all.drop_last().push(all.last()) =~= all);
}

/// A shell, here or on the remote, reads the docker command line as `docker
/// exec -it` with exactly the user, the directory, the container and the shell
/// that it was made of.
pub proof fn exec_line_reads_back(
    container: Seq<char>,
    workdir: Seq<char>,
    user: Option<Seq<char>>,
    login_shell: Seq<char>,
)
    ensures
        shell::shell_words(exec_line(container, workdir, user, login_shell)) == Some(
            seq!["docker"@, "exec"@, "-it"@] + docker::option_args("-u"@, user) + seq![
                "--workdir"@,
                workdir,
                container,
                login_shell,
                "-l"@,
            ],
        ),
{
    reveal_strlit("docker exec -it");
    reveal_strlit("docker");
    reveal_strlit("exec");
    reveal_strlit("-it");
    reveal_strlit("-u");
    reveal_strlit(" -u ");
    reveal_strlit("--workdir");
    reveal_strlit(" --workdir ");
    reveal_strlit("-l");
    reveal_strlit(" -l");
    reveal_strlit(" ");
    let r0 = shell::fresh();
    let w1 = seq!["docker"@];
    shell::lemma_read_ordinary(r0, "docker"@);
    assert(seq![] + "docker"@ =~= "docker"@);
    assert(w1.drop_last() =~= seq![]);
    shell::lemma_next_word(w1, "exec"@);
    shell::lemma_read_concat(r0, "docker"@, " "@ + "exec"@);
    let w2 = w1.push("exec"@);
    let l2 = "docker"@ + (" "@ + "exec"@);
    shell::lemma_next_word(w2, "-it"@);
    shell::lemma_read_concat(r0, l2, " "@ + "-it"@);
    let w3 = w2.push("-it"@);
    let l3 = l2 + (" "@ + "-it"@);
    assert(l3 =~= "docker exec -it"@);
    let q = " "@ + docker::shell_quote_spec(user->0);
    let (w4, l4) = match user {
        Some(u) => (w3.push("-u"@).push(u), l3 + (" "@ + "-u"@) + q),
        None => (w3, l3),
    };
    if user is Some {
        shell::lemma_next_word(w3, "-u"@);
        shell::lemma_read_concat(r0, l3, " "@ + "-u"@);
        docker::lemma_next_quoted(w3.push("-u"@), user->0);
        shell::lemma_read_concat(r0, l3 + (" "@ + "-u"@), q);
        assert(" -u "@ =~= " "@ + "-u"@ + " "@);
    }
    assert(shell::read(r0, l4) == shell::behind(w4));
    shell::lemma_next_word(w4, "--workdir"@);
    shell::lemma_read_concat(r0, l4, " "@ + "--workdir"@);
    let w5 = w4.push("--workdir"@);
    let l5 = l4 + (" "@ + "--workdir"@);
    let q1 = " "@ + docker::shell_quote_spec(workdir);
    let q2 = " "@ + docker::shell_quote_spec(container);
    let q3 = " "@ + docker::shell_quote_spec(login_shell);
    docker::lemma_next_quoted(w5, workdir);
    shell::lemma_read_concat(r0, l5, q1);
    docker::lemma_next_quoted(w5.push(workdir), container);
    shell::lemma_read_concat(r0, l5 + q1, q2);
    docker::lemma_next_quoted(w5.push(workdir).push(container), login_shell);
    shell::lemma_read_concat(r0, l5 + q1 + q2, q3);
    let w6 = w5.push(workdir).push(container).push(login_shell);
    shell::lemma_next_word(w6, "-l"@);
    shell::lemma_read_concat(r0, l5 + q1 + q2 + q3, " "@ + "-l"@);
    assert(" --workdir "@ =~= " "@ + "--workdir"@ + " "@);
    assert(" -l"@ =~= " "@ + "-l"@);
    assert(exec_line(container, workdir, user, login_shell) =~= l5 + q1 + q2 + q3 + (" "@ + "-l"@));
    let all = w6.push("-l"@);
    assert(all =~= seq!["docker"@, "exec"@, "-it"@] + docker::option_args("-u"@, user) + seq![
        "--workdir"@,
        workdir,
        container,
        login_shell,
        "-l"@,
    ]);
    assert(all.drop_last().push(all.last()) =~= all);
}

/// One tmux session is made, told to open its windows in the container, and gone
/// to: it has the same name each time, and both its first window and later ones
/// run the command line. Inside tmux it is switched to.
pub proof fn one_session_is_made_and_entered(name: Seq<char>, line: Seq<char>, in_tmux: bool)
    ensures
        tmux_spec(name, line, in_tmux) matches SessionView::Tmux { create, configure, attach } && {
            let session = sanitize_spec(name);
            &&& create.program == "tmux"@
            &&& create.args == seq!["new-session"@, "-d"@, "-s"@, session, line]
            &&& configure.program == "tmux"@
            &&& configure.args == seq!["set-option"@, "-t"@, session, "default-command"@, line]
            &&& attach.command.program == "tmux"@
            &&& attach.command.args == seq![
                if in_tmux {
                    "switch-client"@
                } else {
                    "attach-session"@
                },
                "-t"@,
                session,
            ]
        },
{
}

/// A session without a multiplexer opens a login shell in the container, as the
/// user and in the directory that are asked for; with a remote, over ssh with a
/// terminal.
pub proof fn session_enters_the_container(
    container: &str,
    session_name: &str,
    workdir: &str,
    remote: Option<String>,
    remote_user: Option<&str>,
    login_shell: &str,
    multiplexer: &str,
    in_tmux: bool,
    rt: Runtime,
    r: Entrance,
)
    requires
        call_ensures(
            enter,
            (
                container,
                session_name,
                workdir,
                &remote,
                remote_user,
                login_shell,
                multiplexer,
                in_tmux,
                &rt,
            ),
            r,
        ),
    ensures
        ({
            let words = seq!["docker"@, "exec"@, "-it"@] + docker::option_args(
                "-u"@,
                remote_user.deep_view(),
            ) + seq!["--workdir"@, workdir@, container@, login_shell@, "-l"@];
            exists|line: Seq<char>|
                {
                    &&& match remote {
                        None => #[trigger] shell::shell_words(line) == Some(words),
                        Some(host) => exists|inner: Seq<char>|
                            {
                                &&& #[trigger] shell::shell_words(inner) == Some(words)
                                &&& shell::shell_words(line) == Some(
                                    seq!["ssh"@, "-tt"@] + line_options(
                                        ssh::split_spec(host@).1,
                                        rt.verbosity.level,
                                    ) + seq![ssh::split_spec(host@).0, inner],
                                )
                            },
                    }
                    &&& multiplexer@ == "tmux"@ ==> (r.session matches Ok(s) && s.deep_view()
                        == tmux_spec(session_name@, line, in_tmux))
                    &&& multiplexer@ == "none"@ ==> (r.session matches Ok(s) && (s.deep_view()
                        matches SessionView::Direct(job) && job.command
                        == invocation::InvocationView::plain("sh"@, seq!["-c"@, line])))
                    &&& multiplexer@ != "tmux"@ && multiplexer@ != "none"@ ==> r.session is Err
                }
        }),
{
    let exec = exec_line(container@, workdir@, remote_user.deep_view(), login_shell@);
    let line = run_line(remote.deep_view(), exec, rt);
    exec_line_reads_back(container@, workdir@, remote_user.deep_view(), login_shell@);
    assert(shell::shell_words(exec) is Some);
    if let Some(host) = remote {
        remote_line_reads_back(host@, exec, rt);
    }
    assert(shell::shell_words(line) is Some);
    reveal_strlit("tmux");
    reveal_strlit("none");
    assert("tmux"@[0] == 't');
    assert("none"@[0] == 'n');
}

} // verus!
