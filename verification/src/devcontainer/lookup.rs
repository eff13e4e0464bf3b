//! Where a project's devcontainer.json is found, here or on a remote.
use vstd::prelude::*;

use crate::docker;
use crate::docker::shell_quote;
use crate::invocation;
use crate::invocation::{Ended, Failure, Invocation, Output};
use crate::path;
use crate::runtime::Runtime;
use crate::ssh;
use crate::text;
use crate::text::{cat, cat3, cat5, text_less};

verus! {

/// The configuration inside the `.devcontainer` directory.
pub open spec fn nested_spec(project: Seq<char>) -> Seq<char> {
    path::join_spec(path::join_spec(project, ".devcontainer"@), "devcontainer.json"@)
}

/// The configuration beside the project's files.
pub open spec fn flat_spec(project: Seq<char>) -> Seq<char> {
    path::join_spec(project, ".devcontainer.json"@)
}

/// The configuration inside a folder of the `.devcontainer` directory.
pub open spec fn folder_spec(project: Seq<char>, folder: Seq<char>) -> Seq<char> {
    path::join_spec(
        path::join_spec(path::join_spec(project, ".devcontainer"@), folder),
        "devcontainer.json"@,
    )
}

/// The configuration inside the `.devcontainer` directory.
pub fn nested_config(project_path: &str) -> (r: String)
    ensures
        r@ == nested_spec(project_path@),
{
    path::join(path::join(project_path, ".devcontainer").as_str(), "devcontainer.json")
}

/// The configuration beside the project's files.
pub fn flat_config(project_path: &str) -> (r: String)
    ensures
        r@ == flat_spec(project_path@),
{
    path::join(project_path, ".devcontainer.json")
}

/// The configuration inside a folder of the `.devcontainer` directory.
pub fn folder_config(project_path: &str, folder: &str) -> (r: String)
    ensures
        r@ == folder_spec(project_path@, folder@),
{
    let dir = path::join(path::join(project_path, ".devcontainer").as_str(), folder);
    path::join(dir.as_str(), "devcontainer.json")
}

/// The text that stands first in the order of code points.
pub open spec fn least_spec(items: Seq<Seq<char>>) -> Option<Seq<char>>
    decreases items.len(),
{
    if items.len() == 0 {
        None
    } else {
        match least_spec(items.drop_last()) {
            Some(m) => if text::text_lt(items.last(), m) {
                Some(items.last())
            } else {
                Some(m)
            },
            None => Some(items.last()),
        }
    }
}

fn least(items: &Vec<String>) -> (r: Option<String>)
    ensures
        r.deep_view() == least_spec(items.deep_view()),
{
    let mut best: Option<String> = None;
    let ghost all = items.deep_view();
    for i in 0..items.len()
        invariant
            all == items.deep_view(),
            best.deep_view() == least_spec(all.take(i as int)),
    {
        assert(all.take(i + 1).drop_last() =~= all.take(i as int));
        assert(all[i as int] == items@[i as int]@);
        let better = match &best {
            Some(m) => text_less(items[i].as_str(), m.as_str()),
            None => true,
        };
        if better {
            best = Some(items[i].clone());
        }
    }
    assert(all.take(all.len() as int) =~= all);
    best
}

/// The configuration that is used, with a warning if others were passed over:
/// the nested one, or the flat one, or that in the first folder.
pub open spec fn find_config_spec(
    project: Seq<char>,
    nested: bool,
    flat: bool,
    folders: Seq<Seq<char>>,
) -> Result<(Seq<char>, Option<Seq<char>>), invocation::FailureView> {
    if nested {
        Ok((nested_spec(project), None))
    } else if flat {
        Ok((flat_spec(project), None))
    } else {
        match least_spec(folders) {
            Some(folder) => Ok(
                (
                    folder_spec(project, folder),
                    if folders.len() > 1 {
                        Some(
                            "[graft] multiple devcontainer configs found, using "@ + folder_spec(
                                project,
                                folder,
                            ),
                        )
                    } else {
                        None
                    },
                ),
            ),
            None => Err(
                invocation::FailureView::Message(
                    "no devcontainer config found in "@ + project
                        + " (looked for .devcontainer/devcontainer.json, .devcontainer.json, and .devcontainer/*/devcontainer.json)"@,
                ),
            ),
        }
    }
}

/// Devcontainer config lookup, in order of precedence:
/// .devcontainer/devcontainer.json, .devcontainer.json, then
/// .devcontainer/<folder>/devcontainer.json (one level deep). Told is which of
/// the first two exist, and which folders hold a configuration; of several, the
/// first (alphabetically) wins, with a warning.
pub fn find_config(project_path: &str, nested: bool, flat: bool, folders: &Vec<String>) -> (r:
    Result<(String, Option<String>), Failure>)
    ensures
        match r {
            Ok((p, w)) => find_config_spec(project_path@, nested, flat, folders.deep_view())
                == Ok::<(Seq<char>, Option<Seq<char>>), invocation::FailureView>(
                (p@, w.deep_view()),
            ),
            Err(f) => find_config_spec(project_path@, nested, flat, folders.deep_view())
                == Err::<(Seq<char>, Option<Seq<char>>), invocation::FailureView>(f.deep_view()),
        },
{
    if nested {
        return Ok((nested_config(project_path), None));
    }
    if flat {
        return Ok((flat_config(project_path), None));
    }
    assert(folders.deep_view().len() == folders@.len());
    match least(folders) {
        Some(folder) => {
            let found = folder_config(project_path, folder.as_str());
            let warning = if folders.len() > 1 {
                Some(cat("[graft] multiple devcontainer configs found, using ", found.as_str()))
            } else {
                None
            };
            Ok((found, warning))
        },
        None => Err(
            Failure::Message(
                cat3(
                    "no devcontainer config found in ",
                    project_path,
                    " (looked for .devcontainer/devcontainer.json, .devcontainer.json, and .devcontainer/*/devcontainer.json)",
                ),
            ),
        ),
    }
}

// ── on a remote ───────────────────────────────────────────────────────────────

/// Runs a script with `sh` on the remote.
pub open spec fn ssh_output_spec(host: Seq<char>, script: Seq<char>, rt: Runtime)
    -> invocation::InvocationView {
    ssh::script_spec(host, "sh -c "@ + docker::shell_quote_spec(script), rt)
}

/// Runs `sh -c <script>` on the remote.
pub fn ssh_output(host: &str, script: &str, rt: &Runtime) -> (r: Invocation)
    ensures
        r.deep_view() == ssh_output_spec(host@, script@, *rt),
{
    ssh::script_command(host, cat("sh -c ", shell_quote(script).as_str()).as_str(), rt)
}

/// The script that prints the path of the first configuration there is, a NUL,
/// and its contents; it exits with 1 where there is none.
pub open spec fn probe_script(project: Seq<char>) -> Seq<char> {
    "for f in "@ + docker::shell_quote_spec(nested_spec(project)) + " "@ + docker::shell_quote_spec(
        flat_spec(project),
    ) + " "@ + docker::shell_quote_spec(path::join_spec(project, ".devcontainer"@))
        + "/*/devcontainer.json; do [ -f \"$f\" ] && { printf '%s\\0' \"$f\"; cat \"$f\"; exit 0; }; done; exit 1"@
}

/// One ssh call: probes the candidate config locations (same precedence as
/// locally) and prints the first one that exists.
pub fn ssh_find_and_read_config(host: &str, project_path: &str, rt: &Runtime) -> (r: Invocation)
    ensures
        r.deep_view() == ssh_output_spec(host@, probe_script(project_path@), *rt),
{
    let dir = path::join(project_path, ".devcontainer");
    let mut script = cat5(
        "for f in ",
        shell_quote(nested_config(project_path).as_str()).as_str(),
        " ",
        shell_quote(flat_config(project_path).as_str()).as_str(),
        " ",
    );
    script.append(shell_quote(dir.as_str()).as_str());
    script.append(
        "/*/devcontainer.json; do [ -f \"$f\" ] && { printf '%s\\0' \"$f\"; cat \"$f\"; exit 0; }; done; exit 1",
    );
    ssh_output(host, script.as_str(), rt)
}

/// The position of the first zero byte from `i` on.
pub open spec fn zero_from(bytes: Seq<u8>, i: int) -> Option<int>
    decreases bytes.len() - i,
{
    if i < 0 || i >= bytes.len() {
        None
    } else if bytes[i] == 0 {
        Some(i)
    } else {
        zero_from(bytes, i + 1)
    }
}

/// What a probe amounts to: the path and the contents of the configuration. Exit
/// code 1 means that there is none; anything else is a failure of ssh itself.
pub open spec fn probed_spec(host: Seq<char>, project: Seq<char>, out: Output) -> Result<
    (Seq<char>, Seq<u8>),
    invocation::FailureView,
> {
    match out.ended {
        Ended::NotStarted(cause) => Err(
            invocation::FailureView::Spawn { context: "spawning ssh"@, cause: cause@ },
        ),
        Ended::Exited(code) => if code == Some(0i32) {
            match zero_from(out.stdout@, 0) {
                Some(i) => Ok((text::utf8_lossy(out.stdout@.take(i)), out.stdout@.skip(i + 1))),
                None => Err(
                    invocation::FailureView::Message(
                        "unexpected output from remote config probe"@,
                    ),
                ),
            }
        } else if code == Some(1i32) {
            Err(
                invocation::FailureView::Message(
                    "no devcontainer config found in "@ + project + " on "@ + host
                        + " (looked for .devcontainer/devcontainer.json, .devcontainer.json, and .devcontainer/*/devcontainer.json)"@,
                ),
            )
        } else {
            Err(
                invocation::FailureView::Message(
                    "ssh to "@ + host + " failed ("@ + out.status@ + "): "@ + text::trim_spec(
                        text::utf8_lossy(out.stderr@),
                    ),
                ),
            )
        },
    }
}

/// What a probe amounts to: the path and the contents of the configuration.
pub fn probed(host: &str, project_path: &str, out: &Output) -> (r: Result<
    (String, Vec<u8>),
    Failure,
>)
    ensures
        match r {
            Ok((p, bytes)) => probed_spec(host@, project_path@, *out) == Ok::<
                (Seq<char>, Seq<u8>),
                invocation::FailureView,
            >((p@, bytes@)),
            Err(f) => probed_spec(host@, project_path@, *out) == Err::<
                (Seq<char>, Seq<u8>),
                invocation::FailureView,
            >(f.deep_view()),
        },
{
    match &out.ended {
        Ended::NotStarted(cause) => Err(
            Failure::Spawn { context: "spawning ssh".to_string(), cause: cause.clone() },
        ),
        Ended::Exited(code) => {
            if out.ended.success() {
                let ghost all = out.stdout@;
                for i in 0..out.stdout.len()
                    invariant
                        all == out.stdout@,
                        out.ended == Ended::Exited(Some(0i32)),
                        zero_from(all, 0) == zero_from(all, i as int),
                {
                    if out.stdout[i] == 0 {
                        let head = copy_bytes(&out.stdout, 0, i);
                        let tail = copy_bytes(&out.stdout, i + 1, out.stdout.len());
                        assert(head@ =~= all.take(i as int));
                        assert(tail@ =~= all.skip(i + 1));
                        return Ok((text::lossy(&head), tail));
                    }
                }
                return Err(
                    Failure::Message("unexpected output from remote config probe".to_string()),
                );
            }
            let missing = match code {
                Some(c) => *c == 1,
                None => false,
            };
            if missing {
                let mut message = cat5(
                    "no devcontainer config found in ",
                    project_path,
                    " on ",
                    host,
                    " (looked for .devcontainer/devcontainer.json, .devcontainer.json, and .devcontainer/*/devcontainer.json)",
                );
                Err(Failure::Message(message))
            } else {
                let stderr = text::lossy(&out.stderr);
                let mut message = cat5(
                    "ssh to ",
                    host,
                    " failed (",
                    out.status.as_str(),
                    "): ",
                );
                message.append(text::trim(stderr.as_str()));
                Err(Failure::Message(message))
            }
        },
    }
}

fn copy_bytes(bytes: &Vec<u8>, from: usize, to: usize) -> (r: Vec<u8>)
    requires
        from <= to <= bytes@.len(),
    ensures
        r@ == bytes@.subrange(from as int, to as int),
{
    let mut out: Vec<u8> = Vec::new();
    for i in from..to
        invariant
            from <= i <= to <= bytes@.len(),
            out@ == bytes@.subrange(from as int, i as int),
    {
        out.push(bytes[i]);
        assert(out@ =~= bytes@.subrange(from as int, i + 1));
    }
    out
}

/// The text of a configuration, which has to be UTF-8.
pub fn config_text(bytes: &Vec<u8>) -> (r: Result<String, Failure>)
    ensures
        invocation::result_view(r) == if vstd::utf8::valid_utf8(bytes@) {
            Ok::<Seq<char>, invocation::FailureView>(vstd::utf8::decode_utf8(bytes@))
        } else {
            Err(invocation::FailureView::Message("devcontainer.json is not valid UTF-8"@))
        },
{
    match text::utf8(bytes) {
        Some(s) => Ok(s),
        None => Err(Failure::Message("devcontainer.json is not valid UTF-8".to_string())),
    }
}

// ── laws ──────────────────────────────────────────────────────────────────────

/// The configuration in the `.devcontainer` directory comes first, then the one
/// beside the project's files, then those in folders.
pub proof fn lookup_follows_the_precedence(
    project: Seq<char>,
    nested: bool,
    flat: bool,
    folders: Seq<Seq<char>>,
)
    ensures
        nested ==> find_config_spec(project, nested, flat, folders) == Ok::<
            (Seq<char>, Option<Seq<char>>),
            invocation::FailureView,
        >((nested_spec(project), None)),
        !nested && flat ==> find_config_spec(project, nested, flat, folders) == Ok::<
            (Seq<char>, Option<Seq<char>>),
            invocation::FailureView,
        >((flat_spec(project), None)),
        find_config_spec(project, nested, flat, folders) is Err <==> !nested && !flat
            && folders.len() == 0,
{
    if folders.len() > 0 {
        assert(least_spec(folders) is Some);
    }
}

/// Of several folders with a configuration, the one that is used comes before
/// all others.
pub proof fn first_folder_wins(folders: Seq<Seq<char>>, i: int)
    requires
        0 <= i < folders.len(),
    ensures
        least_spec(folders) matches Some(m) && folders.contains(m) && !text::text_lt(
            folders[i],
            m,
        ),
    decreases folders.len(),
{
    let init = folders.drop_last();
    let last = folders.last();
    assert(folders[folders.len() - 1] == last);
    text::lemma_text_asym(last, last);
    if init.len() > 0 {
        first_folder_wins(
            init,
            if i < init.len() {
                i
            } else {
                0
            },
        );
        let m = least_spec(init)->0;
        let k = choose|k: int| 0 <= k < init.len() && init[k] == m;
        assert(folders[k] == m);
        if text::text_lt(last, m) && i < init.len() {
            if text::text_lt(folders[i], last) {
                text::lemma_text_trans(folders[i], last, m);
            }
        }
    }
}

/// A connection that fails is never taken for a missing configuration.
pub proof fn failed_connection_is_told_apart(
    host: Seq<char>,
    project: Seq<char>,
    out: Output,
)
    requires
        out.ended is Exited,
        out.ended != Ended::Exited(Some(0i32)),
        out.ended != Ended::Exited(Some(1i32)),
    ensures
        probed_spec(host, project, out) == Err::<(Seq<char>, Seq<u8>), invocation::FailureView>(
            invocation::FailureView::Message(
                "ssh to "@ + host + " failed ("@ + out.status@ + "): "@ + text::trim_spec(
                    text::utf8_lossy(out.stderr@),
                ),
            ),
        ),
{
}

/// A remote probe tries the same places, in the same order, as the lookup here,
/// and prints the first that is there, a zero byte behind it and then its
/// contents.
pub proof fn remote_probe_follows_the_precedence(project: Seq<char>)
    requires
        project.len() > 0,
        project.last() != '/',
    ensures
        probe_script(project) == "for f in "@ + docker::shell_quote_spec(
            project + "/.devcontainer/devcontainer.json"@,
        ) + " "@ + docker::shell_quote_spec(project + "/.devcontainer.json"@) + " "@
            + docker::shell_quote_spec(project + "/.devcontainer"@)
            + "/*/devcontainer.json; do [ -f \"$f\" ] && { printf '%s\\0' \"$f\"; cat \"$f\"; exit 0; }; done; exit 1"@,
        nested_spec(project) == project + "/.devcontainer/devcontainer.json"@,
        flat_spec(project) == project + "/.devcontainer.json"@,
{
    reveal_strlit(".devcontainer");
    reveal_strlit("devcontainer.json");
    reveal_strlit(".devcontainer.json");
    reveal_strlit("/.devcontainer/devcontainer.json");
    reveal_strlit("/.devcontainer.json");
    reveal_strlit("/.devcontainer");
    let dir = path::join_spec(project, ".devcontainer"@);
    assert(dir =~= project + "/.devcontainer"@);
    assert(dir.last() == 'r');
    assert(nested_spec(project) =~= project + "/.devcontainer/devcontainer.json"@);
    assert(flat_spec(project) =~= project + "/.devcontainer.json"@);
}

proof fn lemma_zero_from(bytes: Seq<u8>, i: int, k: int)
    requires
        0 <= i <= k < bytes.len(),
        bytes[k] == 0,
        forall|j: int| i <= j < k ==> bytes[j] != 0,
    ensures
        zero_from(bytes, i) == Some(k),
    decreases k - i,
{
    if i < k {
        lemma_zero_from(bytes, i + 1, k);
    }
}

/// What a probe prints is taken apart again: the path is what stands before the
/// first zero byte, and the contents are everything behind it, zero bytes too.
pub proof fn probe_is_taken_apart(
    host: Seq<char>,
    project: Seq<char>,
    out: Output,
    p: Seq<u8>,
    contents: Seq<u8>,
)
    requires
        out.ended == Ended::Exited(Some(0i32)),
        out.stdout@ == p + seq![0u8] + contents,
        forall|i: int| 0 <= i < p.len() ==> p[i] != 0,
    ensures
        probed_spec(host, project, out) == Ok::<(Seq<char>, Seq<u8>), invocation::FailureView>(
            (text::utf8_lossy(p), contents),
        ),
{
    let all = out.stdout@;
    let n = p.len() as int;
    assert forall|j: int| 0 <= j < n implies all[j] != 0 by {
        assert(all[j] == p[j]);
    }
    assert(all[n] == 0);
    lemma_zero_from(all, 0, n);
    assert(all.take(n) =~= p);
    assert(all.skip(n + 1) =~= contents);
}

} // verus!
