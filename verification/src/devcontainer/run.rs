//! Arguments of `docker run` for a container made from an image.
use vstd::prelude::*;

use crate::devcontainer::ports;
use crate::devcontainer::vars;
use crate::devcontainer::vars::substitute_vars;
use crate::invocation::{args4, push, push_list};
use crate::json;
use crate::json::{Json, JsonKind};
use crate::table;
use crate::text;
use crate::text::cat3;

verus! {

/// A part `key=value` of a mount, where there is a value.
pub open spec fn part(key: Seq<char>, value: Option<Seq<char>>) -> Seq<Seq<char>> {
    match value {
        Some(v) => seq![key + "="@ + v],
        None => seq![],
    }
}

/// A mount made of its parts; nothing where there are none.
pub open spec fn mount_of_parts(parts: Seq<Seq<char>>) -> Option<Seq<char>> {
    if parts.len() == 0 {
        None
    } else {
        Some(text::join_spec(parts, ","@))
    }
}

/// The value for `--mount` that an entry of `mounts` denotes, if it denotes one:
/// a text, or an object with a type, a source and a target. There is no result
/// at all where variables refer to each other without end.
pub open spec fn mount_arg_spec(m: Json, project: Seq<char>, env: Seq<table::Entry>) -> Option<
    Option<Seq<char>>,
> {
    match m.kind {
        JsonKind::Text(s) => match vars::substitute_spec(s@, project, env) {
            Some(t) => Some(Some(t)),
            None => None,
        },
        JsonKind::Object(fields) => {
            let kind = part("type"@, json::text_field_spec(fields@, "type"@));
            let target = part("target"@, json::text_field_spec(fields@, "target"@));
            match json::text_field_spec(fields@, "source"@) {
                Some(s) => match vars::substitute_spec(s, project, env) {
                    Some(t) => Some(mount_of_parts(kind + part("source"@, Some(t)) + target)),
                    None => None,
                },
                None => Some(mount_of_parts(kind + target)),
            }
        },
        _ => Some(None),
    }
}

fn push_part(parts: &mut Vec<String>, key: &str, value: Option<&str>)
    ensures
        final(parts).deep_view() == old(parts).deep_view() + part(key@, value.deep_view()),
{
    if let Some(v) = value {
        push(parts, cat3(key, "=", v).as_str());
    }
    assert(parts.deep_view() =~= old(parts).deep_view() + part(key@, value.deep_view()));
}

/// A devcontainer `mounts` entry as a `--mount` value.
pub fn mount_to_arg(m: &Json, project_path: &str, env: &Vec<(String, String)>) -> (r: Option<
    Option<String>,
>)
    ensures
        r.deep_view() == mount_arg_spec(*m, project_path@, env.deep_view()),
{
    match &m.kind {
        JsonKind::Text(s) => match substitute_vars(s.as_str(), project_path, env) {
            Some(t) => Some(Some(t)),
            None => None,
        },
        JsonKind::Object(fields) => {
            let mut parts: Vec<String> = Vec::new();
            push_part(&mut parts, "type", json::text_field(fields, "type"));
            if let Some(s) = json::text_field(fields, "source") {
                match substitute_vars(s, project_path, env) {
                    Some(t) => push_part(&mut parts, "source", Some(t.as_str())),
                    None => {
                        return None;
                    },
                }
            }
            push_part(&mut parts, "target", json::text_field(fields, "target"));
            let ghost kind = part("type"@, json::text_field_spec(fields@, "type"@));
            let ghost target = part("target"@, json::text_field_spec(fields@, "target"@));
            proof {
                match json::text_field_spec(fields@, "source"@) {
                    Some(s) => {
                        let t = vars::substitute_spec(s, project_path@, env.deep_view())->0;
                        assert(parts.deep_view() =~= kind + part("source"@, Some(t)) + target);
                    },
                    None => {
                        assert(parts.deep_view() =~= kind + target);
                    },
                }
                assert(parts.deep_view().len() == parts@.len());
            }
            if parts.len() == 0 {
                Some(None)
            } else {
                Some(Some(text::join(&parts, ",")))
            }
        },
        _ => Some(None),
    }
}

/// The arguments for mounts.
pub open spec fn mount_args_spec(mounts: Seq<Json>, project: Seq<char>, env: Seq<table::Entry>)
    -> Option<Seq<Seq<char>>>
    decreases mounts.len(),
{
    if mounts.len() == 0 {
        Some(seq![])
    } else {
        match (
            mount_args_spec(mounts.drop_last(), project, env),
            mount_arg_spec(mounts.last(), project, env),
        ) {
            (Some(rest), Some(Some(m))) => Some(rest + seq!["--mount"@, m]),
            (Some(rest), Some(None)) => Some(rest),
            _ => None,
        }
    }
}

/// Texts with their variables resolved.
pub open spec fn substituted_spec(
    items: Seq<Seq<char>>,
    project: Seq<char>,
    env: Seq<table::Entry>,
) -> Option<Seq<Seq<char>>>
    decreases items.len(),
{
    if items.len() == 0 {
        Some(seq![])
    } else {
        match (
            substituted_spec(items.drop_last(), project, env),
            vars::substitute_spec(items.last(), project, env),
        ) {
            (Some(rest), Some(s)) => Some(rest.push(s)),
            _ => None,
        }
    }
}

/// The texts that there are.
pub open spec fn texts(items: Option<Vec<String>>) -> Seq<Seq<char>> {
    match items {
        Some(v) => v.deep_view(),
        None => seq![],
    }
}

/// How the workspace gets into the container: as configured, or by a bind mount
/// of the project.
pub open spec fn workspace_args(
    workspace_mount: Option<Seq<char>>,
    project: Seq<char>,
    workspace_folder: Seq<char>,
    env: Seq<table::Entry>,
) -> Option<Seq<Seq<char>>> {
    match workspace_mount {
        Some(m) => match vars::substitute_spec(m, project, env) {
            Some(s) => Some(seq!["--mount"@, s, "-w"@, workspace_folder]),
            None => None,
        },
        None => Some(
            seq!["-v"@, project + ":"@ + workspace_folder, "-w"@, workspace_folder],
        ),
    }
}

/// The arguments of `docker run`: the workspace, the mounts, the user's own.
pub open spec fn run_args_spec(
    user_args: Seq<Seq<char>>,
    workspace_mount: Option<Seq<char>>,
    mounts: Seq<Json>,
    project: Seq<char>,
    workspace_folder: Seq<char>,
    env: Seq<table::Entry>,
) -> Option<Seq<Seq<char>>> {
    match (
        workspace_args(workspace_mount, project, workspace_folder, env),
        mount_args_spec(mounts, project, env),
        substituted_spec(user_args, project, env),
    ) {
        (Some(w), Some(m), Some(u)) => Some(w + m + u),
        _ => None,
    }
}

fn mount_args(mounts: &Vec<Json>, project_path: &str, env: &Vec<(String, String)>) -> (r: Option<
    Vec<String>,
>)
    ensures
        r.deep_view() == mount_args_spec(mounts@, project_path@, env.deep_view()),
{
    let mut out: Vec<String> = Vec::new();
    let ghost all = mounts@;
    assert(out.deep_view() =~= seq![]);
    assert(all.take(0) =~= seq![]);
    for i in 0..mounts.len()
        invariant
            all == mounts@,
            mount_args_spec(all.take(i as int), project_path@, env.deep_view()) == Some(
                out.deep_view(),
            ),
    {
        assert(all.take(i + 1).drop_last() =~= all.take(i as int));
        let ghost before = out.deep_view();
        match mount_to_arg(&mounts[i], project_path, env) {
            Some(Some(m)) => {
                push(&mut out, "--mount");
                push(&mut out, m.as_str());
                assert(out.deep_view() =~= before + seq!["--mount"@, m@]);
            },
            Some(None) => {},
            None => {
                proof {
                    lemma_mounts_fail(all, project_path@, env.deep_view(), i + 1);
                }
                return None;
            },
        }
    }
    assert(all.take(all.len() as int) =~= all);
    Some(out)
}

proof fn lemma_mounts_fail(mounts: Seq<Json>, project: Seq<char>, env: Seq<table::Entry>, i: int)
    requires
        0 <= i <= mounts.len(),
        mount_args_spec(mounts.take(i), project, env) is None,
    ensures
        mount_args_spec(mounts, project, env) is None,
    decreases mounts.len() - i,
{
    if i == mounts.len() {
        assert(mounts.take(i) =~= mounts);
    } else {
        assert(mounts.take(i + 1).drop_last() =~= mounts.take(i));
        lemma_mounts_fail(mounts, project, env, i + 1);
    }
}

proof fn lemma_texts_fail(
    items: Seq<Seq<char>>,
    project: Seq<char>,
    env: Seq<table::Entry>,
    i: int,
)
    requires
        0 <= i <= items.len(),
        substituted_spec(items.take(i), project, env) is None,
    ensures
        substituted_spec(items, project, env) is None,
    decreases items.len() - i,
{
    if i == items.len() {
        assert(items.take(i) =~= items);
    } else {
        assert(items.take(i + 1).drop_last() =~= items.take(i));
        lemma_texts_fail(items, project, env, i + 1);
    }
}

fn substituted(items: &Vec<String>, project_path: &str, env: &Vec<(String, String)>) -> (r: Option<
    Vec<String>,
>)
    ensures
        r.deep_view() == substituted_spec(items.deep_view(), project_path@, env.deep_view()),
{
    let mut out: Vec<String> = Vec::new();
    let ghost all = items.deep_view();
    assert(out.deep_view() =~= seq![]);
    assert(all.take(0) =~= seq![]);
    for i in 0..items.len()
        invariant
            all == items.deep_view(),
            substituted_spec(all.take(i as int), project_path@, env.deep_view()) == Some(
                out.deep_view(),
            ),
    {
        assert(all.take(i + 1).drop_last() =~= all.take(i as int));
        assert(all[i as int] == items@[i as int]@);
        match substitute_vars(items[i].as_str(), project_path, env) {
            Some(s) => push(&mut out, s.as_str()),
            None => {
                proof {
                    lemma_texts_fail(all, project_path@, env.deep_view(), i + 1);
                }
                return None;
            },
        }
    }
    assert(all.take(all.len() as int) =~= all);
    Some(out)
}

/// Builds the `docker run` arguments: the workspace mount (or a default bind),
/// the working dir, any extra `mounts`, and the user's `runArgs`. There is no
/// result where variables refer to each other without end.
pub fn build_run_args(
    user_args: &Option<Vec<String>>,
    workspace_mount: &Option<String>,
    mounts: &Option<Vec<Json>>,
    project_path: &str,
    workspace_folder: &str,
    env: &Vec<(String, String)>,
) -> (r: Option<Vec<String>>)
    ensures
        r.deep_view() == run_args_spec(
            texts(*user_args),
            workspace_mount.deep_view(),
            ports::listed(*mounts),
            project_path@,
            workspace_folder@,
            env.deep_view(),
        ),
{
    let mut args: Vec<String> = match workspace_mount {
        Some(m) => match substitute_vars(m.as_str(), project_path, env) {
            Some(s) => args4("--mount", s.as_str(), "-w", workspace_folder),
            None => {
                return None;
            },
        },
        None => args4(
            "-v",
            cat3(project_path, ":", workspace_folder).as_str(),
            "-w",
            workspace_folder,
        ),
    };
    let ghost head = args.deep_view();
    let ghost e = env.deep_view();
    assert(workspace_args(
        workspace_mount.deep_view(),
        project_path@,
        workspace_folder@,
        e,
    ) == Some(head));
    if let Some(v) = mounts {
        match mount_args(v, project_path, env) {
            Some(m) => push_list(&mut args, &m),
            None => {
                return None;
            },
        }
    } else {
        assert(head + seq![] =~= head);
    }
    let ghost middle = args.deep_view();
    if let Some(v) = user_args {
        match substituted(v, project_path, env) {
            Some(u) => push_list(&mut args, &u),
            None => {
                return None;
            },
        }
    } else {
        assert(middle + seq![] =~= middle);
    }
    Some(args)
}

// ── laws ──────────────────────────────────────────────────────────────────────

proof fn lemma_substituted(
    items: Seq<Seq<char>>,
    project: Seq<char>,
    env: Seq<table::Entry>,
    i: int,
)
    requires
        0 <= i < items.len(),
        substituted_spec(items, project, env) is Some,
    ensures
        substituted_spec(items, project, env)->0.len() == items.len(),
        vars::substitute_spec(items[i], project, env) == Some(
            substituted_spec(items, project, env)->0[i],
        ),
    decreases items.len(),
{
    let init = items.drop_last();
    if init.len() > 0 {
        lemma_substituted(
            init,
            project,
            env,
            if i < init.len() {
                i
            } else {
                0
            },
        );
    } else {
        assert(substituted_spec(init, project, env)->0.len() == 0);
    }
}

/// The workspace is mounted first, and the container works in it: as the
/// configuration says, or by a bind mount of the project to the workspace folder.
pub proof fn workspace_is_mounted(
    user_args: Seq<Seq<char>>,
    workspace_mount: Option<Seq<char>>,
    mounts: Seq<Json>,
    project: Seq<char>,
    workspace_folder: Seq<char>,
    env: Seq<table::Entry>,
)
    ensures
        run_args_spec(user_args, workspace_mount, mounts, project, workspace_folder, env) matches Some(
            a,
        ) ==> {
            &&& a.len() >= 4 + user_args.len()
            &&& match workspace_mount {
                Some(m) => a[0] == "--mount"@ && vars::substitute_spec(m, project, env) == Some(
                    a[1],
                ),
                None => a[0] == "-v"@ && a[1] == project + ":"@ + workspace_folder,
            }
            &&& a[2] == "-w"@
            &&& a[3] == workspace_folder
        },
{
    if let Some(a) = run_args_spec(
        user_args,
        workspace_mount,
        mounts,
        project,
        workspace_folder,
        env,
    ) {
        if user_args.len() > 0 {
            lemma_substituted(user_args, project, env, 0);
        }
    }
}

/// The user's own arguments come last, in order, with their variables resolved.
pub proof fn own_arguments_come_last(
    user_args: Seq<Seq<char>>,
    workspace_mount: Option<Seq<char>>,
    mounts: Seq<Json>,
    project: Seq<char>,
    workspace_folder: Seq<char>,
    env: Seq<table::Entry>,
    i: int,
)
    requires
        0 <= i < user_args.len(),
    ensures
        run_args_spec(user_args, workspace_mount, mounts, project, workspace_folder, env) matches Some(
            a,
        ) ==> vars::substitute_spec(user_args[i], project, env) == Some(
            a[a.len() - user_args.len() + i],
        ),
{
    if let Some(a) = run_args_spec(
        user_args,
        workspace_mount,
        mounts,
        project,
        workspace_folder,
        env,
    ) {
        lemma_substituted(user_args, project, env, i);
        let u = substituted_spec(user_args, project, env)->0;
        assert(a[a.len() - u.len() + i] == u[i]);
    }
}

proof fn lemma_mounted(
    mounts: Seq<Json>,
    project: Seq<char>,
    env: Seq<table::Entry>,
    i: int,
    m: Seq<char>,
) -> (k: int)
    requires
        0 <= i < mounts.len(),
        mount_arg_spec(mounts[i], project, env) == Some(Some(m)),
        mount_args_spec(mounts, project, env) is Some,
    ensures
        0 <= k,
        k + 1 < mount_args_spec(mounts, project, env)->0.len(),
        mount_args_spec(mounts, project, env)->0[k] == "--mount"@,
        mount_args_spec(mounts, project, env)->0[k + 1] == m,
    decreases mounts.len(),
{
    let all = mount_args_spec(mounts, project, env)->0;
    if i == mounts.len() - 1 {
        all.len() - 2
    } else {
        lemma_mounted(mounts.drop_last(), project, env, i, m)
    }
}

/// Every mount that the configuration asks for is given to the container.
pub proof fn every_mount_is_given(
    user_args: Seq<Seq<char>>,
    workspace_mount: Option<Seq<char>>,
    mounts: Seq<Json>,
    project: Seq<char>,
    workspace_folder: Seq<char>,
    env: Seq<table::Entry>,
    i: int,
    m: Seq<char>,
)
    requires
        0 <= i < mounts.len(),
        mount_arg_spec(mounts[i], project, env) == Some(Some(m)),
    ensures
        run_args_spec(user_args, workspace_mount, mounts, project, workspace_folder, env) matches Some(
            a,
        ) ==> exists|k: int|
            4 <= k && k + 1 < a.len() - user_args.len() && a[k] == "--mount"@ && #[trigger] a[k + 1]
                == m,
{
    if let Some(a) = run_args_spec(
        user_args,
        workspace_mount,
        mounts,
        project,
        workspace_folder,
        env,
    ) {
        let k = lemma_mounted(mounts, project, env, i, m);
        let own = mount_args_spec(mounts, project, env)->0;
        if user_args.len() > 0 {
            lemma_substituted(user_args, project, env, 0);
        }
        assert(a[4 + k] == own[k]);
        assert(a[4 + k + 1] == own[k + 1]);
    }
}

/// A mount that is a text is given with its variables resolved.
pub proof fn text_mounts_are_resolved(
    m: Json,
    s: String,
    project: Seq<char>,
    env: Seq<table::Entry>,
    value: Seq<char>,
)
    requires
        m.kind == JsonKind::Text(s),
        vars::substitute_spec(s@, project, env) == Some(value),
    ensures
        mount_arg_spec(m, project, env) == Some(Some(value)),
{
}

/// A mount that is an object is given by its type, its source, with the variables
/// resolved, and its target, each where it is set.
pub proof fn object_mounts_are_resolved(
    m: Json,
    fields: Vec<(String, Json)>,
    project: Seq<char>,
    env: Seq<table::Entry>,
    source: Seq<char>,
    value: Seq<char>,
    target: Seq<char>,
)
    requires
        m.kind == JsonKind::Object(fields),
        json::text_field_spec(fields@, "source"@) == Some(source),
        json::text_field_spec(fields@, "target"@) == Some(target),
        vars::substitute_spec(source, project, env) == Some(value),
    ensures
        match json::text_field_spec(fields@, "type"@) {
            Some(kind) => mount_arg_spec(m, project, env) == Some(
                Some("type="@ + kind + ",source="@ + value + ",target="@ + target),
            ),
            None => mount_arg_spec(m, project, env) == Some(
                Some("source="@ + value + ",target="@ + target),
            ),
        },
{
    reveal_strlit("type");
    reveal_strlit("source");
    reveal_strlit("target");
    reveal_strlit("=");
    reveal_strlit(",");
    reveal_strlit("type=");
    reveal_strlit("source=");
    reveal_strlit(",source=");
    reveal_strlit(",target=");
    let s = "source"@ + "="@ + value;
    let t = "target"@ + "="@ + target;
    let two = seq![s, t];
    assert(two.drop_last() =~= seq![s]);
    assert(text::join_spec(seq![s], ","@) == s);
    assert(text::join_spec(two, ","@) =~= "source="@ + value + ",target="@ + target);
    match json::text_field_spec(fields@, "type"@) {
        Some(kind) => {
            let k = "type"@ + "="@ + kind;
            let three = seq![k, s, t];
            let parts = part("type"@, Some(kind)) + part("source"@, Some(value)) + part(
                "target"@,
                Some(target),
            );
            assert(parts =~= three);
            assert(three.drop_last() =~= seq![k, s]);
            assert(seq![k, s].drop_last() =~= seq![k]);
            assert(text::join_spec(seq![k], ","@) == k);
            let head = text::join_spec(seq![k, s], ","@);
            assert(head =~= "type="@ + kind + ",source="@ + value);
            assert(text::join_spec(three, ","@) == head + ","@ + t);
            assert(","@ + t =~= ",target="@ + target);
            assert(text::join_spec(three, ","@) =~= "type="@ + kind + ",source="@ + value
                + ",target="@ + target);
        },
        None => {
            let parts = part("type"@, None) + part("source"@, Some(value)) + part(
                "target"@,
                Some(target),
            );
            assert(parts =~= two);
        },
    }
}

} // verus!
