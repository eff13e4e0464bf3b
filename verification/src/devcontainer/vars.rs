//! Variables in devcontainer.json.
use vstd::prelude::*;

use crate::docker;
use crate::docker::shell_quote;
use crate::path;
use crate::shell;
use crate::table;
use crate::text;
use crate::text::cat3;

verus! {

/// What starts a reference to a variable of the local environment.
pub const LOCAL_ENV: &'static str = "${localEnv:";

/// The value of a variable of the local environment; nothing if it is not set.
pub open spec fn local_value(env: Seq<table::Entry>, name: Seq<char>) -> Seq<char> {
    match table::get(env, name) {
        Some(v) => v,
        None => seq![],
    }
}

/// Where the first complete reference to a variable of the local environment
/// stands in a text: its start, and the position of its closing brace.
pub open spec fn reference_at(s: Seq<char>) -> Option<(int, int)> {
    match text::find_spec(s, LOCAL_ENV@) {
        Some(start) => match text::index_spec(s.skip(start), '}') {
            Some(rel) => Some((start, start + rel)),
            None => None,
        },
        None => None,
    }
}

/// The text with its first reference replaced by the value.
pub open spec fn expand_once(s: Seq<char>, env: Seq<table::Entry>) -> Seq<char> {
    match reference_at(s) {
        Some((start, end)) => s.take(start) + local_value(env, s.subrange(start + 11, end))
            + s.skip(end + 1),
        None => s,
    }
}

/// The text with one reference after the other replaced, until none is left.
/// Values may bring in further references; there is no result if some are left
/// after the given number of replacements.
pub open spec fn expand(s: Seq<char>, env: Seq<table::Entry>, fuel: nat) -> Option<Seq<char>>
    decreases fuel,
{
    if reference_at(s) is None {
        Some(s)
    } else if fuel == 0 {
        None
    } else {
        expand(expand_once(s, env), env, (fuel - 1) as nat)
    }
}

/// The project's directory name; nothing if it has none.
pub open spec fn base_name(project: Seq<char>) -> Seq<char> {
    match path::file_name_spec(project) {
        Some(name) => name,
        None => seq![],
    }
}

/// The text with the variables resolved that stand for something on the host:
/// the workspace folder, its name, and the local environment.
pub open spec fn substitute_spec(s: Seq<char>, project: Seq<char>, env: Seq<table::Entry>) -> Option<
    Seq<char>,
> {
    expand(
        text::replace_spec(
            text::replace_spec(s, "${localWorkspaceFolder}"@, project),
            "${localWorkspaceFolderBasename}"@,
            base_name(project),
        ),
        env,
        u64::MAX as nat,
    )
}

/// A closing brace comes behind the opening of a reference.
proof fn lemma_reference(s: Seq<char>)
    ensures
        reference_at(s) matches Some((start, end)) ==> {
            &&& 0 <= start
            &&& start + 11 <= end < s.len()
            &&& s[end] == '}'
            &&& s[start] == '$'
        },
{
    reveal_strlit("${localEnv:");
    text::lemma_find(s, LOCAL_ENV@, 0);
    if let Some(start) = text::find_spec(s, LOCAL_ENV@) {
        let rest = s.skip(start);
        text::lemma_index(rest, '}', 0);
        assert(s.subrange(start, start + 11) == LOCAL_ENV@);
        assert(s.subrange(start, start + 11)[0] == '$');
        if let Some(rel) = text::index_spec(rest, '}') {
            assert(rest[rel] == '}');
            if rel < 11 {
                assert(s.subrange(start, start + 11)[rel] == rest[rel]);
                assert(LOCAL_ENV@[rel] != '}');
            }
        }
    }
}

/// Resolves the devcontainer variable subset that can appear on the host side.
/// There is no result where the values of the environment refer to each other
/// without end.
pub fn substitute_vars(s: &str, project_path: &str, env: &Vec<(String, String)>) -> (r: Option<
    String,
>)
    ensures
        r.deep_view() == substitute_spec(s@, project_path@, env.deep_view()),
{
    proof {
        reveal_strlit("${localWorkspaceFolder}");
        reveal_strlit("${localWorkspaceFolderBasename}");
        reveal_strlit("${localEnv:");
        reveal_strlit("");
        assert(""@ =~= seq![]);
    }
    let name = match path::file_name(project_path) {
        Some(n) => n,
        None => "",
    };
    let first = text::replace(s, "${localWorkspaceFolder}", project_path);
    let mut out = text::replace(first.as_str(), "${localWorkspaceFolderBasename}", name);
    let ghost start_text = out@;
    let mut fuel: u64 = u64::MAX;
    loop
        invariant_except_break
            expand(start_text, env.deep_view(), u64::MAX as nat) == expand(
                out@,
                env.deep_view(),
                fuel as nat,
            ),
        invariant
            LOCAL_ENV@.len() == 11,
            ""@ == Seq::<char>::empty(),
            substitute_spec(s@, project_path@, env.deep_view()) == expand(
                start_text,
                env.deep_view(),
                u64::MAX as nat,
            ),
        ensures
            reference_at(out@) is None,
            expand(start_text, env.deep_view(), u64::MAX as nat) == Some(out@),
        decreases fuel,
    {
        proof {
            lemma_reference(out@);
        }
        let at: usize = match text::find(out.as_str(), LOCAL_ENV) {
            Some(at) => at,
            None => {
                break;
            },
        };
        let rel: usize = match text::index_of(text::skip(out.as_str(), at), '}') {
            Some(rel) => rel,
            None => {
                break;
            },
        };
        if fuel == 0 {
            return None;
        }
        let behind = text::skip(out.as_str(), at + rel + 1);
        let var = text::skip(text::take(out.as_str(), at + rel), at + 11);
        assert(var@ =~= out@.subrange(at + 11, at + rel));
        let value = match table::find(env, var) {
            Some(v) => v,
            None => "",
        };
        let next = cat3(text::take(out.as_str(), at), value, behind);
        assert(next@ == expand_once(out@, env.deep_view()));
        out = next;
        fuel -= 1;
    }
    Some(out)
}

/// A value for the container's environment: host-side variables resolved, and
/// `${containerEnv:X}` rewritten to `${X}` so that the container's shell expands
/// it when the profile is sourced.
pub open spec fn normalize_spec(v: Seq<char>, project: Seq<char>, env: Seq<table::Entry>) -> Option<
    Seq<char>,
> {
    match substitute_spec(v, project, env) {
        Some(s) => Some(text::replace_spec(s, "${containerEnv:"@, "${"@)),
        None => None,
    }
}

/// A value for the container's environment.
pub fn normalize_env_value(v: &str, project_path: &str, env: &Vec<(String, String)>) -> (r: Option<
    String,
>)
    ensures
        r.deep_view() == normalize_spec(v@, project_path@, env.deep_view()),
{
    proof {
        reveal_strlit("${containerEnv:");
    }
    match substitute_vars(v, project_path, env) {
        Some(s) => Some(text::replace(s.as_str(), "${containerEnv:", "${")),
        None => None,
    }
}

// ── values in profiles ────────────────────────────────────────────────────────

/// Where the first complete `${…}` stands in a text: its start, and the position
/// behind its closing brace.
pub open spec fn braces_at(s: Seq<char>) -> Option<(int, int)> {
    match text::find_spec(s, "${"@) {
        Some(start) => match text::index_spec(s.skip(start), '}') {
            Some(rel) => Some((start, start + rel + 1)),
            None => None,
        },
        None => None,
    }
}

/// A text quoted, if there is any.
pub open spec fn quoted_run(s: Seq<char>) -> Seq<char> {
    if s.len() == 0 {
        seq![]
    } else {
        docker::shell_quote_spec(s)
    }
}

/// A value for an `export` line: literal runs quoted, `${VAR}` references bare,
/// so that the login shell expands them.
pub open spec fn quote_env_spec(v: Seq<char>) -> Seq<char>
    decreases v.len(),
{
    match braces_at(v) {
        Some((start, end)) => if 0 <= start < end <= v.len() {
            quoted_run(v.take(start)) + v.subrange(start, end) + quote_env_spec(v.skip(end))
        } else {
            quoted_run(v)
        },
        None => quoted_run(v),
    }
}

/// Renders a value for a POSIX `export K=<value>` line. Literal runs are
/// shell-quoted so spaces and metacharacters are safe, while `${VAR}` references
/// are left bare so the login shell still expands them.
pub fn quote_env_value(v: &str) -> (r: String)
    ensures
        r@ == quote_env_spec(v@),
{
    let mut out = String::new();
    let mut rest = v;
    assert(out@ + quote_env_spec(rest@) =~= quote_env_spec(v@));
    loop
        invariant_except_break
            out@ + quote_env_spec(rest@) == quote_env_spec(v@),
        ensures
            out@ + quoted_run(rest@) == quote_env_spec(v@),
        decreases rest@.len(),
    {
        let start: usize = match text::find(rest, "${") {
            Some(start) => start,
            None => {
                break;
            },
        };
        let rel: usize = match text::index_of(text::skip(rest, start), '}') {
            Some(rel) => rel,
            None => {
                break;
            },
        };
        let ghost before = out@;
        let head = text::take(rest, start);
        let end: usize = start + rel + 1;
        let reference = text::skip(text::take(rest, end), start);
        assert(reference@ =~= rest@.subrange(start as int, end as int));
        if start > 0 {
            out.append(shell_quote(head).as_str());
        }
        out.append(reference);
        let tail = text::skip(rest, end);
        assert(out@ + quote_env_spec(tail@) =~= before + (quoted_run(head@) + reference@
            + quote_env_spec(tail@)));
        rest = tail;
    }
    if !rest.is_empty() {
        out.append(shell_quote(rest).as_str());
    }
    assert(out@ =~= quote_env_spec(v@));
    out
}

/// The lines of the profile, each quoted: one `export` per variable.
pub open spec fn export_words(env: Seq<table::Entry>) -> Seq<Seq<char>> {
    env.map_values(
        |e: table::Entry|
            docker::shell_quote_spec("export "@ + e.0 + "="@ + quote_env_spec(e.1)),
    )
}

/// The script that writes the profile. The lines are written verbatim, so that
/// `${VAR}` references inside values expand when the profile is sourced.
pub open spec fn env_script(env: Seq<table::Entry>) -> Seq<char> {
    "printf '%s\\n' "@ + text::join_spec(export_words(env), " "@)
        + " > /etc/profile.d/graft-env.sh"@
}

/// The script that writes the profile.
pub fn env_profile(env: &Vec<(String, String)>) -> (r: String)
    ensures
        r@ == env_script(env.deep_view()),
{
    let mut lines: Vec<String> = Vec::new();
    let ghost all = export_words(env.deep_view());
    for i in 0..env.len()
        invariant
            all == export_words(env.deep_view()),
            lines.deep_view() == all.take(i as int),
    {
        let ghost before = lines.deep_view();
        let mut line = cat3("export ", env[i].0.as_str(), "=");
        line.append(quote_env_value(env[i].1.as_str()).as_str());
        let word = shell_quote(line.as_str());
        assert(env.deep_view()[i as int] == env@[i as int].deep_view());
        lines.push(word);
        assert(lines.deep_view() =~= before.push(word@));
        assert(lines.deep_view() =~= all.take(i + 1));
    }
    assert(lines.deep_view() =~= all);
    cat3(
        "printf '%s\\n' ",
        text::join(&lines, " ").as_str(),
        " > /etc/profile.d/graft-env.sh",
    )
}

/// The variables that are handed to hooks directly: those whose value refers to
/// no other, since a reference would be set literally rather than expanded.
pub open spec fn exec_env_spec(env: Seq<table::Entry>) -> Seq<table::Entry>
    decreases env.len(),
{
    if env.len() == 0 {
        seq![]
    } else {
        let rest = exec_env_spec(env.drop_last());
        if text::contains_spec(env.last().1, "${"@) {
            rest
        } else {
            rest.push(env.last())
        }
    }
}

/// The variables that are handed to hooks directly.
pub fn exec_env(env: &Vec<(String, String)>) -> (r: Vec<(String, String)>)
    ensures
        r.deep_view() == exec_env_spec(env.deep_view()),
{
    let mut out: Vec<(String, String)> = Vec::new();
    let ghost all = env.deep_view();
    assert(out.deep_view() =~= exec_env_spec(all.take(0)));
    for i in 0..env.len()
        invariant
            all == env.deep_view(),
            out.deep_view() == exec_env_spec(all.take(i as int)),
    {
        assert(all.take(i + 1).drop_last() =~= all.take(i as int));
        let ghost before = out.deep_view();
        if !text::contains(env[i].1.as_str(), "${") {
            let pair = (env[i].0.clone(), env[i].1.clone());
            out.push(pair);
            assert(out.deep_view() =~= before.push(all[i as int]));
        }
    }
    assert(all.take(all.len() as int) =~= all);
    out
}

// ── laws ──────────────────────────────────────────────────────────────────────

/// The number of dollar signs in a text.
pub open spec fn dollars(s: Seq<char>) -> nat
    decreases s.len(),
{
    if s.len() == 0 {
        0
    } else {
        dollars(s.drop_last()) + (if s.last() == '$' {
            1nat
        } else {
            0nat
        })
    }
}

proof fn lemma_dollars_concat(a: Seq<char>, b: Seq<char>)
    ensures
        dollars(a + b) == dollars(a) + dollars(b),
    decreases b.len(),
{
    if b.len() == 0 {
        assert(a + b =~= a);
    } else {
        lemma_dollars_concat(a, b.drop_last());
        assert((a + b).drop_last() =~= a + b.drop_last());
    }
}

proof fn lemma_no_dollars(s: Seq<char>)
    requires
        forall|i: int| 0 <= i < s.len() ==> s[i] != '$',
    ensures
        dollars(s) == 0,
    decreases s.len(),
{
    if s.len() > 0 {
        lemma_no_dollars(s.drop_last());
    }
}

/// A result of the expansion is the same however many replacements more would
/// have been allowed, and holds no complete reference any more.
pub proof fn expansion_is_stable(s: Seq<char>, env: Seq<table::Entry>, fuel: nat, more: nat)
    requires
        expand(s, env, fuel) is Some,
        fuel <= more,
    ensures
        expand(s, env, more) == expand(s, env, fuel),
        reference_at(expand(s, env, fuel)->0) is None,
    decreases fuel,
{
    if reference_at(s) is Some {
        expansion_is_stable(
            expand_once(s, env),
            env,
            (fuel - 1) as nat,
            (more - 1) as nat,
        );
    }
}

/// The expansion comes to an end where no value of the environment holds a
/// dollar sign: each replacement then uses one up.
pub proof fn expansion_ends_without_nested_references(s: Seq<char>, env: Seq<table::Entry>)
    requires
        forall|k: Seq<char>, i: int|
            0 <= i < local_value(env, k).len() ==> #[trigger] local_value(env, k)[i] != '$',
    ensures
        expand(s, env, dollars(s)) is Some,
    decreases dollars(s),
{
    lemma_reference(s);
    if let Some((start, end)) = reference_at(s) {
        let name = s.subrange(start + 11, end);
        let value = local_value(env, name);
        let next = expand_once(s, env);
        let middle = s.subrange(start, end + 1);
        lemma_no_dollars(value);
        assert(s =~= s.take(start) + middle + s.skip(end + 1));
        lemma_dollars_concat(s.take(start), middle);
        lemma_dollars_concat(s.take(start) + middle, s.skip(end + 1));
        lemma_dollars_concat(s.take(start), value);
        lemma_dollars_concat(s.take(start) + value, s.skip(end + 1));
        assert(dollars(middle) >= 1) by {
            assert(middle =~= seq!['$'] + middle.skip(1));
            lemma_dollars_concat(seq!['$'], middle.skip(1));
            assert(seq!['$'].drop_last() =~= seq![]);
            assert(dollars(seq!['$']) == 1);
        }
        assert(dollars(next) < dollars(s));
        expansion_ends_without_nested_references(next, env);
        expansion_is_stable(next, env, dollars(next), (dollars(s) - 1) as nat);
    }
}

/// A text without references is left as it is.
pub proof fn plain_text_is_kept(s: Seq<char>, env: Seq<table::Entry>, fuel: nat)
    requires
        !text::contains_spec(s, LOCAL_ENV@),
    ensures
        expand(s, env, fuel) == Some(s),
{
    text::lemma_find_contains(s, LOCAL_ENV@);
}

/// A value without references is read back from an `export` line as it is.
pub proof fn plain_value_reads_back(v: Seq<char>)
    requires
        v.len() > 0,
        !text::contains_spec(v, "${"@),
    ensures
        shell::shell_words(quote_env_spec(v)) == Some(seq![v]),
{
    text::lemma_find_contains(v, "${"@);
    docker::quoted_text_reads_back(v);
}

/// A reference at the start of a value stays bare.
pub proof fn reference_stays_bare(name: Seq<char>, rest: Seq<char>)
    requires
        forall|i: int| 0 <= i < name.len() ==> name[i] != '}',
    ensures
        quote_env_spec("${"@ + name + "}"@ + rest) == "${"@ + name + "}"@ + quote_env_spec(rest),
{
    reveal_strlit("${");
    reveal_strlit("}");
    let head = "${"@ + name + "}"@;
    let v = head + rest;
    text::lemma_find(v, "${"@, 0);
    assert(text::occurs_at(v, "${"@, 0)) by {
        assert(v.subrange(0, 2) =~= "${"@);
    }
    assert(text::find_spec(v, "${"@) == Some(0int));
    assert(v.skip(0) =~= v);
    text::lemma_index(v, '}', 0);
    let n = name.len() as int + 2;
    assert(v[n] == '}');
    assert(text::index_spec(v, '}') == Some(n)) by {
        let k = text::index_spec(v, '}')->0;
        if k < n {
            if k >= 2 {
                assert(v[k] == name[k - 2]);
            } else {
                assert(v[k] == "${"@[k]);
            }
        }
    }
    assert(v.subrange(0, n + 1) =~= head);
    assert(v.skip(n + 1) =~= rest);
    assert(v.take(0) =~= seq![]);
    assert(quote_env_spec(v) =~= head + quote_env_spec(rest));
}

/// No variable that is handed to hooks directly refers to another, and each is
/// one of the environment.
pub proof fn hook_variables_are_literal(env: Seq<table::Entry>)
    ensures
        forall|i: int|
            0 <= i < exec_env_spec(env).len() ==> !text::contains_spec(
                (#[trigger] exec_env_spec(env)[i]).1,
                "${"@,
            ) && env.contains(exec_env_spec(env)[i]),
    decreases env.len(),
{
    if env.len() > 0 {
        let init = env.drop_last();
        hook_variables_are_literal(init);
        let out = exec_env_spec(env);
        let rest = exec_env_spec(init);
        assert forall|i: int| 0 <= i < out.len() implies !text::contains_spec(
            (#[trigger] out[i]).1,
            "${"@,
        ) && env.contains(out[i]) by {
            if i < rest.len() {
                assert(out[i] == rest[i]);
                let k = choose|k: int| 0 <= k < init.len() && init[k] == rest[i];
                assert(env[k] == out[i]);
            } else {
                assert(env[env.len() - 1] == out[i]);
            }
        }
    }
}

proof fn lemma_no_dollar(s: Seq<char>, pat: Seq<char>)
    requires
        forall|i: int| 0 <= i < s.len() ==> s[i] != '$',
        pat.len() > 0,
        pat[0] == '$',
    ensures
        !text::contains_spec(s, pat),
        forall|to: Seq<char>| text::replace_spec(s, pat, to) == s,
{
    assert forall|i: int| !text::occurs_at(s, pat, i) by {
        if text::occurs_at(s, pat, i) {
            assert(s.subrange(i, i + pat.len())[0] == s[i]);
        }
    }
    text::lemma_find_contains(s, pat);
}

proof fn lemma_one_dollar(a: Seq<char>, mid: Seq<char>, b: Seq<char>, pat: Seq<char>)
    requires
        forall|i: int| 0 <= i < a.len() ==> a[i] != '$',
        forall|i: int| 0 <= i < b.len() ==> b[i] != '$',
        forall|i: int| 1 <= i < mid.len() ==> mid[i] != '$',
        mid.len() > 0,
        pat.len() > 0,
        pat[0] == '$',
    ensures
        forall|i: int| text::occurs_at(a + mid + b, pat, i) ==> i == a.len(),
{
    let s = a + mid + b;
    assert forall|i: int| text::occurs_at(s, pat, i) implies i == a.len() by {
        assert(s.subrange(i, i + pat.len())[0] == s[i]);
        if i < a.len() {
            assert(s[i] == a[i]);
        } else if i > a.len() && i < a.len() + mid.len() {
            assert(s[i] == mid[i - a.len()]);
        } else if i >= a.len() + mid.len() {
            assert(s[i] == b[i - a.len() - mid.len()]);
        }
    }
}

proof fn lemma_nothing_to_expand(s: Seq<char>, env: Seq<table::Entry>)
    requires
        forall|i: int| 0 <= i < s.len() ==> s[i] != '$',
    ensures
        expand(s, env, u64::MAX as nat) == Some(s),
{
    reveal_strlit("${localEnv:");
    lemma_no_dollar(s, LOCAL_ENV@);
    plain_text_is_kept(s, env, u64::MAX as nat);
}

/// A text without a dollar sign is kept, whatever the project and the environment
/// are.
pub proof fn text_without_variables_is_kept(
    s: Seq<char>,
    project: Seq<char>,
    env: Seq<table::Entry>,
)
    requires
        forall|i: int| 0 <= i < s.len() ==> s[i] != '$',
    ensures
        substitute_spec(s, project, env) == Some(s),
        normalize_spec(s, project, env) == Some(s),
{
    reveal_strlit("${localWorkspaceFolder}");
    reveal_strlit("${localWorkspaceFolderBasename}");
    reveal_strlit("${containerEnv:");
    lemma_no_dollar(s, "${localWorkspaceFolder}"@);
    lemma_no_dollar(s, "${localWorkspaceFolderBasename}"@);
    lemma_no_dollar(s, "${containerEnv:"@);
    lemma_nothing_to_expand(s, env);
}

/// The workspace folder stands for the project, and its base name for the
/// project's directory name, between whatever texts.
pub proof fn workspace_variables_are_resolved(
    a: Seq<char>,
    b: Seq<char>,
    project: Seq<char>,
    env: Seq<table::Entry>,
)
    requires
        forall|i: int| 0 <= i < a.len() ==> a[i] != '$',
        forall|i: int| 0 <= i < b.len() ==> b[i] != '$',
        forall|i: int| 0 <= i < project.len() ==> project[i] != '$',
        forall|i: int| 0 <= i < base_name(project).len() ==> base_name(project)[i] != '$',
    ensures
        substitute_spec(a + "${localWorkspaceFolder}"@ + b, project, env) == Some(a + project + b),
        substitute_spec(a + "${localWorkspaceFolderBasename}"@ + b, project, env) == Some(
            a + base_name(project) + b,
        ),
{
    reveal_strlit("${localWorkspaceFolder}");
    reveal_strlit("${localWorkspaceFolderBasename}");
    let folder = "${localWorkspaceFolder}"@;
    let base = "${localWorkspaceFolderBasename}"@;
    let name = base_name(project);
    lemma_one_dollar(a, folder, b, folder);
    text::every_occurrence_is_replaced(a, folder, b, project);
    lemma_no_dollar(b, folder);
    let r = a + project + b;
    assert forall|i: int| 0 <= i < r.len() implies r[i] != '$' by {
        if i < a.len() {
            assert(r[i] == a[i]);
        } else if i < a.len() + project.len() {
            assert(r[i] == project[i - a.len()]);
        } else {
            assert(r[i] == b[i - a.len() - project.len()]);
        }
    }
    lemma_no_dollar(r, base);
    lemma_nothing_to_expand(r, env);
    let s = a + base + b;
    lemma_one_dollar(a, base, b, folder);
    assert(!text::contains_spec(s, folder)) by {
        if text::contains_spec(s, folder) {
            let i = choose|i: int| text::occurs_at(s, folder, i);
            assert(s.subrange(i, i + folder.len())[22] == s[a.len() as int + 22]);
            assert(s[a.len() as int + 22] == base[22]);
        }
    }
    text::lemma_find_contains(s, folder);
    assert(text::replace_spec(s, folder, project) == s);
    lemma_one_dollar(a, base, b, base);
    text::every_occurrence_is_replaced(a, base, b, name);
    lemma_no_dollar(b, base);
    let t = a + name + b;
    assert forall|i: int| 0 <= i < t.len() implies t[i] != '$' by {
        if i < a.len() {
            assert(t[i] == a[i]);
        } else if i < a.len() + name.len() {
            assert(t[i] == name[i - a.len()]);
        } else {
            assert(t[i] == b[i - a.len() - name.len()]);
        }
    }
    lemma_nothing_to_expand(t, env);
}

/// A variable of the local environment stands for its value, or for nothing where
/// it is not set, between whatever texts.
pub proof fn local_variables_are_resolved(
    a: Seq<char>,
    name: Seq<char>,
    b: Seq<char>,
    project: Seq<char>,
    env: Seq<table::Entry>,
)
    requires
        forall|i: int| 0 <= i < a.len() ==> a[i] != '$',
        forall|i: int| 0 <= i < b.len() ==> b[i] != '$',
        forall|i: int| 0 <= i < name.len() ==> name[i] != '$' && name[i] != '}',
        forall|i: int| 0 <= i < local_value(env, name).len() ==> local_value(env, name)[i] != '$',
    ensures
        substitute_spec(a + ("${localEnv:"@ + name + "}"@) + b, project, env) == Some(
            match table::get(env, name) {
                Some(v) => a + v + b,
                None => a + b,
            },
        ),
{
    reveal_strlit("${localEnv:");
    reveal_strlit("}");
    reveal_strlit("${localWorkspaceFolder}");
    reveal_strlit("${localWorkspaceFolderBasename}");
    let folder = "${localWorkspaceFolder}"@;
    let base = "${localWorkspaceFolderBasename}"@;
    let mid = "${localEnv:"@ + name + "}"@;
    let s = a + mid + b;
    let n = a.len() as int;
    let v = local_value(env, name);
    assert forall|i: int| 1 <= i < mid.len() implies mid[i] != '$' by {
        if i >= 11 && i < 11 + name.len() {
            assert(mid[i] == name[i - 11]);
        }
    }
    lemma_one_dollar(a, mid, b, folder);
    lemma_one_dollar(a, mid, b, base);
    lemma_one_dollar(a, mid, b, LOCAL_ENV@);
    assert(s[n + 7] == mid[7]);
    assert(!text::contains_spec(s, folder)) by {
        if text::contains_spec(s, folder) {
            let i = choose|i: int| text::occurs_at(s, folder, i);
            assert(s.subrange(i, i + folder.len())[7] == s[n + 7]);
        }
    }
    assert(!text::contains_spec(s, base)) by {
        if text::contains_spec(s, base) {
            let i = choose|i: int| text::occurs_at(s, base, i);
            assert(s.subrange(i, i + base.len())[7] == s[n + 7]);
        }
    }
    text::lemma_find_contains(s, folder);
    text::lemma_find_contains(s, base);
    assert(s.subrange(n, n + 11) =~= LOCAL_ENV@);
    assert(text::occurs_at(s, LOCAL_ENV@, n));
    text::lemma_find(s, LOCAL_ENV@, 0);
    assert(text::find_spec(s, LOCAL_ENV@) == Some(n));
    let behind = s.skip(n);
    let e = 11 + name.len() as int;
    assert(behind[e] == '}');
    assert forall|j: int| 0 <= j < e implies behind[j] != '}' by {
        assert(behind[j] == mid[j]);
        if j >= 11 {
            assert(mid[j] == name[j - 11]);
        }
    }
    text::lemma_index(behind, '}', 0);
    assert(text::index_spec(behind, '}') == Some(e));
    assert(reference_at(s) == Some((n, n + e)));
    assert(s.subrange(n + 11, n + e) =~= name);
    assert(s.take(n) =~= a);
    assert(s.skip(n + e + 1) =~= b);
    let t = a + v + b;
    assert(expand_once(s, env) == t);
    assert forall|i: int| 0 <= i < t.len() implies t[i] != '$' by {
        if i < a.len() {
            assert(t[i] == a[i]);
        } else if i < a.len() + v.len() {
            assert(t[i] == v[i - a.len()]);
        } else {
            assert(t[i] == b[i - a.len() - v.len()]);
        }
    }
    lemma_no_dollar(t, LOCAL_ENV@);
    plain_text_is_kept(t, env, (u64::MAX - 1) as nat);
    assert(expand(s, env, u64::MAX as nat) == expand(t, env, (u64::MAX - 1) as nat));
    if table::get(env, name) is None {
        assert(t =~= a + b);
    }
}

/// Every variable whose value refers to no other is handed to hooks directly.
pub proof fn literal_variables_reach_hooks(env: Seq<table::Entry>, i: int)
    requires
        0 <= i < env.len(),
        !text::contains_spec(env[i].1, "${"@),
    ensures
        exec_env_spec(env).contains(env[i]),
    decreases env.len(),
{
    let rest = exec_env_spec(env.drop_last());
    let all = exec_env_spec(env);
    if i == env.len() - 1 {
        assert(all[rest.len() as int] == env[i]);
    } else {
        literal_variables_reach_hooks(env.drop_last(), i);
        let k = choose|k: int| 0 <= k < rest.len() && rest[k] == env[i];
        assert(all[k] == env[i]);
    }
}

/// Every variable is exported by the profile, in order, one line for each.
pub proof fn every_variable_is_exported(env: Seq<table::Entry>, i: int)
    requires
        0 <= i < env.len(),
    ensures
        export_words(env).len() == env.len(),
        shell::shell_words(export_words(env)[i]) == Some(
            seq!["export "@ + env[i].0 + "="@ + quote_env_spec(env[i].1)],
        ),
{
    docker::quoted_text_reads_back("export "@ + env[i].0 + "="@ + quote_env_spec(env[i].1));
}

/// A reference to a variable of the container is left to the container's shell.
pub proof fn container_references_are_left_to_the_shell(
    a: Seq<char>,
    b: Seq<char>,
    project: Seq<char>,
    env: Seq<table::Entry>,
)
    requires
        forall|i: int| 0 <= i < a.len() ==> a[i] != '$',
        forall|i: int| 0 <= i < b.len() ==> b[i] != '$',
    ensures
        normalize_spec(a + "${containerEnv:"@ + b, project, env) == Some(a + "${"@ + b),
{
    reveal_strlit("${containerEnv:");
    reveal_strlit("${");
    reveal_strlit("${localWorkspaceFolder}");
    reveal_strlit("${localWorkspaceFolderBasename}");
    reveal_strlit("${localEnv:");
    let mid = "${containerEnv:"@;
    let s = a + mid + b;
    let n = a.len() as int;
    assert(s[n + 2] == 'c');
    lemma_foreign(a, mid, b, "${localWorkspaceFolder}"@);
    lemma_foreign(a, mid, b, "${localWorkspaceFolderBasename}"@);
    lemma_foreign(a, mid, b, LOCAL_ENV@);
    text::lemma_find_contains(s, "${localWorkspaceFolder}"@);
    text::lemma_find_contains(s, "${localWorkspaceFolderBasename}"@);
    plain_text_is_kept(s, env, u64::MAX as nat);
    assert(substitute_spec(s, project, env) == Some(s));
    lemma_one_dollar(a, mid, b, mid);
    text::every_occurrence_is_replaced(a, mid, b, "${"@);
    lemma_no_dollar(b, mid);
}

proof fn lemma_foreign(a: Seq<char>, mid: Seq<char>, b: Seq<char>, pat: Seq<char>)
    requires
        forall|i: int| 0 <= i < a.len() ==> a[i] != '$',
        forall|i: int| 0 <= i < b.len() ==> b[i] != '$',
        forall|i: int| 1 <= i < mid.len() ==> mid[i] != '$',
        mid.len() > 2,
        pat.len() > 2,
        pat[0] == '$',
        pat[2] != mid[2],
    ensures
        !text::contains_spec(a + mid + b, pat),
{
    let s = a + mid + b;
    lemma_one_dollar(a, mid, b, pat);
    if text::contains_spec(s, pat) {
        let i = choose|i: int| text::occurs_at(s, pat, i);
        assert(s.subrange(i, i + pat.len())[2] == s[i + 2]);
        assert(s[i + 2] == mid[2]);
    }
}

} // verus!
