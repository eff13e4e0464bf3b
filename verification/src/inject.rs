//! Bringing the user's tools and settings into a container.
use vstd::prelude::*;

use crate::config::{Config, Injectable};
use crate::deps;
use crate::docker;
use crate::docker::{shell_quote, Docker};
use crate::invocation;
use crate::invocation::{
    args2, args3, captured, copy_list, copy_opt, push, Failure, Invocation, Job, Output,
};
use crate::num;
use crate::num::decimal;
use crate::path;
use crate::runtime::Runtime;
use crate::script;
use crate::script::{no_steps, one_step, then_step, Step};
use crate::shell;
use crate::table;
use crate::text;
use crate::text::{cat, cat3, cat4, cat5, same};

verus! {

/// Where grafted libraries stand in a container.
pub const GRAFT_LIB: &'static str = "/opt/graft/lib";

/// Where grafted binaries stand in a container.
pub const GRAFT_BIN: &'static str = "/opt/graft/bin";

/// Where the dynamic linker stands too, so that a binary patched to
/// `/graft/<ld>` finds its interpreter when it is run directly.
pub const GRAFT_DIR: &'static str = "/graft";

// ── paths ─────────────────────────────────────────────────────────────────────

/// A path with a leading `~` replaced by the home directory, without slashes at
/// its end unless it is the root.
pub open spec fn resolve_home_spec(p: Seq<char>, home: Seq<char>) -> Seq<char> {
    let base = text::strip_end_spec(home, '/');
    if p == "~"@ {
        if base.len() == 0 && home.len() > 0 {
            "/"@
        } else {
            base
        }
    } else if "~/"@.is_prefix_of(p) {
        base + "/"@ + p.skip(2)
    } else {
        p
    }
}

/// Expands a leading `~` to the container user's home directory.
pub fn resolve_home(path: &str, home: &str) -> (r: String)
    ensures
        r@ == resolve_home_spec(path@, home@),
{
    let base = text::strip_end(home, '/');
    if same(path, "~") {
        if base.is_empty() && !home.is_empty() {
            return "/".to_string();
        }
        return base.to_string();
    }
    if text::starts_with(path, "~/") {
        proof {
            reveal_strlit("~/");
        }
        return cat3(base, "/", text::skip(path, 2));
    }
    path.to_string()
}

/// The name that a path ends in, or `graft` where it has none.
pub open spec fn file_stem_spec(p: Seq<char>) -> Seq<char> {
    match path::file_name_spec(p) {
        Some(name) => name,
        None => "graft"@,
    }
}

/// The name that a path ends in, or `graft` where it has none.
pub fn file_stem(path: &str) -> (r: String)
    ensures
        r@ == file_stem_spec(path@),
{
    match path::file_name(path) {
        Some(name) => name.to_string(),
        None => "graft".to_string(),
    }
}

/// The directory that a file inside a container stands in.
pub open spec fn parent_dir(p: Seq<char>) -> Seq<char> {
    match path::parent_spec(p) {
        Some(q) => q,
        None => "/"@,
    }
}

/// A write of the setup in a container, as root: what it writes to is root's.
pub open spec fn setup_step(docker: Docker, container: Seq<char>, argv: Seq<Seq<char>>)
    -> script::StepView {
    script::StepView::Run(docker.exec_spec(container, argv, true))
}

/// A command in a container, as its default user.
pub open spec fn exec_step(docker: Docker, container: Seq<char>, argv: Seq<Seq<char>>)
    -> script::StepView {
    script::StepView::Run(docker.exec_spec(container, argv, false))
}

/// Makes the directory that a file inside a container stands in.
pub open spec fn ensure_parent_spec(docker: Docker, container: Seq<char>, p: Seq<char>)
    -> script::StepView {
    script::StepView::Run(
        docker.exec_spec(container, seq!["mkdir"@, "-p"@, parent_dir(p)], true),
    )
}

fn setup_one(docker: &Docker, container: &str, argv: Vec<String>) -> (r: Step)
    ensures
        r.deep_view() == setup_step(*docker, container@, argv.deep_view()),
{
    Step::Run(docker.exec_with(container, argv, true))
}

fn exec_one(docker: &Docker, container: &str, argv: Vec<String>) -> (r: Step)
    ensures
        r.deep_view() == exec_step(*docker, container@, argv.deep_view()),
{
    Step::Run(docker.exec_with(container, argv, false))
}

fn ensure_parent(docker: &Docker, container: &str, p: &str) -> (r: Step)
    ensures
        r.deep_view() == ensure_parent_spec(*docker, container@, p@),
{
    let parent = match path::parent(p) {
        Some(q) => q,
        None => "/",
    };
    Step::Run(docker.exec_with(container, args3("mkdir", "-p", parent), true))
}

/// A temporary file.
pub open spec fn temp_spec(rt: Runtime, name: Seq<char>) -> Seq<char> {
    path::join_spec(rt.temp_dir@, name)
}

// ── binaries ──────────────────────────────────────────────────────────────────

/// Where a grafted binary stands.
pub open spec fn graft_binary_spec(name: Seq<char>) -> Seq<char> {
    GRAFT_BIN@ + "/"@ + name
}

/// Where the wrapper of a grafted binary stands.
pub open spec fn binary_target(item: Injectable, home: Seq<char>) -> Seq<char> {
    resolve_home_spec(
        match item.target_binary {
            Some(t) => t@,
            None => "/usr/local/bin/"@ + item.name@,
        },
        home,
    )
}

/// A copy of a binary, patched so that it runs directly against the grafted
/// libraries: the grafted linker is its interpreter, and the search path is
/// baked in as `DT_RPATH`, which also resolves transitive dependencies.
pub open spec fn patch_spec(rt: Runtime, binary: Seq<char>, linker: Seq<char>) -> Seq<
    script::StepView,
> {
    let temp = temp_spec(rt, "graft-patched-"@ + file_stem_spec(binary));
    seq![
        script::StepView::CopyToTemp {
            source: binary,
            temp,
            context: "reading "@ + binary + " to patch"@,
        },
        script::StepView::RunQuiet(
            invocation::JobView {
                command: invocation::InvocationView::plain(
                    "patchelf"@,
                    seq![
                        "--set-interpreter"@,
                        GRAFT_DIR@ + "/"@ + linker,
                        "--force-rpath"@,
                        "--set-rpath"@,
                        GRAFT_LIB@,
                        temp,
                    ],
                ),
                context: "running patchelf — it is required to graft dynamically linked binaries (install it, e.g. `pacman -S patchelf` / `apt install patchelf`)"@,
                failure: invocation::FailureView::Message("patchelf failed to patch "@ + binary),
            },
        ),
    ]
}

/// A thin wrapper that execs the grafted binary directly, which keeps
/// `/proc/self/exe` pointing at the binary.
pub open spec fn wrapper_spec(
    docker: Docker,
    container: Seq<char>,
    graft_binary: Seq<char>,
    target: Seq<char>,
) -> Seq<script::StepView> {
    let temp = temp_spec(docker.runtime, "graft-wrapper-"@ + file_stem_spec(target));
    seq![
        script::StepView::WriteTemp {
            temp,
            contents: "#!/bin/sh\nexec "@ + graft_binary + " \"$@\"\n"@,
            context: ""@,
        },
        ensure_parent_spec(docker, container, target),
        script::StepView::CopyIn { source: temp, container, dest: target },
        setup_step(docker, container, seq!["chmod"@, "+x"@, target]),
    ]
}

/// How a binary gets into a container, patched where it brings its own linker.
pub open spec fn binary_spec(
    docker: Docker,
    container: Seq<char>,
    home: Seq<char>,
    item: Injectable,
    binary: Seq<char>,
    linker: Option<Seq<char>>,
) -> Seq<script::StepView> {
    let graft_binary = graft_binary_spec(item.name@);
    seq![script::StepView::Say("[graft] injecting "@ + item.name@ + " binary"@)] + (match linker {
        Some(ld) => patch_spec(docker.runtime, binary, ld) + seq![
            script::StepView::CopyIn {
                source: temp_spec(docker.runtime, "graft-patched-"@ + file_stem_spec(binary)),
                container,
                dest: graft_binary,
            },
            setup_step(
                docker,
                container,
                seq!["cp"@, GRAFT_LIB@ + "/"@ + ld, GRAFT_DIR@ + "/"@ + ld],
            ),
        ],
        None => seq![
            script::StepView::CopyResolved { source: binary, container, dest: graft_binary },
        ],
    }) + seq![setup_step(docker, container, seq!["chmod"@, "+x"@, graft_binary])] + wrapper_spec(
        docker,
        container,
        graft_binary,
        binary_target(item, home),
    )
}

fn temp_path(rt: &Runtime, name: &str) -> (r: String)
    ensures
        r@ == temp_spec(*rt, name@),
{
    path::join(rt.temp_dir.as_str(), name)
}

fn target_of_binary(item: &Injectable, home: &str) -> (r: String)
    ensures
        r@ == binary_target(*item, home@),
{
    match &item.target_binary {
        Some(t) => resolve_home(t.as_str(), home),
        None => resolve_home(cat("/usr/local/bin/", item.name.as_str()).as_str(), home),
    }
}

fn inject_binary(
    steps: &mut Vec<Step>,
    docker: &Docker,
    container: &str,
    home: &str,
    item: &Injectable,
    binary: &str,
    linker: &Option<String>,
)
    ensures
        final(steps).deep_view() == old(steps).deep_view() + binary_spec(
            *docker,
            container@,
            home@,
            *item,
            binary@,
            linker.deep_view(),
        ),
{
    let ghost start = steps.deep_view();
    let graft_binary = cat3(GRAFT_BIN, "/", item.name.as_str());
    let target = target_of_binary(item, home);
    then_step(steps, Step::Say(cat3("[graft] injecting ", item.name.as_str(), " binary")));
    match linker {
        Some(ld) => {
            let name = cat("graft-patched-", file_stem(binary).as_str());
            let temp = temp_path(&docker.runtime, name.as_str());
            then_step(
                steps,
                Step::CopyToTemp {
                    source: binary.to_string(),
                    temp: temp.clone(),
                    context: cat3("reading ", binary, " to patch"),
                },
            );
            let mut args = args3(
                "--set-interpreter",
                cat3(GRAFT_DIR, "/", ld.as_str()).as_str(),
                "--force-rpath",
            );
            push(&mut args, "--set-rpath");
            push(&mut args, GRAFT_LIB);
            push(&mut args, temp.as_str());
            assert(args.deep_view() =~= seq![
                "--set-interpreter"@,
                GRAFT_DIR@ + "/"@ + ld@,
                "--force-rpath"@,
                "--set-rpath"@,
                GRAFT_LIB@,
                temp@,
            ]);
            then_step(
                steps,
                Step::RunQuiet(
                    Job {
                        command: Invocation::new("patchelf", args),
                        context: "running patchelf — it is required to graft dynamically linked binaries (install it, e.g. `pacman -S patchelf` / `apt install patchelf`)".to_string(),
                        failure: Failure::Message(cat("patchelf failed to patch ", binary)),
                    },
                ),
            );
            then_step(
                steps,
                Step::CopyIn {
                    source: temp,
                    container: container.to_string(),
                    dest: graft_binary.clone(),
                },
            );
            let from = cat3(GRAFT_LIB, "/", ld.as_str());
            let to = cat3(GRAFT_DIR, "/", ld.as_str());
            then_step(
                steps,
                setup_one(docker, container, args3("cp", from.as_str(), to.as_str())),
            );
        },
        None => {
            then_step(
                steps,
                Step::CopyResolved {
                    source: binary.to_string(),
                    container: container.to_string(),
                    dest: graft_binary.clone(),
                },
            );
        },
    }
    then_step(steps, setup_one(docker, container, args3("chmod", "+x", graft_binary.as_str())));
    install_wrapper(steps, docker, container, graft_binary.as_str(), target.as_str());
    assert(steps.deep_view() =~= start + binary_spec(
        *docker,
        container@,
        home@,
        *item,
        binary@,
        linker.deep_view(),
    ));
}

fn install_wrapper(
    steps: &mut Vec<Step>,
    docker: &Docker,
    container: &str,
    graft_binary: &str,
    target: &str,
)
    ensures
        final(steps).deep_view() == old(steps).deep_view() + wrapper_spec(
            *docker,
            container@,
            graft_binary@,
            target@,
        ),
{
    let ghost start = steps.deep_view();
    let contents = cat3("#!/bin/sh\nexec ", graft_binary, " \"$@\"\n");
    let name = cat("graft-wrapper-", file_stem(target).as_str());
    let temp = temp_path(&docker.runtime, name.as_str());
    then_step(steps, Step::WriteTemp { temp: temp.clone(), contents, context: "".to_string() });
    then_step(steps, ensure_parent(docker, container, target));
    then_step(
        steps,
        Step::CopyIn {
            source: temp,
            container: container.to_string(),
            dest: target.to_string(),
        },
    );
    then_step(steps, setup_one(docker, container, args3("chmod", "+x", target)));
    assert(steps.deep_view() =~= start + wrapper_spec(
        *docker,
        container@,
        graft_binary@,
        target@,
    ));
}

// ── configurations ────────────────────────────────────────────────────────────

/// Where a configuration goes.
pub open spec fn config_target(item: Injectable, home: Seq<char>) -> Seq<char> {
    resolve_home_spec(
        match item.target_config {
            Some(t) => t@,
            None => "~/.config/"@ + item.name@,
        },
        home,
    )
}

/// How a configuration gets into a container. What is there goes first, so that
/// the copy mirrors the local one exactly.
pub open spec fn config_spec(
    docker: Docker,
    container: Seq<char>,
    home: Seq<char>,
    item: Injectable,
    cfg: Seq<char>,
) -> Seq<script::StepView> {
    let target = config_target(item, home);
    seq![
        script::StepView::Say(
            "[graft] injecting "@ + item.name@ + " config → "@ + target,
        ),
        ensure_parent_spec(docker, container, target),
        exec_step(docker, container, seq!["rm"@, "-rf"@, target]),
        script::StepView::CopyIn { source: cfg, container, dest: target },
    ]
}

fn target_of_config(item: &Injectable, home: &str) -> (r: String)
    ensures
        r@ == config_target(*item, home@),
{
    match &item.target_config {
        Some(t) => resolve_home(t.as_str(), home),
        None => resolve_home(cat("~/.config/", item.name.as_str()).as_str(), home),
    }
}

fn inject_config(
    steps: &mut Vec<Step>,
    docker: &Docker,
    container: &str,
    home: &str,
    item: &Injectable,
    cfg: &str,
)
    ensures
        final(steps).deep_view() == old(steps).deep_view() + config_spec(
            *docker,
            container@,
            home@,
            *item,
            cfg@,
        ),
{
    let ghost start = steps.deep_view();
    let target = target_of_config(item, home);
    then_step(
        steps,
        Step::Say(
            cat4("[graft] injecting ", item.name.as_str(), " config → ", target.as_str()),
        ),
    );
    then_step(steps, ensure_parent(docker, container, target.as_str()));
    then_step(steps, exec_one(docker, container, args3("rm", "-rf", target.as_str())));
    then_step(
        steps,
        Step::CopyIn {
            source: cfg.to_string(),
            container: container.to_string(),
            dest: target,
        },
    );
    assert(steps.deep_view() =~= start + config_spec(
        *docker,
        container@,
        home@,
        *item,
        cfg@,
    ));
}

// ── libraries ─────────────────────────────────────────────────────────────────

/// Tests for one library, and prints its name if it is not there.
pub open spec fn lib_check(name: Seq<char>) -> Seq<char> {
    "test -f '"@ + GRAFT_LIB@ + "/"@ + name + "' || printf '%s\\n' '"@ + name + "'"@
}

/// The tests for libraries.
pub open spec fn lib_checks(libs: Seq<Seq<char>>) -> Seq<Seq<char>>
    decreases libs.len(),
{
    if libs.len() == 0 {
        seq![]
    } else {
        let rest = lib_checks(libs.drop_last());
        match path::file_name_spec(libs.last()) {
            Some(name) => rest.push(lib_check(name)),
            None => rest,
        }
    }
}

/// Asks which libraries a container lacks.
pub open spec fn missing_query(docker: Docker, container: Seq<char>, libs: Seq<Seq<char>>)
    -> invocation::JobView {
    docker.exec_spec(
        container,
        seq!["sh"@, "-c"@, text::join_spec(lib_checks(libs), "; "@)],
        false,
    )
}

/// The libraries whose file name is among the lines of an answer.
pub open spec fn missing_libs(libs: Seq<Seq<char>>, lines: Seq<Seq<char>>) -> Seq<Seq<char>>
    decreases libs.len(),
{
    if libs.len() == 0 {
        seq![]
    } else {
        let rest = missing_libs(libs.drop_last(), lines);
        match path::file_name_spec(libs.last()) {
            Some(name) => if lines.contains(name) {
                rest.push(libs.last())
            } else {
                rest
            },
            None => rest,
        }
    }
}

/// How libraries get into a container: the real file behind each path, under
/// the name of the path.
pub open spec fn lib_copies(container: Seq<char>, libs: Seq<Seq<char>>) -> Seq<script::StepView>
    decreases libs.len(),
{
    if libs.len() == 0 {
        seq![]
    } else {
        lib_copies(container, libs.drop_last()).push(
            script::StepView::CopyResolved {
                source: libs.last(),
                container,
                dest: GRAFT_LIB@ + "/"@ + file_stem_spec(libs.last()),
            },
        )
    }
}

/// How the libraries that a container lacks get into it.
pub open spec fn deps_spec(container: Seq<char>, name: Seq<char>, missing: Seq<Seq<char>>) -> Seq<
    script::StepView,
> {
    if missing.len() == 0 {
        seq![]
    } else {
        seq![
            script::StepView::Say(
                "[graft] copying "@ + num::dec(missing.len()) + " missing deps for "@ + name,
            ),
        ] + lib_copies(container, missing)
    }
}

fn missing_graft_deps(docker: &Docker, container: &str, libs: &Vec<String>) -> (r: Job)
    ensures
        r.deep_view() == missing_query(*docker, container@, libs.deep_view()),
{
    let mut checks: Vec<String> = Vec::new();
    let ghost all = libs.deep_view();
    assert(checks.deep_view() =~= lib_checks(all.take(0)));
    for i in 0..libs.len()
        invariant
            all == libs.deep_view(),
            checks.deep_view() == lib_checks(all.take(i as int)),
    {
        assert(all.take(i + 1).drop_last() =~= all.take(i as int));
        if let Some(name) = path::file_name(libs[i].as_str()) {
            let mut check = cat5("test -f '", GRAFT_LIB, "/", name, "' || printf '%s\\n' '");
            check.append(name);
            check.append("'");
            push(&mut checks, check.as_str());
        }
    }
    assert(all.take(all.len() as int) =~= all);
    let check = text::join(&checks, "; ");
    docker.exec_with(container, args3("sh", "-c", check.as_str()), false)
}

fn still_missing(libs: &Vec<String>, stdout: &str) -> (r: Vec<String>)
    ensures
        r.deep_view() == missing_libs(libs.deep_view(), text::lines_spec(stdout@)),
{
    let lines = text::lines(stdout);
    let ghost names = text::lines_spec(stdout@);
    let ghost all = libs.deep_view();
    let mut out: Vec<String> = Vec::new();
    assert(out.deep_view() =~= missing_libs(all.take(0), names));
    for i in 0..libs.len()
        invariant
            all == libs.deep_view(),
            lines.deep_view() == names,
            out.deep_view() == missing_libs(all.take(i as int), names),
    {
        assert(all.take(i + 1).drop_last() =~= all.take(i as int));
        if let Some(name) = path::file_name(libs[i].as_str()) {
            let mut found = false;
            for j in 0..lines.len()
                invariant
                    lines.deep_view() == names,
                    found == (exists|k: int| 0 <= k < j && names[k] == name@),
            {
                let line: &str = lines[j];
                assert(names[j as int] == line@);
                if same(line, name) {
                    found = true;
                }
            }
            assert(found == names.contains(name@));
            if found {
                push(&mut out, libs[i].as_str());
            }
        }
    }
    assert(all.take(all.len() as int) =~= all);
    out
}

fn copy_deps(steps: &mut Vec<Step>, container: &str, name: &str, missing: &Vec<String>)
    ensures
        final(steps).deep_view() == old(steps).deep_view() + deps_spec(
            container@,
            name@,
            missing.deep_view(),
        ),
{
    let ghost start = steps.deep_view();
    let ghost all = missing.deep_view();
    assert(all.len() == missing@.len());
    if missing.len() == 0 {
        assert(start + seq![] =~= start);
        return;
    }
    then_step(
        steps,
        Step::Say(
            cat4(
                "[graft] copying ",
                decimal(missing.len() as u64).as_str(),
                " missing deps for ",
                name,
            ),
        ),
    );
    let ghost head = steps.deep_view();
    assert(head + lib_copies(container@, all.take(0)) =~= head);
    for i in 0..missing.len()
        invariant
            all == missing.deep_view(),
            steps.deep_view() == head + lib_copies(container@, all.take(i as int)),
    {
        assert(all.take(i + 1).drop_last() =~= all.take(i as int));
        let lib = missing[i].as_str();
        then_step(
            steps,
            Step::CopyResolved {
                source: lib.to_string(),
                container: container.to_string(),
                dest: cat3(GRAFT_LIB, "/", file_stem(lib).as_str()),
            },
        );
        assert(steps.deep_view() =~= head + lib_copies(container@, all.take(i + 1)));
    }
    assert(all.take(all.len() as int) =~= all);
    assert(steps.deep_view() =~= start + deps_spec(container@, name@, all));
}

// ── settings ──────────────────────────────────────────────────────────────────

/// Registers a directory as trusted, unless it is already.
pub open spec fn safe_script(dir: Seq<char>) -> Seq<char> {
    let q = docker::shell_quote_spec(dir);
    "git config --global --get-all safe.directory 2>/dev/null | grep -qxF "@ + q
        + " || git config --global --add safe.directory "@ + q
}

/// Registers directories as trusted.
pub open spec fn safe_steps(docker: Docker, container: Seq<char>, dirs: Seq<Seq<char>>) -> Seq<
    script::StepView,
>
    decreases dirs.len(),
{
    if dirs.len() == 0 {
        seq![]
    } else {
        safe_steps(docker, container, dirs.drop_last()).push(
            exec_step(docker, container, seq!["sh"@, "-c"@, safe_script(dirs.last())]),
        )
    }
}

/// How git is told which directories to trust, where there is a git.
pub open spec fn git_spec(
    docker: Docker,
    container: Seq<char>,
    dirs: Seq<Seq<char>>,
    has_git: bool,
) -> Seq<script::StepView> {
    if has_git {
        seq![
            script::StepView::Say(
                "[graft] marking "@ + num::dec(dirs.len()) + " git safe.director"@ + (if dirs.len()
                    == 1 {
                    "y"@
                } else {
                    "ies"@
                }),
            ),
        ] + safe_steps(docker, container, dirs)
    } else {
        seq![
            script::StepView::Warn(
                "[graft] warning: git not found in container; skipping safe.directory setup"@,
            ),
        ]
    }
}

fn configure_git_safe(
    steps: &mut Vec<Step>,
    docker: &Docker,
    container: &str,
    dirs: &Vec<String>,
    has_git: bool,
)
    ensures
        final(steps).deep_view() == old(steps).deep_view() + git_spec(
            *docker,
            container@,
            dirs.deep_view(),
            has_git,
        ),
{
    let ghost start = steps.deep_view();
    let ghost all = dirs.deep_view();
    assert(all.len() == dirs@.len());
    if !has_git {
        then_step(
            steps,
            Step::Warn(
                "[graft] warning: git not found in container; skipping safe.directory setup".to_string(),
            ),
        );
        assert(steps.deep_view() =~= start + git_spec(*docker, container@, all, has_git));
        return;
    }
    let ending = if dirs.len() == 1 {
        "y"
    } else {
        "ies"
    };
    then_step(
        steps,
        Step::Say(
            cat4(
                "[graft] marking ",
                decimal(dirs.len() as u64).as_str(),
                " git safe.director",
                ending,
            ),
        ),
    );
    let ghost head = steps.deep_view();
    assert(head + safe_steps(*docker, container@, all.take(0)) =~= head);
    for i in 0..dirs.len()
        invariant
            all == dirs.deep_view(),
            steps.deep_view() == head + safe_steps(*docker, container@, all.take(i as int)),
    {
        assert(all.take(i + 1).drop_last() =~= all.take(i as int));
        let q = shell_quote(dirs[i].as_str());
        let line = cat4(
            "git config --global --get-all safe.directory 2>/dev/null | grep -qxF ",
            q.as_str(),
            " || git config --global --add safe.directory ",
            q.as_str(),
        );
        then_step(steps, exec_one(docker, container, args3("sh", "-c", line.as_str())));
        assert(steps.deep_view() =~= head + safe_steps(*docker, container@, all.take(i + 1)));
    }
    assert(all.take(all.len() as int) =~= all);
    assert(steps.deep_view() =~= start + git_spec(*docker, container@, all, has_git));
}

/// How the container's own `PATH`, as it was told, survives login shells, which
/// may reset it; nothing where none was told.
pub open spec fn path_spec(docker: Docker, container: Seq<char>, told: Seq<char>) -> Seq<
    script::StepView,
> {
    let value = text::trim_spec(told);
    let temp = temp_spec(docker.runtime, "graft-path.sh"@);
    if value.len() == 0 {
        seq![]
    } else {
        seq![
            script::StepView::WriteTemp {
                temp,
                contents: "export PATH="@ + docker::shell_quote_spec(value) + "\n"@,
                context: ""@,
            },
            setup_step(docker, container, seq!["mkdir"@, "-p"@, "/etc/profile.d"@]),
            script::StepView::CopyIn {
                source: temp,
                container,
                dest: "/etc/profile.d/graft-path.sh"@,
            },
        ]
    }
}

fn inject_docker_path(steps: &mut Vec<Step>, docker: &Docker, container: &str, told: &str)
    ensures
        final(steps).deep_view() == old(steps).deep_view() + path_spec(
            *docker,
            container@,
            told@,
        ),
{
    let ghost start = steps.deep_view();
    let value = text::trim(told);
    if value.is_empty() {
        assert(start + seq![] =~= start);
        return;
    }
    let contents = cat3("export PATH=", shell_quote(value).as_str(), "\n");
    let temp = temp_path(&docker.runtime, "graft-path.sh");
    then_step(steps, Step::WriteTemp { temp: temp.clone(), contents, context: "".to_string() });
    then_step(steps, setup_one(docker, container, args3("mkdir", "-p", "/etc/profile.d")));
    then_step(
        steps,
        Step::CopyIn {
            source: temp,
            container: container.to_string(),
            dest: "/etc/profile.d/graft-path.sh".to_string(),
        },
    );
    assert(steps.deep_view() =~= start + path_spec(*docker, container@, told@));
}

/// `alias` lines.
pub open spec fn alias_lines(aliases: Seq<table::Entry>) -> Seq<char>
    decreases aliases.len(),
{
    if aliases.len() == 0 {
        seq![]
    } else {
        alias_lines(aliases.drop_last()) + "alias "@ + aliases.last().0 + "="@
            + docker::shell_quote_spec(aliases.last().1) + "\n"@
    }
}

/// The aliases in the order of their names.
pub open spec fn sorted_aliases(aliases: Seq<table::Entry>) -> Seq<table::Entry> {
    table::insert_all_spec(seq![], aliases)
}

/// How aliases get into a container; nothing where there are none.
pub open spec fn aliases_spec(docker: Docker, container: Seq<char>, aliases: Seq<table::Entry>)
    -> Seq<script::StepView> {
    let sorted = sorted_aliases(aliases);
    let temp = temp_spec(docker.runtime, "graft-aliases.sh"@);
    if sorted.len() == 0 {
        seq![]
    } else {
        seq![
            script::StepView::WriteTemp {
                temp,
                contents: "# Generated by graft — do not edit\n"@ + alias_lines(sorted),
                context: ""@,
            },
            setup_step(docker, container, seq!["mkdir"@, "-p"@, "/etc/profile.d"@]),
            script::StepView::CopyIn {
                source: temp,
                container,
                dest: "/etc/profile.d/graft.sh"@,
            },
            script::StepView::Say(
                "[graft] installed "@ + num::dec(sorted.len()) + " alias"@ + (if sorted.len() == 1 {
                    ""@
                } else {
                    "es"@
                }),
            ),
        ]
    }
}

fn inject_aliases(
    steps: &mut Vec<Step>,
    docker: &Docker,
    container: &str,
    aliases: &Vec<(String, String)>,
)
    ensures
        final(steps).deep_view() == old(steps).deep_view() + aliases_spec(
            *docker,
            container@,
            aliases.deep_view(),
        ),
{
    let ghost start = steps.deep_view();
    let mut pairs: Vec<(String, String)> = Vec::new();
    assert(pairs.deep_view() =~= seq![]);
    table::insert_all(&mut pairs, aliases);
    let ghost all = pairs.deep_view();
    assert(all.len() == pairs@.len());
    if pairs.len() == 0 {
        assert(start + seq![] =~= start);
        return;
    }
    let mut contents = "# Generated by graft — do not edit\n".to_string();
    let ghost head = contents@;
    assert(head + alias_lines(all.take(0)) =~= head);
    for i in 0..pairs.len()
        invariant
            all == pairs.deep_view(),
            contents@ == head + alias_lines(all.take(i as int)),
    {
        assert(all.take(i + 1).drop_last() =~= all.take(i as int));
        contents.append("alias ");
        contents.append(pairs[i].0.as_str());
        contents.append("=");
        contents.append(shell_quote(pairs[i].1.as_str()).as_str());
        contents.append("\n");
        assert(contents@ =~= head + alias_lines(all.take(i + 1)));
    }
    assert(all.take(all.len() as int) =~= all);
    let temp = temp_path(&docker.runtime, "graft-aliases.sh");
    then_step(steps, Step::WriteTemp { temp: temp.clone(), contents, context: "".to_string() });
    then_step(steps, setup_one(docker, container, args3("mkdir", "-p", "/etc/profile.d")));
    then_step(
        steps,
        Step::CopyIn {
            source: temp,
            container: container.to_string(),
            dest: "/etc/profile.d/graft.sh".to_string(),
        },
    );
    let ending = if pairs.len() == 1 {
        ""
    } else {
        "es"
    };
    then_step(
        steps,
        Step::Say(
            cat4(
                "[graft] installed ",
                decimal(pairs.len() as u64).as_str(),
                " alias",
                ending,
            ),
        ),
    );
    assert(steps.deep_view() =~= start + aliases_spec(
        *docker,
        container@,
        aliases.deep_view(),
    ));
}

// ── the whole graft ───────────────────────────────────────────────────────────

/// What the graft waits for.
#[derive(Debug, PartialEq, Eq)]
pub enum Waiting {
    /// The home directory inside the container.
    Home,
    /// Whether the binary is there already.
    BinaryExists,
    /// The libraries of the binary.
    Listing,
    /// Which of these libraries the container lacks; with the linker's file name.
    Missing { libs: Vec<String>, linker: Option<String> },
    /// Whether the configuration is there already.
    ConfigExists,
    /// The container's `PATH`.
    PathTold,
    /// Whether the container has git.
    HasGit,
    /// Nothing any more.
    Over,
}

/// What a [`Waiting`] says.
pub enum WaitingView {
    Home,
    BinaryExists,
    Listing,
    Missing { libs: Seq<Seq<char>>, linker: Option<Seq<char>> },
    ConfigExists,
    PathTold,
    HasGit,
    Over,
}

impl DeepView for Waiting {
    type V = WaitingView;

    open spec fn deep_view(&self) -> WaitingView {
        match self {
            Waiting::Home => WaitingView::Home,
            Waiting::BinaryExists => WaitingView::BinaryExists,
            Waiting::Listing => WaitingView::Listing,
            Waiting::Missing { libs, linker } => WaitingView::Missing {
                libs: libs.deep_view(),
                linker: linker.deep_view(),
            },
            Waiting::ConfigExists => WaitingView::ConfigExists,
            Waiting::PathTold => WaitingView::PathTold,
            Waiting::HasGit => WaitingView::HasGit,
            Waiting::Over => WaitingView::Over,
        }
    }
}

/// What comes behind the steps of a turn.
#[derive(Debug, PartialEq, Eq)]
pub enum Next {
    /// A command is run for its output.
    Run(Invocation),
    /// All is done.
    Done,
    /// The graft has failed.
    Fail(Failure),
}

/// What a [`Next`] says.
pub enum NextView {
    Run(invocation::InvocationView),
    Done,
    Fail(invocation::FailureView),
}

impl DeepView for Next {
    type V = NextView;

    open spec fn deep_view(&self) -> NextView {
        match self {
            Next::Run(command) => NextView::Run(command.deep_view()),
            Next::Done => NextView::Done,
            Next::Fail(f) => NextView::Fail(f.deep_view()),
        }
    }
}

/// The steps to take, where the first that fails ends the graft, and what comes
/// behind them.
#[derive(Debug, PartialEq, Eq)]
pub struct Turn {
    pub steps: Vec<Step>,
    pub next: Next,
}

/// What a [`Turn`] says.
pub struct TurnView {
    pub steps: Seq<script::StepView>,
    pub next: NextView,
}

impl DeepView for Turn {
    type V = TurnView;

    open spec fn deep_view(&self) -> TurnView {
        TurnView { steps: self.steps.deep_view(), next: self.next.deep_view() }
    }
}

/// A graft that is going on.
#[derive(Debug, PartialEq, Eq)]
pub struct Graft {
    pub docker: Docker,
    pub container: String,
    pub config: Config,
    /// The home directory inside the container.
    pub home: String,
    /// The injectable that is dealt with.
    pub at: usize,
    pub waiting: Waiting,
}

/// What a [`Graft`] says.
pub struct GraftView {
    pub docker: Docker,
    pub container: Seq<char>,
    pub config: Config,
    pub home: Seq<char>,
    pub at: int,
    pub waiting: WaitingView,
}

impl DeepView for Graft {
    type V = GraftView;

    open spec fn deep_view(&self) -> GraftView {
        GraftView {
            docker: self.docker,
            container: self.container@,
            config: self.config,
            home: self.home@,
            at: self.at as int,
            waiting: self.waiting.deep_view(),
        }
    }
}

/// The command for the container's home directory.
pub open spec fn home_query(docker: Docker, container: Seq<char>) -> invocation::JobView {
    docker.exec_spec(container, seq!["sh"@, "-c"@, "echo $HOME"@], false)
}

/// The container's home directory as it was told; root's where it was not.
pub open spec fn home_spec(docker: Docker, container: Seq<char>, out: Output) -> Seq<char> {
    match invocation::captured_spec(home_query(docker, container), out) {
        Ok(s) => if text::trim_spec(s).len() > 0 {
            text::trim_spec(s)
        } else {
            "/root"@
        },
        Err(_) => "/root"@,
    }
}

/// The command for the container's `PATH`.
pub open spec fn path_query(docker: Docker, container: Seq<char>) -> invocation::JobView {
    docker.exec_spec(container, seq!["printenv"@, "PATH"@], false)
}

impl GraftView {
    /// The injectable that is dealt with.
    pub open spec fn item(self) -> Injectable {
        self.config.inject@[self.at]
    }

    /// One is dealt with.
    pub open spec fn inside(self) -> bool {
        0 <= self.at < self.config.inject@.len()
    }

    /// The local binary that is dealt with.
    pub open spec fn binary(self) -> Seq<char> {
        match self.item().binary {
            Some(b) => b@,
            None => seq![],
        }
    }

    /// The local configuration that is dealt with.
    pub open spec fn local_config(self) -> Seq<char> {
        match self.item().config {
            Some(c) => c@,
            None => seq![],
        }
    }

    /// Waits for the output of a command.
    pub open spec fn wait(
        self,
        waiting: WaitingView,
        steps: Seq<script::StepView>,
        command: invocation::InvocationView,
    ) -> (Self, TurnView) {
        (GraftView { waiting, ..self }, TurnView { steps, next: NextView::Run(command) })
    }

    /// Ends.
    pub open spec fn over(self, steps: Seq<script::StepView>, next: NextView) -> (Self, TurnView) {
        (GraftView { waiting: WaitingView::Over, ..self }, TurnView { steps, next })
    }

    /// Deals with an injectable, or with the settings once all are dealt with.
    pub open spec fn begin_item(self, steps: Seq<script::StepView>) -> (Self, TurnView)
        decreases self.config.inject@.len() - self.at, 3int,
    {
        if !self.inside() {
            self.wait(
                WaitingView::PathTold,
                steps,
                path_query(self.docker, self.container).command,
            )
        } else if self.item().binary is None {
            self.begin_config(steps)
        } else if self.item().skip_if_exists {
            self.wait(
                WaitingView::BinaryExists,
                steps,
                self.docker.command_spec(
                    docker::exec_args_spec(
                        self.container,
                        seq!["test"@, "-f"@, graft_binary_spec(self.item().name@)],
                        false,
                    ),
                ),
            )
        } else {
            self.begin_deps(steps)
        }
    }

    /// Asks for the libraries of the binary, where they are wanted.
    pub open spec fn begin_deps(self, steps: Seq<script::StepView>) -> (Self, TurnView)
        decreases self.config.inject@.len() - self.at, 2int,
    {
        if self.item().copy_deps {
            self.wait(
                WaitingView::Listing,
                steps,
                invocation::InvocationView::plain("ldd"@, seq![self.binary()]),
            )
        } else {
            self.finish_binary(steps, None)
        }
    }

    /// Brings the binary in.
    pub open spec fn finish_binary(
        self,
        steps: Seq<script::StepView>,
        linker: Option<Seq<char>>,
    ) -> (Self, TurnView)
        decreases self.config.inject@.len() - self.at, 1int,
    {
        self.begin_config(
            steps + binary_spec(
                self.docker,
                self.container,
                self.home,
                self.item(),
                self.binary(),
                linker,
            ),
        )
    }

    /// Brings the configuration in, where there is one.
    pub open spec fn begin_config(self, steps: Seq<script::StepView>) -> (Self, TurnView)
        decreases self.config.inject@.len() - self.at, 0int,
    {
        if !self.inside() {
            self.over(steps, NextView::Done)
        } else if self.item().config is None {
            self.next_item(steps)
        } else if self.item().skip_if_exists {
            self.wait(
                WaitingView::ConfigExists,
                steps,
                self.docker.command_spec(
                    docker::exec_args_spec(
                        self.container,
                        seq!["test"@, "-e"@, config_target(self.item(), self.home)],
                        false,
                    ),
                ),
            )
        } else {
            self.next_item(
                steps + config_spec(
                    self.docker,
                    self.container,
                    self.home,
                    self.item(),
                    self.local_config(),
                ),
            )
        }
    }

    /// Goes on to the next injectable.
    pub open spec fn next_item(self, steps: Seq<script::StepView>) -> (Self, TurnView)
        decreases self.config.inject@.len() - self.at - 1, 4int,
    {
        if self.inside() {
            GraftView { at: self.at + 1, ..self }.begin_item(steps)
        } else {
            self.over(steps, NextView::Done)
        }
    }

    /// Tells git what to trust, where anything is to be.
    pub open spec fn begin_git(self, steps: Seq<script::StepView>) -> (Self, TurnView) {
        if self.config.git.safe_directories@.len() == 0 {
            self.finish(steps)
        } else {
            self.wait(
                WaitingView::HasGit,
                steps,
                self.docker.command_spec(
                    docker::exec_args_spec(
                        self.container,
                        seq![
                            "sh"@,
                            "-c"@,
                            "command -v "@ + docker::shell_quote_spec("git"@)
                                + " >/dev/null 2>&1"@,
                        ],
                        false,
                    ),
                ),
            )
        }
    }

    /// Brings the aliases in, and ends.
    pub open spec fn finish(self, steps: Seq<script::StepView>) -> (Self, TurnView) {
        self.over(
            steps + aliases_spec(
                self.docker,
                self.container,
                self.config.aliases.deep_view(),
            ),
            NextView::Done,
        )
    }

    /// The libraries of the binary have been listed.
    pub open spec fn on_listing(self, out: Output) -> (Self, TurnView) {
        match deps::resolve_spec(self.binary(), out) {
            Err(f) => self.over(seq![], NextView::Fail(f)),
            Ok((libs, linker, warning)) => {
                let steps = match warning {
                    Some(w) => seq![script::StepView::Warn(w)],
                    None => seq![],
                };
                if libs.len() == 0 {
                    self.finish_binary(steps, None)
                } else {
                    self.wait(
                        WaitingView::Missing {
                            libs,
                            linker: match linker {
                                Some(p) => path::file_name_spec(p),
                                None => None,
                            },
                        },
                        steps,
                        missing_query(self.docker, self.container, libs).command,
                    )
                }
            },
        }
    }

    /// What follows the output of the command that was waited for.
    pub open spec fn next(self, out: Output) -> (Self, TurnView) {
        match self.waiting {
            WaitingView::Home => GraftView {
                home: home_spec(self.docker, self.container, out),
                ..self
            }.begin_item(seq![]),
            WaitingView::BinaryExists if self.inside() => if out.ended.succeeded() {
                self.begin_config(
                    seq![
                        script::StepView::Say(
                            "[graft] "@ + self.item().name@ + " already exists, skipping"@,
                        ),
                    ],
                )
            } else {
                self.begin_deps(seq![])
            },
            WaitingView::Listing if self.inside() => self.on_listing(out),
            WaitingView::Missing { libs, linker } if self.inside() =>
                match invocation::captured_spec(
                missing_query(self.docker, self.container, libs),
                out,
            ) {
                Ok(s) => self.finish_binary(
                    deps_spec(
                        self.container,
                        self.item().name@,
                        missing_libs(libs, text::lines_spec(s)),
                    ),
                    linker,
                ),
                Err(f) => self.over(seq![], NextView::Fail(f)),
            },
            WaitingView::ConfigExists if self.inside() => if out.ended.succeeded() {
                self.next_item(
                    seq![
                        script::StepView::Say(
                            "[graft] "@ + self.item().name@
                                + " config already present, skipping"@,
                        ),
                    ],
                )
            } else {
                self.next_item(
                    config_spec(
                        self.docker,
                        self.container,
                        self.home,
                        self.item(),
                        self.local_config(),
                    ),
                )
            },
            WaitingView::PathTold => self.begin_git(
                match invocation::captured_spec(path_query(self.docker, self.container), out) {
                    Ok(told) => path_spec(self.docker, self.container, told),
                    Err(_) => seq![],
                },
            ),
            WaitingView::HasGit => self.finish(
                git_spec(
                    self.docker,
                    self.container,
                    self.config.git.safe_directories.deep_view(),
                    out.ended.succeeded(),
                ),
            ),
            _ => self.over(seq![], NextView::Done),
        }
    }
}

impl Graft {
    fn over(&mut self, steps: Vec<Step>, next: Next) -> (r: Turn)
        ensures
            (final(self).deep_view(), r.deep_view()) == old(self).deep_view().over(
                steps.deep_view(),
                next.deep_view(),
            ),
    {
        self.waiting = Waiting::Over;
        Turn { steps, next }
    }

    fn begin_item(&mut self, steps: Vec<Step>) -> (r: Turn)
        ensures
            (final(self).deep_view(), r.deep_view()) == old(self).deep_view().begin_item(
                steps.deep_view(),
            ),
        decreases old(self).config.inject@.len() - old(self).at, 3int,
    {
        if self.at >= self.config.inject.len() {
            let job = self.docker.exec_with(
                self.container.as_str(),
                args2("printenv", "PATH"),
                false,
            );
            self.waiting = Waiting::PathTold;
            return Turn { steps, next: Next::Run(job.command) };
        }
        let item = &self.config.inject[self.at];
        if item.binary.is_none() {
            return self.begin_config(steps);
        }
        if item.skip_if_exists {
            let graft_binary = cat3(GRAFT_BIN, "/", item.name.as_str());
            let command = self.docker.file_exists(
                self.container.as_str(),
                graft_binary.as_str(),
            );
            self.waiting = Waiting::BinaryExists;
            return Turn { steps, next: Next::Run(command) };
        }
        self.begin_deps(steps)
    }

    fn binary(&self) -> (r: String)
        requires
            self.deep_view().inside(),
        ensures
            r@ == self.deep_view().binary(),
    {
        match &self.config.inject[self.at].binary {
            Some(b) => b.clone(),
            None => String::new(),
        }
    }

    fn local_config(&self) -> (r: String)
        requires
            self.deep_view().inside(),
        ensures
            r@ == self.deep_view().local_config(),
    {
        match &self.config.inject[self.at].config {
            Some(c) => c.clone(),
            None => String::new(),
        }
    }

    fn begin_deps(&mut self, steps: Vec<Step>) -> (r: Turn)
        requires
            old(self).deep_view().inside(),
        ensures
            (final(self).deep_view(), r.deep_view()) == old(self).deep_view().begin_deps(
                steps.deep_view(),
            ),
        decreases old(self).config.inject@.len() - old(self).at, 2int,
    {
        if self.config.inject[self.at].copy_deps {
            let command = deps::ldd(self.binary().as_str());
            self.waiting = Waiting::Listing;
            Turn { steps, next: Next::Run(command) }
        } else {
            self.finish_binary(steps, None)
        }
    }

    fn finish_binary(&mut self, steps: Vec<Step>, linker: Option<String>) -> (r: Turn)
        requires
            old(self).deep_view().inside(),
        ensures
            (final(self).deep_view(), r.deep_view()) == old(self).deep_view().finish_binary(
                steps.deep_view(),
                linker.deep_view(),
            ),
        decreases old(self).config.inject@.len() - old(self).at, 1int,
    {
        let mut steps = steps;
        let binary = self.binary();
        inject_binary(
            &mut steps,
            &self.docker,
            self.container.as_str(),
            self.home.as_str(),
            &self.config.inject[self.at],
            binary.as_str(),
            &linker,
        );
        self.begin_config(steps)
    }

    fn add_config(&self, steps: &mut Vec<Step>)
        requires
            self.deep_view().inside(),
        ensures
            final(steps).deep_view() == old(steps).deep_view() + config_spec(
                self.docker,
                self.container@,
                self.home@,
                self.deep_view().item(),
                self.deep_view().local_config(),
            ),
    {
        let cfg = self.local_config();
        inject_config(
            steps,
            &self.docker,
            self.container.as_str(),
            self.home.as_str(),
            &self.config.inject[self.at],
            cfg.as_str(),
        );
    }

    fn begin_config(&mut self, steps: Vec<Step>) -> (r: Turn)
        requires
            old(self).deep_view().inside(),
        ensures
            (final(self).deep_view(), r.deep_view()) == old(self).deep_view().begin_config(
                steps.deep_view(),
            ),
        decreases old(self).config.inject@.len() - old(self).at, 0int,
    {
        let mut steps = steps;
        let item = &self.config.inject[self.at];
        if item.config.is_some() {
            if item.skip_if_exists {
                let target = target_of_config(item, self.home.as_str());
                let command = self.docker.path_exists(self.container.as_str(), target.as_str());
                self.waiting = Waiting::ConfigExists;
                return Turn { steps, next: Next::Run(command) };
            }
            self.add_config(&mut steps);
        }
        self.next_item(steps)
    }

    fn next_item(&mut self, steps: Vec<Step>) -> (r: Turn)
        requires
            old(self).deep_view().inside(),
        ensures
            (final(self).deep_view(), r.deep_view()) == old(self).deep_view().next_item(
                steps.deep_view(),
            ),
        decreases old(self).config.inject@.len() - old(self).at - 1, 4int,
    {
        assert(self.config.inject.len() == self.config.inject@.len());
        self.at += 1;
        self.begin_item(steps)
    }

    fn finish(&mut self, steps: Vec<Step>) -> (r: Turn)
        ensures
            (final(self).deep_view(), r.deep_view()) == old(self).deep_view().finish(
                steps.deep_view(),
            ),
    {
        let mut steps = steps;
        inject_aliases(
            &mut steps,
            &self.docker,
            self.container.as_str(),
            &self.config.aliases,
        );
        self.over(steps, Next::Done)
    }

    fn begin_git(&mut self, steps: Vec<Step>) -> (r: Turn)
        ensures
            (final(self).deep_view(), r.deep_view()) == old(self).deep_view().begin_git(
                steps.deep_view(),
            ),
    {
        if self.config.git.safe_directories.len() == 0 {
            return self.finish(steps);
        }
        let command = self.docker.has_command(self.container.as_str(), "git");
        self.waiting = Waiting::HasGit;
        Turn { steps, next: Next::Run(command) }
    }

    fn on_listing(&mut self, out: Output) -> (r: Turn)
        requires
            old(self).deep_view().inside(),
        ensures
            (final(self).deep_view(), r.deep_view()) == old(self).deep_view().on_listing(out),
    {
        let binary = self.binary();
        match deps::resolve(binary.as_str(), &out) {
            Err(f) => self.over(no_steps(), Next::Fail(f)),
            Ok((deps, warning)) => {
                let steps = match warning {
                    Some(w) => one_step(Step::Warn(w)),
                    None => no_steps(),
                };
                assert(deps.libs.deep_view().len() == deps.libs@.len());
                if deps.is_empty() {
                    return self.finish_binary(steps, None);
                }
                let linker = match &deps.linker {
                    Some(p) => match path::file_name(p.as_str()) {
                        Some(name) => Some(name.to_string()),
                        None => None,
                    },
                    None => None,
                };
                let job = missing_graft_deps(&self.docker, self.container.as_str(), &deps.libs);
                self.waiting = Waiting::Missing { libs: deps.libs, linker };
                Turn { steps, next: Next::Run(job.command) }
            },
        }
    }

    fn on_missing(&mut self, libs: Vec<String>, linker: Option<String>, out: Output) -> (r: Turn)
        requires
            old(self).deep_view().inside(),
        ensures
            (final(self).deep_view(), r.deep_view()) == match invocation::captured_spec(
                missing_query(old(self).docker, old(self).container@, libs.deep_view()),
                out,
            ) {
                Ok(s) => old(self).deep_view().finish_binary(
                    deps_spec(
                        old(self).container@,
                        old(self).deep_view().item().name@,
                        missing_libs(libs.deep_view(), text::lines_spec(s)),
                    ),
                    linker.deep_view(),
                ),
                Err(f) => old(self).deep_view().over(seq![], NextView::Fail(f)),
            },
    {
        let job = missing_graft_deps(&self.docker, self.container.as_str(), &libs);
        match captured(job, out) {
            Ok(s) => {
                let missing = still_missing(&libs, s.as_str());
                let mut steps = no_steps();
                copy_deps(
                    &mut steps,
                    self.container.as_str(),
                    self.config.inject[self.at].name.as_str(),
                    &missing,
                );
                assert(steps.deep_view() =~= deps_spec(
                    self.container@,
                    self.deep_view().item().name@,
                    missing.deep_view(),
                ));
                self.finish_binary(steps, linker)
            },
            Err(f) => self.over(no_steps(), Next::Fail(f)),
        }
    }

    fn container_home(&self, out: Output) -> (r: String)
        ensures
            r@ == home_spec(self.docker, self.container@, out),
    {
        let job = self.docker.exec_with(
            self.container.as_str(),
            args3("sh", "-c", "echo $HOME"),
            false,
        );
        match captured(job, out) {
            Ok(s) => {
                let home = text::trim(s.as_str());
                if home.is_empty() {
                    "/root".to_string()
                } else {
                    home.to_string()
                }
            },
            Err(_) => "/root".to_string(),
        }
    }

    fn on_path(&mut self, out: Output) -> (r: Turn)
        ensures
            (final(self).deep_view(), r.deep_view()) == old(self).deep_view().begin_git(
                match invocation::captured_spec(
                    path_query(old(self).docker, old(self).container@),
                    out,
                ) {
                    Ok(told) => path_spec(old(self).docker, old(self).container@, told),
                    Err(_) => seq![],
                },
            ),
    {
        let job = self.docker.exec_with(
            self.container.as_str(),
            args2("printenv", "PATH"),
            false,
        );
        let mut steps = no_steps();
        if let Ok(told) = captured(job, out) {
            inject_docker_path(
                &mut steps,
                &self.docker,
                self.container.as_str(),
                told.as_str(),
            );
            assert(steps.deep_view() =~= path_spec(self.docker, self.container@, told@));
        }
        self.begin_git(steps)
    }

    /// What follows the output of the command that was waited for.
    pub fn step(&mut self, out: Output) -> (r: Turn)
        ensures
            (final(self).deep_view(), r.deep_view()) == old(self).deep_view().next(out),
    {
        let inside = self.at < self.config.inject.len();
        match &self.waiting {
            Waiting::Home => {
                self.home = self.container_home(out);
                self.begin_item(no_steps())
            },
            Waiting::BinaryExists if inside => {
                if out.ended.success() {
                    let line = cat3(
                        "[graft] ",
                        self.config.inject[self.at].name.as_str(),
                        " already exists, skipping",
                    );
                    self.begin_config(one_step(Step::Say(line)))
                } else {
                    self.begin_deps(no_steps())
                }
            },
            Waiting::Listing if inside => self.on_listing(out),
            Waiting::Missing { libs, linker } if inside => {
                let libs = copy_list(libs);
                let linker = copy_opt(linker);
                self.on_missing(libs, linker, out)
            },
            Waiting::ConfigExists if inside => {
                let mut steps = no_steps();
                if out.ended.success() {
                    let line = cat3(
                        "[graft] ",
                        self.config.inject[self.at].name.as_str(),
                        " config already present, skipping",
                    );
                    steps = one_step(Step::Say(line));
                } else {
                    self.add_config(&mut steps);
                }
                self.next_item(steps)
            },
            Waiting::PathTold => self.on_path(out),
            Waiting::HasGit => {
                let mut steps = no_steps();
                configure_git_safe(
                    &mut steps,
                    &self.docker,
                    self.container.as_str(),
                    &self.config.git.safe_directories,
                    out.ended.success(),
                );
                self.finish(steps)
            },
            _ => self.over(no_steps(), Next::Done),
        }
    }
}

/// Grafts the user's environment into a container: the directories for it are
/// made, the injectables come in one by one, then the settings.
pub fn graft(container: &str, remote: &Option<String>, config: Config, rt: &Runtime) -> (r: (
    Graft,
    Turn,
))
    ensures
        r.0.docker.remote == *remote,
        r.0.docker.runtime == *rt,
        r.0.deep_view() == (GraftView {
            docker: r.0.docker,
            container: container@,
            config,
            home: seq![],
            at: 0,
            waiting: WaitingView::Home,
        }),
        r.1.deep_view() == (TurnView {
            steps: seq![
                script::StepView::Run(
                    r.0.docker.exec_spec(
                        container@,
                        seq!["mkdir"@, "-p"@, GRAFT_LIB@, GRAFT_BIN@, GRAFT_DIR@],
                        true,
                    ),
                ),
            ],
            next: NextView::Run(home_query(r.0.docker, container@).command),
        }),
{
    let docker = Docker::new(remote, rt);
    let dirs = docker.exec_with(
        container,
        invocation::args5("mkdir", "-p", GRAFT_LIB, GRAFT_BIN, GRAFT_DIR),
        true,
    );
    let job = docker.exec_with(container, args3("sh", "-c", "echo $HOME"), false);
    let turn = Turn { steps: one_step(Step::Run(dirs)), next: Next::Run(job.command) };
    let g = Graft {
        docker,
        container: container.to_string(),
        config,
        home: String::new(),
        at: 0,
        waiting: Waiting::Home,
    };
    (g, turn)
}

// ── laws ──────────────────────────────────────────────────────────────────────

/// How much of a graft is still to come.
pub open spec fn remaining(g: GraftView) -> int {
    let items = 6 * (g.config.inject@.len() - g.at);
    match g.waiting {
        WaitingView::Home => items + 9,
        WaitingView::BinaryExists => items + 8,
        WaitingView::Listing => items + 7,
        WaitingView::Missing { .. } => items + 6,
        WaitingView::ConfigExists => items + 5,
        WaitingView::PathTold => 2,
        WaitingView::HasGit => 1,
        WaitingView::Over => 0,
    }
}

proof fn lemma_begin_item(g: GraftView, steps: Seq<script::StepView>)
    requires
        0 <= g.at <= g.config.inject@.len(),
    ensures
        ({
            let h = g.begin_item(steps).0;
            &&& h.config == g.config
            &&& g.at <= h.at <= h.config.inject@.len()
            &&& h.waiting !is Home
            &&& remaining(h) <= 6 * (g.config.inject@.len() - g.at) + 8
        }),
    decreases g.config.inject@.len() - g.at, 3int,
{
    if g.inside() {
        if g.item().binary is None {
            lemma_begin_config(g, steps);
        } else if !g.item().skip_if_exists {
            lemma_begin_deps(g, steps);
        }
    }
}

proof fn lemma_begin_deps(g: GraftView, steps: Seq<script::StepView>)
    requires
        g.inside(),
    ensures
        ({
            let h = g.begin_deps(steps).0;
            &&& h.config == g.config
            &&& g.at <= h.at <= h.config.inject@.len()
            &&& h.waiting !is Home
            &&& remaining(h) <= 6 * (g.config.inject@.len() - g.at) + 7
        }),
    decreases g.config.inject@.len() - g.at, 2int,
{
    if !g.item().copy_deps {
        lemma_finish_binary(g, steps, None);
    }
}

proof fn lemma_finish_binary(
    g: GraftView,
    steps: Seq<script::StepView>,
    linker: Option<Seq<char>>,
)
    requires
        g.inside(),
    ensures
        ({
            let h = g.finish_binary(steps, linker).0;
            &&& h.config == g.config
            &&& g.at <= h.at <= h.config.inject@.len()
            &&& h.waiting !is Home
            &&& remaining(h) <= 6 * (g.config.inject@.len() - g.at) + 5
        }),
    decreases g.config.inject@.len() - g.at, 1int,
{
    lemma_begin_config(
        g,
        steps + binary_spec(g.docker, g.container, g.home, g.item(), g.binary(), linker),
    );
}

proof fn lemma_begin_config(g: GraftView, steps: Seq<script::StepView>)
    requires
        g.inside(),
    ensures
        ({
            let h = g.begin_config(steps).0;
            &&& h.config == g.config
            &&& g.at <= h.at <= h.config.inject@.len()
            &&& h.waiting !is Home
            &&& remaining(h) <= 6 * (g.config.inject@.len() - g.at) + 5
        }),
    decreases g.config.inject@.len() - g.at, 0int,
{
    if g.item().config is None {
        lemma_next_item(g, steps);
    } else if !g.item().skip_if_exists {
        lemma_next_item(
            g,
            steps + config_spec(g.docker, g.container, g.home, g.item(), g.local_config()),
        );
    }
}

proof fn lemma_next_item(g: GraftView, steps: Seq<script::StepView>)
    requires
        g.inside(),
    ensures
        ({
            let h = g.next_item(steps).0;
            &&& h.config == g.config
            &&& g.at < h.at <= h.config.inject@.len()
            &&& h.waiting !is Home
            &&& remaining(h) <= 6 * (g.config.inject@.len() - g.at) + 2
        }),
    decreases g.config.inject@.len() - g.at - 1, 4int,
{
    lemma_begin_item(GraftView { at: g.at + 1, ..g }, steps);
}

/// A graft comes to an end, whatever the commands that it has run put out: each
/// answer leaves less to come.
pub proof fn graft_comes_to_an_end(g: GraftView, out: Output)
    requires
        0 <= g.at <= g.config.inject@.len(),
        g.waiting !is Over,
    ensures
        0 <= g.next(out).0.at <= g.next(out).0.config.inject@.len(),
        0 <= remaining(g.next(out).0) < remaining(g),
{
    let name = g.item().name@;
    match g.waiting {
        WaitingView::Home => {
            lemma_begin_item(
                GraftView { home: home_spec(g.docker, g.container, out), ..g },
                seq![],
            );
        },
        WaitingView::BinaryExists if g.inside() => {
            lemma_begin_config(
                g,
                seq![script::StepView::Say("[graft] "@ + name + " already exists, skipping"@)],
            );
            lemma_begin_deps(g, seq![]);
        },
        WaitingView::Listing if g.inside() => {
            if let Ok((libs, linker, warning)) = deps::resolve_spec(g.binary(), out) {
                let steps = match warning {
                    Some(w) => seq![script::StepView::Warn(w)],
                    None => seq![],
                };
                lemma_finish_binary(g, steps, None);
            }
        },
        WaitingView::Missing { libs, linker } if g.inside() => {
            if let Ok(s) = invocation::captured_spec(
                missing_query(g.docker, g.container, libs),
                out,
            ) {
                lemma_finish_binary(
                    g,
                    deps_spec(g.container, name, missing_libs(libs, text::lines_spec(s))),
                    linker,
                );
            }
        },
        WaitingView::ConfigExists if g.inside() => {
            lemma_next_item(
                g,
                seq![
                    script::StepView::Say(
                        "[graft] "@ + name + " config already present, skipping"@,
                    ),
                ],
            );
            lemma_next_item(
                g,
                config_spec(g.docker, g.container, g.home, g.item(), g.local_config()),
            );
        },
        _ => {},
    }
}

/// A shell reads the line of an alias as `alias` with the name and exactly the
/// command that it stands for.
pub proof fn alias_reads_back(name: Seq<char>, command: Seq<char>)
    requires
        forall|i: int| 0 <= i < name.len() ==> shell::is_ordinary(#[trigger] name[i]),
    ensures
        alias_lines(seq![(name, command)]) == "alias "@ + name + "="@ + docker::shell_quote_spec(
            command,
        ) + "\n"@,
        shell::shell_words("alias "@ + name + "="@ + docker::shell_quote_spec(command)) == Some(
            seq!["alias"@, name + "="@ + command],
        ),
{
    let entry = seq![(name, command)];
    assert(entry.drop_last() =~= seq![]);
    reveal_with_fuel(alias_lines, 2);
    assert(alias_lines(entry) =~= "alias "@ + name + "="@ + docker::shell_quote_spec(command)
        + "\n"@);
    reveal_strlit("alias ");
    reveal_strlit("alias");
    reveal_strlit(" ");
    reveal_strlit("=");
    assert("alias "@ =~= "alias"@ + " "@);
    let w = name + "="@;
    assert forall|i: int| 0 <= i < w.len() implies shell::is_ordinary(#[trigger] w[i]) by {
        if i < name.len() {
            assert(w[i] == name[i]);
        }
    }
    let first = seq!["alias"@];
    shell::lemma_read_ordinary(shell::fresh(), "alias"@);
    assert(seq![] + "alias"@ =~= "alias"@);
    assert(first.drop_last() =~= seq![]);
    assert(shell::read(shell::fresh(), "alias"@) == shell::behind(first));
    shell::lemma_next_word(first, w);
    shell::lemma_read_concat(shell::fresh(), "alias"@, " "@ + w);
    let q = docker::shell_quote_spec(command);
    docker::lemma_read_quoted(shell::behind(first.push(w)), command);
    shell::lemma_read_concat(shell::fresh(), "alias"@ + (" "@ + w), q);
    let line = "alias "@ + name + "="@ + q;
    assert(line =~= "alias"@ + (" "@ + w) + q);
    let r = shell::read(shell::fresh(), line);
    assert(first.push(w).drop_last() =~= first);
    assert(r.words.push(r.word) =~= seq!["alias"@, name + "="@ + command]);
}

/// Only a leading `~` stands for the home directory: any other path is kept, and
/// a slash at the end of the home directory does not matter. `~` itself is the
/// home directory, be it the root.
pub proof fn other_paths_are_kept(p: Seq<char>, home: Seq<char>)
    requires
        home.len() > 0,
    ensures
        p.len() == 0 || p[0] != '~' ==> resolve_home_spec(p, home) == p,
        resolve_home_spec(p, home.push('/')) == resolve_home_spec(p, home),
        home.last() != '/' || home == "/"@ ==> resolve_home_spec("~"@, home) == home,
{
    reveal_strlit("/");
    if home == "/"@ {
        assert(home.drop_last() =~= seq![]);
        reveal_with_fuel(text::strip_end_spec, 2);
    }
    reveal_strlit("~");
    reveal_strlit("~/");
    assert("~"@[0] == '~');
    assert("~/"@[0] == '~');
    assert(home.push('/').drop_last() =~= home);
}

/// A container that lacks nothing gets nothing copied.
pub proof fn present_libraries_are_not_copied(
    container: Seq<char>,
    name: Seq<char>,
    libs: Seq<Seq<char>>,
)
    ensures
        missing_libs(libs, seq![]) == Seq::<Seq<char>>::empty(),
        deps_spec(container, name, missing_libs(libs, seq![])) == Seq::<script::StepView>::empty(),
    decreases libs.len(),
{
    if libs.len() > 0 {
        present_libraries_are_not_copied(container, name, libs.drop_last());
    }
}

/// Where the configuration of an injectable belongs: where it says, or under the
/// configurations of the container's user by its name.
pub open spec fn config_place(item: Injectable, home: Seq<char>) -> Seq<char> {
    match item.target_config {
        Some(t) => resolve_home_spec(t@, home),
        None => text::strip_end_spec(home, '/') + "/.config/"@ + item.name@,
    }
}

proof fn lemma_config_place(item: Injectable, home: Seq<char>)
    ensures
        config_target(item, home) == config_place(item, home),
{
    if item.target_config is None {
        reveal_strlit("~");
        reveal_strlit("~/");
        reveal_strlit("~/.config/");
        reveal_strlit("/.config/");
        reveal_strlit("/");
        let p = "~/.config/"@ + item.name@;
        assert(p.subrange(0, 2) =~= "~/"@);
        assert("/"@ + p.skip(2) =~= "/.config/"@ + item.name@);
        let base = text::strip_end_spec(home, '/');
        assert(base + "/"@ + p.skip(2) =~= base + "/.config/"@ + item.name@);
    }
}

/// A command in a container, argument by argument.
proof fn lemma_exec_words(docker: Docker, container: Seq<char>, argv: Seq<Seq<char>>)
    ensures
        exec_step(docker, container, argv) matches script::StepView::Run(job) && job.command
            == docker.command_spec(seq!["exec"@, container] + argv),
        setup_step(docker, container, argv) matches script::StepView::Run(job) && job.command
            == docker.command_spec(seq!["exec"@, "-u"@, "0"@, container] + argv),
        docker.command_spec(docker::exec_args_spec(container, argv, false)) == docker.command_spec(
            seq!["exec"@, container] + argv,
        ),
{
    assert(docker::exec_args_spec(container, argv, false) =~= seq!["exec"@, container] + argv);
    assert(docker::exec_args_spec(container, argv, true) =~= seq!["exec"@, "-u"@, "0"@, container]
        + argv);
}

/// A configuration is copied to the very path that it is looked for at: that is
/// the one that is told, made room for, and tested where what is there is to be
/// kept.
pub proof fn configuration_goes_where_it_is_looked_for(
    g: GraftView,
    steps: Seq<script::StepView>,
    cfg: String,
)
    requires
        g.inside(),
        g.item().config == Some(cfg),
    ensures
        ({
            let target = config_place(g.item(), g.home);
            let bring = config_spec(g.docker, g.container, g.home, g.item(), cfg@);
            &&& g.item().skip_if_exists ==> {
                &&& g.begin_config(steps).0.waiting is ConfigExists
                &&& g.begin_config(steps).1.next == NextView::Run(
                    g.docker.command_spec(seq!["exec"@, g.container, "test"@, "-e"@, target]),
                )
            }
            &&& bring.len() == 4
            &&& bring[0] == script::StepView::Say(
                "[graft] injecting "@ + g.item().name@ + " config → "@ + target,
            )
            &&& bring[1] matches script::StepView::Run(job) && job.command
                == g.docker.command_spec(
                seq!["exec"@, "-u"@, "0"@, g.container, "mkdir"@, "-p"@, parent_dir(target)],
            )
            &&& bring[2] matches script::StepView::Run(job) && job.command
                == g.docker.command_spec(
                seq!["exec"@, g.container, "rm"@, "-rf"@, target],
            )
            &&& bring[3] == (script::StepView::CopyIn {
                source: cfg@,
                container: g.container,
                dest: target,
            })
        }),
{
    let target = config_place(g.item(), g.home);
    lemma_config_place(g.item(), g.home);
    let argv = seq!["test"@, "-e"@, target];
    lemma_exec_words(g.docker, g.container, argv);
    assert(seq!["exec"@, g.container] + argv =~= seq![
        "exec"@,
        g.container,
        "test"@,
        "-e"@,
        target,
    ]);
    let argv = seq!["rm"@, "-rf"@, target];
    lemma_exec_words(g.docker, g.container, argv);
    assert(seq!["exec"@, g.container] + argv =~= seq![
        "exec"@,
        g.container,
        "rm"@,
        "-rf"@,
        target,
    ]);
    let argv = seq!["mkdir"@, "-p"@, parent_dir(target)];
    lemma_exec_words(g.docker, g.container, argv);
    assert(seq!["exec"@, "-u"@, "0"@, g.container] + argv =~= seq![
        "exec"@,
        "-u"@,
        "0"@,
        g.container,
        "mkdir"@,
        "-p"@,
        parent_dir(target),
    ]);
}

/// A step runs a command in a container as root.
pub open spec fn runs_as_root(
    step: script::StepView,
    docker: Docker,
    container: Seq<char>,
    argv: Seq<Seq<char>>,
) -> bool {
    step matches script::StepView::Run(job) && job.command == docker.command_spec(
        seq!["exec"@, "-u"@, "0"@, container] + argv,
    )
}

/// A binary that brings its own linker is patched before it comes in: a copy of
/// it gets the grafted linker as its interpreter and the grafted libraries as its
/// search path, and that copy is what stands in the container, with the linker
/// where the copy looks for it.
pub proof fn dynamic_binary_is_patched_and_copied(
    docker: Docker,
    container: Seq<char>,
    home: Seq<char>,
    item: Injectable,
    binary: Seq<char>,
    ld: Seq<char>,
)
    ensures
        ({
            let steps = binary_spec(docker, container, home, item, binary, Some(ld));
            let own = "/opt/graft/bin/"@ + item.name@;
            &&& steps.len() == 10
            &&& steps[1] matches script::StepView::CopyToTemp { source, temp, .. } && {
                &&& source == binary
                &&& steps[2] matches script::StepView::RunQuiet(job) && job.command
                    == invocation::InvocationView::plain(
                    "patchelf"@,
                    seq![
                        "--set-interpreter"@,
                        "/graft/"@ + ld,
                        "--force-rpath"@,
                        "--set-rpath"@,
                        "/opt/graft/lib"@,
                        temp,
                    ],
                )
                &&& steps[3] == (script::StepView::CopyIn { source: temp, container, dest: own })
            }
            &&& runs_as_root(
                steps[4],
                docker,
                container,
                seq!["cp"@, "/opt/graft/lib/"@ + ld, "/graft/"@ + ld],
            )
            &&& runs_as_root(steps[5], docker, container, seq!["chmod"@, "+x"@, own])
        }),
{
    lemma_graft_paths(item.name@, ld);
    lemma_exec_words(
        docker,
        container,
        seq!["cp"@, "/opt/graft/lib/"@ + ld, "/graft/"@ + ld],
    );
    lemma_exec_words(docker, container, seq!["chmod"@, "+x"@, "/opt/graft/bin/"@ + item.name@]);
}

proof fn lemma_graft_paths(name: Seq<char>, ld: Seq<char>)
    ensures
        GRAFT_BIN@ + "/"@ + name == "/opt/graft/bin/"@ + name,
        GRAFT_LIB@ + "/"@ + ld == "/opt/graft/lib/"@ + ld,
        GRAFT_DIR@ + "/"@ + ld == "/graft/"@ + ld,
{
    reveal_strlit("/");
    reveal_strlit("/opt/graft/bin");
    reveal_strlit("/opt/graft/bin/");
    reveal_strlit("/opt/graft/lib");
    reveal_strlit("/opt/graft/lib/");
    reveal_strlit("/graft");
    reveal_strlit("/graft/");
    assert(GRAFT_BIN@ + "/"@ =~= "/opt/graft/bin/"@);
    assert(GRAFT_LIB@ + "/"@ =~= "/opt/graft/lib/"@);
    assert(GRAFT_DIR@ + "/"@ =~= "/graft/"@);
}

/// A binary without a linker of its own comes in as it is.
pub proof fn static_binary_is_copied_as_it_is(
    docker: Docker,
    container: Seq<char>,
    home: Seq<char>,
    item: Injectable,
    binary: Seq<char>,
)
    ensures
        ({
            let steps = binary_spec(docker, container, home, item, binary, None);
            let own = "/opt/graft/bin/"@ + item.name@;
            &&& steps.len() == 7
            &&& steps[1] == (script::StepView::CopyResolved { source: binary, container, dest: own })
            &&& runs_as_root(steps[2], docker, container, seq!["chmod"@, "+x"@, own])
        }),
{
    lemma_graft_paths(item.name@, seq![]);
    lemma_exec_words(docker, container, seq!["chmod"@, "+x"@, "/opt/graft/bin/"@ + item.name@]);
}

/// Behind the binary comes its wrapper: where the injectable says, or among the
/// programs under its name, stands an executable script that does nothing but
/// run the grafted binary with the same arguments.
pub proof fn wrapper_runs_the_grafted_binary(
    docker: Docker,
    container: Seq<char>,
    home: Seq<char>,
    item: Injectable,
    binary: Seq<char>,
    linker: Option<Seq<char>>,
)
    ensures
        ({
            let steps = binary_spec(docker, container, home, item, binary, linker);
            let n = steps.len() as int;
            let target = match item.target_binary {
                Some(t) => resolve_home_spec(t@, home),
                None => "/usr/local/bin/"@ + item.name@,
            };
            &&& n >= 4
            &&& steps[n - 4] matches script::StepView::WriteTemp { temp, contents, .. } && {
                &&& contents == "#!/bin/sh\nexec /opt/graft/bin/"@ + item.name@ + " \"$@\"\n"@
                &&& steps[n - 2] == (script::StepView::CopyIn { source: temp, container, dest: target })
            }
            &&& runs_as_root(
                steps[n - 3],
                docker,
                container,
                seq!["mkdir"@, "-p"@, parent_dir(target)],
            )
            &&& runs_as_root(steps[n - 1], docker, container, seq!["chmod"@, "+x"@, target])
        }),
{
    let steps = binary_spec(docker, container, home, item, binary, linker);
    let target = match item.target_binary {
        Some(t) => resolve_home_spec(t@, home),
        None => "/usr/local/bin/"@ + item.name@,
    };
    if item.target_binary is None {
        reveal_strlit("/usr/local/bin/");
        assert(target[0] == '/');
        if home.len() > 0 {
            other_paths_are_kept(target, home);
        } else {
            reveal_strlit("~");
            reveal_strlit("~/");
            assert("~"@[0] == '~');
            if "~/"@.is_prefix_of(target) {
                assert(target.subrange(0, 2)[0] == '~');
            }
        }
    }
    assert(binary_target(item, home) == target);
    reveal_strlit("#!/bin/sh\nexec ");
    reveal_strlit("#!/bin/sh\nexec /opt/graft/bin/");
    reveal_strlit("/opt/graft/bin");
    reveal_strlit("/");
    let own = GRAFT_BIN@ + "/"@ + item.name@;
    assert("#!/bin/sh\nexec "@ + own =~= "#!/bin/sh\nexec /opt/graft/bin/"@ + item.name@);
    assert(parent_dir(target) == parent_dir(binary_target(item, home)));
    lemma_exec_words(docker, container, seq!["mkdir"@, "-p"@, parent_dir(target)]);
    lemma_exec_words(docker, container, seq!["chmod"@, "+x"@, target]);
}

/// Each library that the container lacks is copied, the real file behind its path
/// and under the name of the path, to where grafted binaries search.
pub proof fn missing_libraries_are_copied(
    container: Seq<char>,
    name: Seq<char>,
    missing: Seq<Seq<char>>,
    i: int,
)
    requires
        0 <= i < missing.len(),
    ensures
        deps_spec(container, name, missing).len() == missing.len() + 1,
        deps_spec(container, name, missing)[i + 1] == (script::StepView::CopyResolved {
            source: missing[i],
            container,
            dest: "/opt/graft/lib/"@ + file_stem_spec(missing[i]),
        }),
{
    lemma_lib_copies(container, missing, i);
    lemma_graft_paths(seq![], file_stem_spec(missing[i]));
}

proof fn lemma_lib_copies(container: Seq<char>, libs: Seq<Seq<char>>, i: int)
    requires
        0 <= i < libs.len(),
    ensures
        lib_copies(container, libs).len() == libs.len(),
        lib_copies(container, libs)[i] == (script::StepView::CopyResolved {
            source: libs[i],
            container,
            dest: GRAFT_LIB@ + "/"@ + file_stem_spec(libs[i]),
        }),
    decreases libs.len(),
{
    let init = libs.drop_last();
    if init.len() > 0 {
        lemma_lib_copies(
            container,
            init,
            if i < init.len() {
                i
            } else {
                0
            },
        );
    } else {
        assert(lib_copies(container, init).len() == 0);
    }
}

/// A library counts as missing exactly where it is one of those asked about and
/// the answer names its file.
pub proof fn missing_libraries_are_those_named(
    libs: Seq<Seq<char>>,
    lines: Seq<Seq<char>>,
    lib: Seq<char>,
)
    ensures
        missing_libs(libs, lines).contains(lib) <==> libs.contains(lib) && (path::file_name_spec(
            lib,
        ) matches Some(name) && lines.contains(name)),
    decreases libs.len(),
{
    if libs.len() > 0 {
        let init = libs.drop_last();
        let last = libs.last();
        missing_libraries_are_those_named(init, lines, lib);
        let rest = missing_libs(init, lines);
        let all = missing_libs(libs, lines);
        if libs.contains(lib) {
            let i = choose|i: int| 0 <= i < libs.len() && libs[i] == lib;
            if i < init.len() {
                assert(init[i] == lib);
            }
        }
        if init.contains(lib) {
            let i = choose|i: int| 0 <= i < init.len() && init[i] == lib;
            assert(libs[i] == lib);
        }
        assert(libs[libs.len() - 1] == last);
        if all.len() > rest.len() {
            assert(all == rest.push(last));
            assert(all[rest.len() as int] == last);
            if rest.contains(lib) {
                let i = choose|i: int| 0 <= i < rest.len() && rest[i] == lib;
                assert(all[i] == lib);
            }
            if all.contains(lib) {
                let i = choose|i: int| 0 <= i < all.len() && all[i] == lib;
                if i < rest.len() {
                    assert(rest[i] == lib);
                }
            }
        }
    }
}

/// Each library with a file name is tested for where grafted binaries search, and
/// named in the answer where it is not there.
pub proof fn libraries_are_tested_for(libs: Seq<Seq<char>>, i: int, name: Seq<char>)
    requires
        0 <= i < libs.len(),
        path::file_name_spec(libs[i]) == Some(name),
    ensures
        lib_checks(libs).contains(
            "test -f '/opt/graft/lib/"@ + name + "' || printf '%s\\n' '"@ + name + "'"@,
        ),
    decreases libs.len(),
{
    let check = "test -f '/opt/graft/lib/"@ + name + "' || printf '%s\\n' '"@ + name + "'"@;
    reveal_strlit("test -f '");
    reveal_strlit("/opt/graft/lib");
    reveal_strlit("/");
    reveal_strlit("test -f '/opt/graft/lib/");
    assert("test -f '"@ + GRAFT_LIB@ + "/"@ =~= "test -f '/opt/graft/lib/"@);
    assert(lib_check(name) == check);
    let all = lib_checks(libs);
    if i == libs.len() - 1 {
        assert(all[all.len() - 1] == check);
    } else {
        let init = libs.drop_last();
        libraries_are_tested_for(init, i, name);
        let rest = lib_checks(init);
        let k = choose|k: int| 0 <= k < rest.len() && rest[k] == check;
        assert(all[k] == check);
    }
}

/// The container's own `PATH` goes into a profile of login shells, from which it
/// is read back as it was told.
pub proof fn path_reaches_login_shells(docker: Docker, container: Seq<char>, told: Seq<char>)
    requires
        text::trim_spec(told).len() > 0,
    ensures
        ({
            let steps = path_spec(docker, container, told);
            let word = docker::shell_quote_spec(text::trim_spec(told));
            &&& steps.len() == 3
            &&& steps[0] matches script::StepView::WriteTemp { temp, contents, .. } && {
                &&& contents == "export PATH="@ + word + "\n"@
                &&& steps[2] == (script::StepView::CopyIn {
                    source: temp,
                    container,
                    dest: "/etc/profile.d/graft-path.sh"@,
                })
            }
            &&& shell::shell_words(word) == Some(seq![text::trim_spec(told)])
            &&& runs_as_root(steps[1], docker, container, seq!["mkdir"@, "-p"@, "/etc/profile.d"@])
        }),
{
    docker::quoted_text_reads_back(text::trim_spec(told));
    lemma_exec_words(docker, container, seq!["mkdir"@, "-p"@, "/etc/profile.d"@]);
}

/// Aliases go into a profile of login shells: one line for each name, of which
/// the last command counts.
pub proof fn aliases_reach_login_shells(
    docker: Docker,
    container: Seq<char>,
    aliases: Seq<table::Entry>,
)
    requires
        aliases.len() > 0,
    ensures
        ({
            let steps = aliases_spec(docker, container, aliases);
            &&& steps.len() == 4
            &&& steps[0] matches script::StepView::WriteTemp { temp, contents, .. } && {
                &&& contents == "# Generated by graft — do not edit\n"@ + alias_lines(
                    sorted_aliases(aliases),
                )
                &&& steps[2] == (script::StepView::CopyIn {
                    source: temp,
                    container,
                    dest: "/etc/profile.d/graft.sh"@,
                })
            }
            &&& runs_as_root(steps[1], docker, container, seq!["mkdir"@, "-p"@, "/etc/profile.d"@])
        }),
        table::get(sorted_aliases(aliases), aliases.last().0) == Some(aliases.last().1),
        table::sorted(sorted_aliases(aliases)),
{
    let init = table::insert_all_spec(seq![], aliases.drop_last());
    let empty: Seq<table::Entry> = seq![];
    assert(table::sorted(empty));
    table::setting_all_keeps_order(empty, aliases.drop_last());
    table::setting_all_keeps_order(empty, aliases);
    table::set_name_is_found(init, aliases.last().0, aliases.last().1, seq![]);
    assert(sorted_aliases(aliases).len() > 0);
    lemma_exec_words(docker, container, seq!["mkdir"@, "-p"@, "/etc/profile.d"@]);
}

/// Every configured directory is registered with git once, as the container's
/// user.
pub proof fn every_directory_is_trusted(
    docker: Docker,
    container: Seq<char>,
    dirs: Seq<Seq<char>>,
    i: int,
)
    requires
        0 <= i < dirs.len(),
    ensures
        ({
            let steps = git_spec(docker, container, dirs, true);
            let q = docker::shell_quote_spec(dirs[i]);
            &&& steps.len() == dirs.len() + 1
            &&& steps[i + 1] matches script::StepView::Run(job) && job.command
                == docker.command_spec(
                seq![
                    "exec"@,
                    container,
                    "sh"@,
                    "-c"@,
                    "git config --global --get-all safe.directory 2>/dev/null | grep -qxF "@ + q
                        + " || git config --global --add safe.directory "@ + q,
                ],
            )
        }),
{
    lemma_safe_steps(docker, container, dirs, i);
    let argv = seq!["sh"@, "-c"@, safe_script(dirs[i])];
    lemma_exec_words(docker, container, argv);
    assert(seq!["exec"@, container] + argv =~= seq![
        "exec"@,
        container,
        "sh"@,
        "-c"@,
        safe_script(dirs[i]),
    ]);
}

proof fn lemma_safe_steps(docker: Docker, container: Seq<char>, dirs: Seq<Seq<char>>, i: int)
    requires
        0 <= i < dirs.len(),
    ensures
        safe_steps(docker, container, dirs).len() == dirs.len(),
        safe_steps(docker, container, dirs)[i] == exec_step(
            docker,
            container,
            seq!["sh"@, "-c"@, safe_script(dirs[i])],
        ),
    decreases dirs.len(),
{
    let init = dirs.drop_last();
    if init.len() > 0 {
        lemma_safe_steps(
            docker,
            container,
            init,
            if i < init.len() {
                i
            } else {
                0
            },
        );
    } else {
        assert(safe_steps(docker, container, init).len() == 0);
    }
}

// ── a graft as a whole ────────────────────────────────────────────────────────

/// Among some steps the configuration of an injectable is copied to its place.
pub open spec fn brings_config(
    steps: Seq<script::StepView>,
    item: Injectable,
    container: Seq<char>,
    home: Seq<char>,
) -> bool {
    item.config matches Some(cfg) && steps.contains(
        script::StepView::CopyIn { source: cfg@, container, dest: config_place(item, home) },
    )
}

/// Among some steps the binary of an injectable is copied to its place, as it is.
pub open spec fn brings_binary(
    steps: Seq<script::StepView>,
    item: Injectable,
    container: Seq<char>,
) -> bool {
    item.binary matches Some(b) && steps.contains(
        script::StepView::CopyResolved {
            source: b@,
            container,
            dest: "/opt/graft/bin/"@ + item.name@,
        },
    )
}

/// The configuration of an injectable that is left behind needed no question, and
/// has come in with the steps.
pub open spec fn config_is_done(g: GraftView, steps: Seq<script::StepView>, i: int) -> bool {
    let item = g.config.inject@[i];
    item.config is Some ==> !item.skip_if_exists && brings_config(
        steps,
        item,
        g.container,
        g.home,
    )
}

/// The same for its binary.
pub open spec fn binary_is_done(g: GraftView, steps: Seq<script::StepView>, i: int) -> bool {
    let item = g.config.inject@[i];
    item.binary is Some ==> !item.skip_if_exists && !item.copy_deps && brings_binary(
        steps,
        item,
        g.container,
    )
}

/// All of an injectable that is left behind has come in with the steps.
pub open spec fn item_is_done(g: GraftView, steps: Seq<script::StepView>, i: int) -> bool {
    config_is_done(g, steps, i) && binary_is_done(g, steps, i)
}

/// What is waited for concerns the injectable that is dealt with, and asks about
/// what it has; the settings come only when all are dealt with.
pub open spec fn waits_for_the_item(h: GraftView, next: NextView) -> bool {
    match h.waiting {
        WaitingView::BinaryExists => {
            &&& h.inside()
            &&& h.item().binary is Some
            &&& h.item().skip_if_exists
            &&& next == NextView::Run(
                h.docker.command_spec(
                    seq![
                        "exec"@,
                        h.container,
                        "test"@,
                        "-f"@,
                        "/opt/graft/bin/"@ + h.item().name@,
                    ],
                ),
            )
        },
        WaitingView::Listing => {
            &&& h.inside()
            &&& h.item().copy_deps
            &&& h.item().binary matches Some(b) && next == NextView::Run(
                invocation::InvocationView::plain("ldd"@, seq![b@]),
            )
        },
        WaitingView::ConfigExists => {
            &&& h.inside()
            &&& h.item().config is Some
            &&& h.item().skip_if_exists
            &&& next == NextView::Run(
                h.docker.command_spec(
                    seq![
                        "exec"@,
                        h.container,
                        "test"@,
                        "-e"@,
                        config_place(h.item(), h.home),
                    ],
                ),
            )
        },
        WaitingView::PathTold => {
            &&& h.at == h.config.inject@.len()
            &&& next == NextView::Run(
                h.docker.command_spec(seq!["exec"@, h.container, "printenv"@, "PATH"@]),
            )
        },
        _ => false,
    }
}

/// A graft goes on with the same docker, container, configuration and home.
pub open spec fn same_graft(g: GraftView, h: GraftView) -> bool {
    &&& h.docker == g.docker
    &&& h.container == g.container
    &&& h.config == g.config
    &&& h.home == g.home
}

/// What going on with an injectable comes to: the steps so far are taken first,
/// the injectables that are left behind have come in, and the question is about
/// the one that is dealt with.
pub open spec fn goes_on(
    g: GraftView,
    steps: Seq<script::StepView>,
    h: GraftView,
    turn: TurnView,
) -> bool {
    &&& same_graft(g, h)
    &&& g.at <= h.at <= g.config.inject@.len()
    &&& steps.is_prefix_of(turn.steps)
    &&& waits_for_the_item(h, turn.next)
    &&& forall|i: int|
        g.at < i < h.at ==> #[trigger] item_is_done(g, turn.steps, i)
    &&& h.at > g.at ==> config_is_done(g, turn.steps, g.at)
}

proof fn lemma_prefix_concat<A>(a: Seq<A>, b: Seq<A>, c: Seq<A>)
    requires
        (a + b).is_prefix_of(c),
    ensures
        a.is_prefix_of(c),
        forall|x: A| b.contains(x) ==> #[trigger] c.contains(x),
{
    let ab = a + b;
    assert(c.subrange(0, ab.len() as int) =~= ab);
    assert(c.subrange(0, a.len() as int) =~= a) by {
        assert forall|i: int| 0 <= i < a.len() implies c[i] == a[i] by {
            assert(c.subrange(0, ab.len() as int)[i] == ab[i]);
        }
    }
    assert forall|x: A| b.contains(x) implies #[trigger] c.contains(x) by {
        let i = choose|i: int| 0 <= i < b.len() && b[i] == x;
        assert(ab[a.len() + i] == x);
        assert(c.subrange(0, ab.len() as int)[a.len() + i] == c[a.len() + i]);
        assert(c[a.len() + i] == x);
    }
}

proof fn lemma_goes_on_item(g: GraftView, steps: Seq<script::StepView>)
    requires
        0 <= g.at <= g.config.inject@.len(),
    ensures
        ({
            let (h, turn) = g.begin_item(steps);
            &&& goes_on(g, steps, h, turn)
            &&& h.at > g.at || h.waiting is ConfigExists ==> binary_is_done(g, turn.steps, g.at)
        }),
    decreases g.config.inject@.len() - g.at, 1int,
{
    lemma_queries(g);
    assert(steps.is_prefix_of(steps));
    if g.inside() {
        if g.item().binary is None {
            lemma_goes_on_config(g, steps);
        } else if !g.item().skip_if_exists && !g.item().copy_deps {
            let bring = binary_spec(
                g.docker,
                g.container,
                g.home,
                g.item(),
                g.binary(),
                None,
            );
            lemma_goes_on_config(g, steps + bring);
            let turn = g.begin_item(steps).1;
            lemma_prefix_concat(steps, bring, turn.steps);
            static_binary_is_copied_as_it_is(g.docker, g.container, g.home, g.item(), g.binary());
            assert(bring.contains(bring[1]));
        }
    }
}

proof fn lemma_goes_on_config(g: GraftView, steps: Seq<script::StepView>)
    requires
        g.inside(),
    ensures
        goes_on(g, steps, g.begin_config(steps).0, g.begin_config(steps).1),
        g.begin_config(steps).0.at == g.at ==> g.begin_config(steps).0.waiting is ConfigExists,
    decreases g.config.inject@.len() - g.at, 0int,
{
    lemma_queries(g);
    assert(steps.is_prefix_of(steps));
    let next = GraftView { at: g.at + 1, ..g };
    let (h, turn) = g.begin_config(steps);
    if g.item().config is None {
        lemma_goes_on_item(next, steps);
        lemma_left_behind(g, next, steps, h, turn);
    } else if !g.item().skip_if_exists {
        let bring = config_spec(g.docker, g.container, g.home, g.item(), g.local_config());
        lemma_goes_on_item(next, steps + bring);
        lemma_prefix_concat(steps, bring, turn.steps);
        configuration_goes_where_it_is_looked_for(g, steps, g.item().config->0);
        assert(bring.contains(bring[3]));
        lemma_left_behind(g, next, steps + bring, h, turn);
    }
}

proof fn lemma_left_behind(
    g: GraftView,
    next: GraftView,
    steps: Seq<script::StepView>,
    h: GraftView,
    turn: TurnView,
)
    requires
        g.inside(),
        next == (GraftView { at: g.at + 1, ..g }),
        goes_on(next, steps, h, turn),
        h.at > next.at ==> binary_is_done(next, turn.steps, next.at),
    ensures
        forall|i: int|
            g.at < i < h.at ==> #[trigger] item_is_done(g, turn.steps, i),
{
    assert forall|i: int| g.at < i < h.at implies #[trigger] item_is_done(g, turn.steps, i) by {
        if i > next.at {
            assert(item_is_done(next, turn.steps, i));
        }
        assert(config_is_done(next, turn.steps, i));
        assert(binary_is_done(next, turn.steps, i));
    }
}

proof fn lemma_queries(g: GraftView)
    ensures
        path_query(g.docker, g.container).command == g.docker.command_spec(
            seq!["exec"@, g.container, "printenv"@, "PATH"@],
        ),
        g.docker.command_spec(
            docker::exec_args_spec(
                g.container,
                seq!["test"@, "-f"@, graft_binary_spec(g.item().name@)],
                false,
            ),
        ) == g.docker.command_spec(
            seq!["exec"@, g.container, "test"@, "-f"@, "/opt/graft/bin/"@ + g.item().name@],
        ),
        g.docker.command_spec(
            docker::exec_args_spec(
                g.container,
                seq!["test"@, "-e"@, config_target(g.item(), g.home)],
                false,
            ),
        ) == g.docker.command_spec(
            seq!["exec"@, g.container, "test"@, "-e"@, config_place(g.item(), g.home)],
        ),
{
    lemma_graft_paths(g.item().name@, seq![]);
    lemma_config_place(g.item(), g.home);
    let own = "/opt/graft/bin/"@ + g.item().name@;
    let place = config_place(g.item(), g.home);
    assert(docker::exec_args_spec(g.container, seq!["printenv"@, "PATH"@], false) =~= seq![
        "exec"@,
        g.container,
        "printenv"@,
        "PATH"@,
    ]);
    assert(docker::exec_args_spec(g.container, seq!["test"@, "-f"@, own], false) =~= seq![
        "exec"@,
        g.container,
        "test"@,
        "-f"@,
        own,
    ]);
    assert(docker::exec_args_spec(g.container, seq!["test"@, "-e"@, place], false) =~= seq![
        "exec"@,
        g.container,
        "test"@,
        "-e"@,
        place,
    ]);
}

/// No injectable is passed over: the first is begun with once the home directory
/// is known, and each that is left behind without a question has come in.
pub proof fn injectables_are_begun_with_in_order(g: GraftView, out: Output, i: int)
    requires
        g.waiting is Home,
        g.at == 0,
    ensures
        ({
            let (h, turn) = g.next(out);
            &&& h.docker == g.docker && h.container == g.container && h.config == g.config
            &&& waits_for_the_item(h, turn.next)
            &&& 0 <= i < h.at ==> item_is_done(h, turn.steps, i)
        }),
{
    let r = GraftView { home: home_spec(g.docker, g.container, out), ..g };
    lemma_goes_on_item(r, seq![]);
    let (h, turn) = g.next(out);
    if 0 <= i < h.at {
        if i > 0 {
            assert(item_is_done(r, turn.steps, i));
        }
        assert(binary_is_done(r, turn.steps, i));
        assert(config_is_done(r, turn.steps, i));
    }
}

/// A binary that is there already is left alone and its configuration is gone on
/// with; one that is not comes in: with its libraries, where they are wanted.
pub proof fn missing_binary_comes_in(g: GraftView, out: Output, b: String)
    requires
        g.inside(),
        g.waiting is BinaryExists,
        g.item().binary == Some(b),
    ensures
        ({
            let (h, turn) = g.next(out);
            &&& same_graft(g, h)
            &&& waits_for_the_item(h, turn.next)
            &&& out.ended.succeeded() && h.at > g.at ==> config_is_done(g, turn.steps, g.at)
            &&& out.ended.succeeded() && h.at == g.at ==> h.waiting is ConfigExists
            &&& !out.ended.succeeded() && g.item().copy_deps ==> h.at == g.at
                && h.waiting is Listing
            &&& !out.ended.succeeded() && !g.item().copy_deps ==> brings_binary(
                turn.steps,
                g.item(),
                g.container,
            )
        }),
{
    lemma_queries(g);
    let turn = g.next(out).1;
    if out.ended.succeeded() {
        lemma_goes_on_config(
            g,
            seq![
                script::StepView::Say("[graft] "@ + g.item().name@ + " already exists, skipping"@),
            ],
        );
    } else if !g.item().copy_deps {
        let none: Seq<script::StepView> = seq![];
        let bring = binary_spec(g.docker, g.container, g.home, g.item(), g.binary(), None);
        lemma_goes_on_config(g, none + bring);
        lemma_prefix_concat(none, bring, turn.steps);
        static_binary_is_copied_as_it_is(g.docker, g.container, g.home, g.item(), g.binary());
        assert(bring.contains(bring[1]));
    }
}

/// A configuration that is there already is left alone; one that is not is copied
/// to where it was looked for. Then the next injectable is begun with.
pub proof fn missing_configuration_comes_in(g: GraftView, out: Output)
    requires
        g.inside(),
        g.waiting is ConfigExists,
        g.item().config is Some,
    ensures
        ({
            let (h, turn) = g.next(out);
            &&& same_graft(g, h)
            &&& h.at > g.at
            &&& waits_for_the_item(h, turn.next)
            &&& !out.ended.succeeded() ==> brings_config(
                turn.steps,
                g.item(),
                g.container,
                g.home,
            )
        }),
{
    let next = GraftView { at: g.at + 1, ..g };
    let turn = g.next(out).1;
    if out.ended.succeeded() {
        lemma_goes_on_item(
            next,
            seq![
                script::StepView::Say(
                    "[graft] "@ + g.item().name@ + " config already present, skipping"@,
                ),
            ],
        );
    } else {
        let none: Seq<script::StepView> = seq![];
        let bring = config_spec(g.docker, g.container, g.home, g.item(), g.local_config());
        lemma_goes_on_item(next, bring);
        assert(none + bring =~= bring);
        lemma_prefix_concat(none, bring, turn.steps);
        configuration_goes_where_it_is_looked_for(g, none, g.item().config->0);
        assert(bring.contains(bring[3]));
    }
}

/// The libraries that the local linker told of are asked about; a binary that
/// needs none comes in as it is.
pub proof fn listed_libraries_are_asked_about(
    g: GraftView,
    out: Output,
    libs: Seq<Seq<char>>,
    linker: Option<Seq<char>>,
    warning: Option<Seq<char>>,
)
    requires
        g.inside(),
        g.waiting is Listing,
        g.item().binary is Some,
        deps::resolve_spec(g.binary(), out) == Ok::<
            (Seq<Seq<char>>, Option<Seq<char>>, Option<Seq<char>>),
            invocation::FailureView,
        >((libs, linker, warning)),
    ensures
        ({
            let (h, turn) = g.next(out);
            &&& same_graft(g, h)
            &&& warning matches Some(w) ==> turn.steps.len() > 0 && turn.steps[0]
                == script::StepView::Warn(w)
            &&& libs.len() == 0 ==> brings_binary(turn.steps, g.item(), g.container)
            &&& libs.len() > 0 ==> {
                &&& h.at == g.at
                &&& h.waiting == (WaitingView::Missing {
                    libs,
                    linker: match linker {
                        Some(p) => path::file_name_spec(p),
                        None => None,
                    },
                })
                &&& turn.next == NextView::Run(
                    g.docker.command_spec(
                        seq![
                            "exec"@,
                            g.container,
                            "sh"@,
                            "-c"@,
                            text::join_spec(lib_checks(libs), "; "@),
                        ],
                    ),
                )
            }
        }),
{
    let (h, turn) = g.next(out);
    let told = match warning {
        Some(w) => seq![script::StepView::Warn(w)],
        None => seq![],
    };
    if libs.len() == 0 {
        let bring = binary_spec(g.docker, g.container, g.home, g.item(), g.binary(), None);
        lemma_goes_on_config(g, told + bring);
        lemma_prefix_concat(told, bring, turn.steps);
        if warning is Some {
            assert(turn.steps.subrange(0, told.len() as int)[0] == turn.steps[0]);
        }
        static_binary_is_copied_as_it_is(g.docker, g.container, g.home, g.item(), g.binary());
        assert(bring.contains(bring[1]));
    } else {
        let line = text::join_spec(lib_checks(libs), "; "@);
        assert(docker::exec_args_spec(g.container, seq!["sh"@, "-c"@, line], false) =~= seq![
            "exec"@,
            g.container,
            "sh"@,
            "-c"@,
            line,
        ]);
    }
}

/// Each library that the answer names comes in, and behind the libraries the
/// binary, patched where it brings its own linker.
pub proof fn missing_libraries_come_in_before_the_binary(
    g: GraftView,
    out: Output,
    libs: Seq<Seq<char>>,
    linker: Option<Seq<char>>,
    told: Seq<char>,
    lib: Seq<char>,
)
    requires
        g.inside(),
        g.waiting == (WaitingView::Missing { libs, linker }),
        g.item().binary is Some,
        invocation::captured_spec(missing_query(g.docker, g.container, libs), out) == Ok::<
            Seq<char>,
            invocation::FailureView,
        >(told),
    ensures
        ({
            let (h, turn) = g.next(out);
            &&& same_graft(g, h)
            &&& waits_for_the_item(h, turn.next)
            &&& exists|deps: Seq<script::StepView>|
                {
                    &&& (#[trigger] (deps + binary_spec(
                        g.docker,
                        g.container,
                        g.home,
                        g.item(),
                        g.binary(),
                        linker,
                    ))).is_prefix_of(turn.steps)
                    &&& libs.contains(lib) && (path::file_name_spec(lib) matches Some(name)
                        && text::lines_spec(told).contains(name)) ==> deps.contains(
                        script::StepView::CopyResolved {
                            source: lib,
                            container: g.container,
                            dest: "/opt/graft/lib/"@ + file_stem_spec(lib),
                        },
                    )
                }
        }),
{
    let (h, turn) = g.next(out);
    let missing = missing_libs(libs, text::lines_spec(told));
    let deps = deps_spec(g.container, g.item().name@, missing);
    let bring = binary_spec(g.docker, g.container, g.home, g.item(), g.binary(), linker);
    lemma_goes_on_config(g, deps + bring);
    missing_libraries_are_those_named(libs, text::lines_spec(told), lib);
    if missing.contains(lib) {
        let i = choose|i: int| 0 <= i < missing.len() && missing[i] == lib;
        missing_libraries_are_copied(g.container, g.item().name@, missing, i);
        assert(deps.contains(deps[i + 1]));
    }
    assert((deps + bring).is_prefix_of(turn.steps));
}

/// The settings come last: the `PATH` as it was told, then what git is to trust,
/// where anything is, and then the aliases, with which the graft is done.
pub proof fn settings_come_last(g: GraftView, out: Output, told: Seq<char>)
    ensures
        g.waiting is PathTold && invocation::captured_spec(
            path_query(g.docker, g.container),
            out,
        ) == Ok::<Seq<char>, invocation::FailureView>(told) ==> {
            let (h, turn) = g.next(out);
            if g.config.git.safe_directories@.len() == 0 {
                &&& turn.next is Done
                &&& turn.steps == path_spec(g.docker, g.container, told) + aliases_spec(
                    g.docker,
                    g.container,
                    g.config.aliases.deep_view(),
                )
            } else {
                &&& h.waiting is HasGit
                &&& turn.steps == path_spec(g.docker, g.container, told)
                &&& turn.next == NextView::Run(
                    g.docker.command_spec(
                        seq![
                            "exec"@,
                            g.container,
                            "sh"@,
                            "-c"@,
                            "command -v "@ + docker::shell_quote_spec("git"@)
                                + " >/dev/null 2>&1"@,
                        ],
                    ),
                )
            }
        },
        g.waiting is HasGit ==> {
            let turn = g.next(out).1;
            &&& turn.next is Done
            &&& turn.steps == git_spec(
                g.docker,
                g.container,
                g.config.git.safe_directories.deep_view(),
                out.ended.succeeded(),
            ) + aliases_spec(g.docker, g.container, g.config.aliases.deep_view())
        },
{
    let line = "command -v "@ + docker::shell_quote_spec("git"@) + " >/dev/null 2>&1"@;
    assert(docker::exec_args_spec(g.container, seq!["sh"@, "-c"@, line], false) =~= seq![
        "exec"@,
        g.container,
        "sh"@,
        "-c"@,
        line,
    ]);
}

/// A graft begins by making the places that it brings things to, as root, and by
/// asking for the home directory of the container's user.
pub proof fn graft_makes_its_places_first(
    container: &str,
    remote: Option<String>,
    config: Config,
    rt: Runtime,
    r: (Graft, Turn),
)
    requires
        call_ensures(graft, (container, &remote, config, &rt), r),
    ensures
        ({
            let docker = Docker { remote, runtime: rt };
            let turn = r.1.deep_view();
            &&& r.0.docker == docker
            &&& r.0.container@ == container@
            &&& r.0.config == config
            &&& r.0.waiting is Home
            &&& turn.steps.len() == 1
            &&& runs_as_root(
                turn.steps[0],
                docker,
                container@,
                seq!["mkdir"@, "-p"@, "/opt/graft/lib"@, "/opt/graft/bin"@, "/graft"@],
            )
            &&& turn.next == NextView::Run(
                docker.command_spec(seq!["exec"@, container@, "sh"@, "-c"@, "echo $HOME"@]),
            )
        }),
{
    let docker = Docker { remote, runtime: rt };
    assert(r.0.docker == docker);
    lemma_exec_words(
        docker,
        container@,
        seq!["mkdir"@, "-p"@, "/opt/graft/lib"@, "/opt/graft/bin"@, "/graft"@],
    );
    assert(docker::exec_args_spec(container@, seq!["sh"@, "-c"@, "echo $HOME"@], false) =~= seq![
        "exec"@,
        container@,
        "sh"@,
        "-c"@,
        "echo $HOME"@,
    ]);
}

} // verus!
