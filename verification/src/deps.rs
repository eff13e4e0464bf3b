//! The shared libraries that a binary needs, as `ldd` tells them.
use vstd::prelude::*;

use crate::invocation;
use crate::invocation::{args1, push, Ended, Failure, Invocation, Output};
use crate::path;
use crate::text;
use crate::text::{cat, cat4, same};

verus! {

/// The libraries to copy, and the dynamic linker among them.
#[derive(Debug, PartialEq, Eq)]
pub struct Deps {
    pub libs: Vec<String>,
    pub linker: Option<String>,
}

impl Deps {
    /// Whether there is nothing to copy.
    pub fn is_empty(&self) -> (r: bool)
        ensures
            r == (self.libs@.len() == 0),
    {
        self.libs.len() == 0
    }
}

/// What a listing of `ldd` tells.
#[derive(Debug, PartialEq, Eq)]
pub struct Parsed {
    pub libs: Vec<String>,
    pub linker: Option<String>,
    /// The libraries that were not found.
    pub unresolved: Vec<String>,
}

/// What a [`Parsed`] says.
pub struct ParsedView {
    pub libs: Seq<Seq<char>>,
    pub linker: Option<Seq<char>>,
    pub unresolved: Seq<Seq<char>>,
}

impl DeepView for Parsed {
    type V = ParsedView;

    open spec fn deep_view(&self) -> ParsedView {
        ParsedView {
            libs: self.libs.deep_view(),
            linker: self.linker.deep_view(),
            unresolved: self.unresolved.deep_view(),
        }
    }
}

/// What one line of a listing tells.
pub enum Told {
    Nothing,
    /// The dynamic linker.
    Linker(Seq<char>),
    /// A library.
    Lib(Seq<char>),
    /// A library that was not found.
    Missing(Seq<char>),
}

/// What one line of a listing tells: `/path (0x…)`, `name => /path (0x…)` or
/// `name => not found`.
pub open spec fn told(raw: Seq<char>) -> Told {
    let line = text::trim_spec(raw);
    if "linux-vdso"@.is_prefix_of(line) {
        Told::Nothing
    } else if "/"@.is_prefix_of(line) {
        Told::Linker(text::words_spec(line)[0])
    } else {
        match text::find_spec(line, "=> "@) {
            Some(pos) => {
                let rhs = text::trim_spec(line.skip(pos + 3));
                let words = text::words_spec(rhs);
                if words.len() > 0 && "/"@.is_prefix_of(words[0]) {
                    Told::Lib(words[0])
                } else if "not found"@.is_prefix_of(rhs) {
                    Told::Missing(text::trim_spec(line.take(pos)))
                } else {
                    Told::Nothing
                }
            },
            None => Told::Nothing,
        }
    }
}

/// A library of that file name is among those to copy.
pub open spec fn has_name(libs: Seq<Seq<char>>, name: Seq<char>) -> bool {
    exists|i: int| 0 <= i < libs.len() && path::file_name_spec(#[trigger] libs[i]) == Some(name)
}

/// The libraries with one more: distinct paths to the same file name need
/// copying only once.
pub open spec fn with_lib(libs: Seq<Seq<char>>, lib: Seq<char>) -> Seq<Seq<char>> {
    match path::file_name_spec(lib) {
        Some(name) => if has_name(libs, name) {
            libs
        } else {
            libs.push(lib)
        },
        None => libs,
    }
}

/// What the lines of a listing tell.
pub open spec fn parse_lines(lines: Seq<Seq<char>>) -> ParsedView
    decreases lines.len(),
{
    if lines.len() == 0 {
        ParsedView { libs: seq![], linker: None, unresolved: seq![] }
    } else {
        let rest = parse_lines(lines.drop_last());
        match told(lines.last()) {
            Told::Nothing => rest,
            Told::Linker(p) => ParsedView {
                libs: with_lib(rest.libs, p),
                linker: Some(p),
                ..rest
            },
            Told::Lib(p) => ParsedView { libs: with_lib(rest.libs, p), ..rest },
            Told::Missing(name) => ParsedView { unresolved: rest.unresolved.push(name), ..rest },
        }
    }
}

/// What a listing tells.
pub open spec fn parse_ldd_spec(stdout: Seq<char>) -> ParsedView {
    parse_lines(text::lines_spec(stdout))
}

fn push_lib(libs: &mut Vec<String>, lib: &str)
    ensures
        final(libs).deep_view() == with_lib(old(libs).deep_view(), lib@),
{
    let ghost all = libs.deep_view();
    match path::file_name(lib) {
        None => {},
        Some(name) => {
            for i in 0..libs.len()
                invariant
                    all == libs.deep_view(),
                    all == old(libs).deep_view(),
                    path::file_name_spec(lib@) == Some(name@),
                    forall|j: int|
                        0 <= j < i ==> path::file_name_spec(#[trigger] all[j]) != Some(name@),
            {
                assert(all[i as int] == libs@[i as int]@);
                if let Some(other) = path::file_name(libs[i].as_str()) {
                    if same(other, name) {
                        assert(has_name(all, name@));
                        return;
                    }
                }
            }
            assert(!has_name(all, name@));
            push(libs, lib);
        },
    }
}

/// A text that starts with anything but white space has a first word.
proof fn lemma_first_word(s: Seq<char>)
    requires
        s.len() > 0,
        !text::is_space(s[0]),
    ensures
        text::words_spec(s).len() > 0,
{
    text::lemma_word_end(s, 0);
}

/// Reads a listing of `ldd` into the set of libraries to copy (one per file
/// name), the dynamic linker, and any "not found" entries.
pub fn parse_ldd(stdout: &str) -> (r: Parsed)
    ensures
        r.deep_view() == parse_ldd_spec(stdout@),
{
    let mut libs: Vec<String> = Vec::new();
    let mut linker: Option<String> = None;
    let mut unresolved: Vec<String> = Vec::new();
    let lines = text::lines(stdout);
    let ghost all = text::lines_spec(stdout@);
    assert(libs.deep_view() =~= parse_lines(all.take(0)).libs);
    assert(unresolved.deep_view() =~= parse_lines(all.take(0)).unresolved);
    for i in 0..lines.len()
        invariant
            lines.deep_view() == all,
            libs.deep_view() == parse_lines(all.take(i as int)).libs,
            linker.deep_view() == parse_lines(all.take(i as int)).linker,
            unresolved.deep_view() == parse_lines(all.take(i as int)).unresolved,
    {
        assert(all.take(i + 1).drop_last() =~= all.take(i as int));
        let raw: &str = lines[i];
        assert(all.take(i + 1).last() == raw@);
        let line = text::trim(raw);
        if text::starts_with(line, "linux-vdso") {
        } else if text::starts_with(line, "/") {
            let words = text::words(line);
            proof {
                reveal_strlit("/");
                assert("/"@[0] == '/');
                assert(line@[0] == '/');
                lemma_first_word(line@);
                assert(words.deep_view().len() == words@.len());
            }
            let p: &str = words[0];
            assert(words.deep_view()[0] == p@);
            linker = Some(p.to_string());
            push_lib(&mut libs, p);
        } else {
            proof {
                reveal_strlit("=> ");
            }
            if let Some(pos) = text::find(line, "=> ") {
                let rhs = text::trim(text::skip(line, pos + 3));
                let words = text::words(rhs);
                assert(words.deep_view().len() == words@.len());
                let mut lib: Option<&str> = None;
                if words.len() > 0 {
                    let p: &str = words[0];
                    assert(words.deep_view()[0] == p@);
                    if text::starts_with(p, "/") {
                        lib = Some(p);
                    }
                }
                if let Some(p) = lib {
                    push_lib(&mut libs, p);
                } else if text::starts_with(rhs, "not found") {
                    push(&mut unresolved, text::trim(text::take(line, pos)));
                }
            }
        }
    }
    assert(all.take(all.len() as int) =~= all);
    Parsed { libs, linker, unresolved }
}

/// What is told of libraries that were not found.
pub open spec fn unresolved_warning(names: Seq<Seq<char>>) -> Seq<char> {
    "[graft] warning: "@ + (if names.len() == 1 {
        "a dependency"@
    } else {
        "dependencies"@
    }) + " could not be resolved on the host and won't be grafted: "@ + text::join_spec(names, ", "@)
}

/// The command that lists the libraries of a binary.
pub fn ldd(binary: &str) -> (r: Invocation)
    ensures
        r.deep_view() == invocation::InvocationView::plain("ldd"@, seq![binary@]),
{
    Invocation::new("ldd", args1(binary))
}

/// What a run of `ldd` on a binary amounts to: the libraries to copy, with a
/// warning about those that were not found; none for a static binary.
pub open spec fn resolve_spec(binary: Seq<char>, out: Output) -> Result<
    (Seq<Seq<char>>, Option<Seq<char>>, Option<Seq<char>>),
    invocation::FailureView,
> {
    let stdout = text::utf8_lossy(out.stdout@);
    match out.ended {
        Ended::NotStarted(cause) => Err(
            invocation::FailureView::Spawn { context: "running ldd on "@ + binary, cause: cause@ },
        ),
        Ended::Exited(code) => if text::contains_spec(stdout, "statically linked"@) {
            Ok((seq![], None, None))
        } else if code != Some(0i32) {
            Err(
                invocation::FailureView::Message(
                    "ldd failed on "@ + binary + ": "@ + text::trim_spec(
                        text::utf8_lossy(out.stderr@),
                    ),
                ),
            )
        } else {
            let parsed = parse_ldd_spec(stdout);
            Ok(
                (
                    parsed.libs,
                    parsed.linker,
                    if parsed.unresolved.len() > 0 {
                        Some(unresolved_warning(parsed.unresolved))
                    } else {
                        None
                    },
                ),
            )
        },
    }
}

/// What a run of `ldd` on a binary amounts to: the libraries to copy, with a
/// warning about those that were not found.
pub fn resolve(binary: &str, out: &Output) -> (r: Result<(Deps, Option<String>), Failure>)
    ensures
        match r {
            Ok((deps, warning)) => resolve_spec(binary@, *out) == Ok::<
                (Seq<Seq<char>>, Option<Seq<char>>, Option<Seq<char>>),
                invocation::FailureView,
            >((deps.libs.deep_view(), deps.linker.deep_view(), warning.deep_view())),
            Err(f) => resolve_spec(binary@, *out) == Err::<
                (Seq<Seq<char>>, Option<Seq<char>>, Option<Seq<char>>),
                invocation::FailureView,
            >(f.deep_view()),
        },
{
    if let Ended::NotStarted(cause) = &out.ended {
        return Err(
            Failure::Spawn { context: cat("running ldd on ", binary), cause: cause.clone() },
        );
    }
    let stdout = text::lossy(&out.stdout);
    if text::contains(stdout.as_str(), "statically linked") {
        let libs: Vec<String> = Vec::new();
        assert(libs.deep_view() =~= seq![]);
        return Ok((Deps { libs, linker: None }, None));
    }
    if !out.ended.success() {
        let stderr = text::lossy(&out.stderr);
        return Err(
            Failure::Message(
                cat4("ldd failed on ", binary, ": ", text::trim(stderr.as_str())),
            ),
        );
    }
    let parsed = parse_ldd(stdout.as_str());
    assert(parsed.unresolved.deep_view().len() == parsed.unresolved@.len());
    let warning = if parsed.unresolved.len() > 0 {
        let subject = if parsed.unresolved.len() == 1 {
            "a dependency"
        } else {
            "dependencies"
        };
        let names = text::join(&parsed.unresolved, ", ");
        Some(
            cat4(
                "[graft] warning: ",
                subject,
                " could not be resolved on the host and won't be grafted: ",
                names.as_str(),
            ),
        )
    } else {
        None
    };
    Ok((Deps { libs: parsed.libs, linker: parsed.linker }, warning))
}

/// Every library to copy has a file name, and no two have the same.
pub proof fn libraries_have_distinct_names(lines: Seq<Seq<char>>)
    ensures
        ({
            let libs = parse_lines(lines).libs;
            &&& forall|i: int|
                0 <= i < libs.len() ==> path::file_name_spec(#[trigger] libs[i]) is Some
            &&& forall|i: int, j: int|
                0 <= i < j < libs.len() ==> path::file_name_spec(#[trigger] libs[i])
                    != path::file_name_spec(#[trigger] libs[j])
        }),
    decreases lines.len(),
{
    if lines.len() > 0 {
        libraries_have_distinct_names(lines.drop_last());
    }
}

/// A line of a listing that resolves a library tells its path, and one that does
/// not tells its name.
pub proof fn line_tells_its_library(name: Seq<char>, path: Seq<char>, behind: Seq<char>)
    requires
        name.len() > 0,
        name[0] != '/',
        !("linux-vdso"@.is_prefix_of(name + " => "@ + path + " "@ + behind)),
        forall|i: int| 0 <= i < name.len() ==> !text::is_space(#[trigger] name[i]) && name[i] != '=',
        path.len() > 0,
        path[0] == '/',
        forall|i: int| 0 <= i < path.len() ==> !text::is_space(#[trigger] path[i]),
        behind.len() > 0,
        !text::is_space(behind.last()),
    ensures
        told(name + " => "@ + path + " "@ + behind) == Told::Lib(path),
{
    reveal_strlit(" => ");
    reveal_strlit("=> ");
    reveal_strlit(" ");
    reveal_strlit("/");
    let line = name + " => "@ + path + " "@ + behind;
    let n = name.len() as int;
    assert(line[0] == name[0]);
    assert(line.last() == behind.last());
    assert(text::trim_spec(line) == line);
    assert(!"/"@.is_prefix_of(line)) by {
        if "/"@.is_prefix_of(line) {
            assert(line.subrange(0, 1)[0] == line[0]);
        }
    }
    assert(line.subrange(n + 1, n + 4) =~= "=> "@);
    assert(text::occurs_at(line, "=> "@, n + 1));
    text::lemma_find(line, "=> "@, 0);
    assert forall|i: int| 0 <= i < n + 1 implies !text::occurs_at(line, "=> "@, i) by {
        if text::occurs_at(line, "=> "@, i) {
            assert(line.subrange(i, i + 3)[0] == line[i]);
            if i < n {
                assert(line[i] == name[i]);
            }
        }
    }
    assert(text::find_spec(line, "=> "@) == Some(n + 1));
    let rhs = path + " "@ + behind;
    assert(line.skip(n + 4) =~= rhs);
    assert(rhs[0] == path[0]);
    assert(rhs.last() == behind.last());
    assert(text::trim_spec(rhs) == rhs);
    assert(rhs =~= path + seq![' '] + behind);
    text::words_are_separated_by_white_space(path, ' ', behind);
    assert(text::words_spec(rhs)[0] == path);
    assert(path.subrange(0, 1) =~= "/"@);
}

/// Every library that a listing tells is copied, by its path or by another to the
/// same file name; nothing else is.
pub proof fn every_told_library_is_copied(lines: Seq<Seq<char>>, i: int, p: Seq<char>)
    requires
        0 <= i < lines.len(),
        told(lines[i]) == Told::Lib(p) || told(lines[i]) == Told::Linker(p),
    ensures
        path::file_name_spec(p) matches Some(name) ==> has_name(parse_lines(lines).libs, name),
    decreases lines.len(),
{
    let init = lines.drop_last();
    let rest = parse_lines(init).libs;
    let all = parse_lines(lines).libs;
    if let Some(name) = path::file_name_spec(p) {
        if i == lines.len() - 1 {
            if !has_name(rest, name) {
                assert(path::file_name_spec(all[rest.len() as int]) == Some(name));
            }
        } else {
            every_told_library_is_copied(init, i, p);
            let k = choose|k: int|
                0 <= k < rest.len() && path::file_name_spec(#[trigger] rest[k]) == Some(name);
            assert(all[k] == rest[k]);
        }
    }
}

/// What is copied was told by the listing.
pub proof fn only_told_libraries_are_copied(lines: Seq<Seq<char>>, lib: Seq<char>)
    requires
        parse_lines(lines).libs.contains(lib),
    ensures
        exists|i: int|
            0 <= i < lines.len() && (told(#[trigger] lines[i]) == Told::Lib(lib) || told(lines[i])
                == Told::Linker(lib)),
    decreases lines.len(),
{
    if lines.len() > 0 {
        let init = lines.drop_last();
        let rest = parse_lines(init).libs;
        let all = parse_lines(lines).libs;
        let k = choose|k: int| 0 <= k < all.len() && all[k] == lib;
        if k < rest.len() {
            assert(rest[k] == lib);
            only_told_libraries_are_copied(init, lib);
            let i = choose|i: int|
                0 <= i < init.len() && (told(#[trigger] init[i]) == Told::Lib(lib) || told(init[i])
                    == Told::Linker(lib));
            assert(lines[i] == init[i]);
        } else {
            assert(lines[lines.len() - 1] == lines.last());
        }
    }
}

/// The linker is the one that the listing tells last, and every library that was
/// not found is told of.
pub proof fn linker_and_missing_libraries_are_told(lines: Seq<Seq<char>>, i: int)
    requires
        0 <= i < lines.len(),
    ensures
        told(lines[i]) matches Told::Linker(p) ==> {
            &&& parse_lines(lines).linker is Some
            &&& (forall|j: int| i < j < lines.len() ==> told(#[trigger] lines[j]) !is Linker)
                ==> parse_lines(lines).linker == Some(p)
        },
        told(lines[i]) matches Told::Missing(name) ==> parse_lines(lines).unresolved.contains(name),
    decreases lines.len(),
{
    let init = lines.drop_last();
    let rest = parse_lines(init);
    let all = parse_lines(lines);
    if i < lines.len() - 1 {
        linker_and_missing_libraries_are_told(init, i);
        assert(init[i] == lines[i]);
        if forall|j: int| i < j < lines.len() ==> told(#[trigger] lines[j]) !is Linker {
            assert forall|j: int| i < j < init.len() implies told(#[trigger] init[j]) !is Linker by {
                assert(init[j] == lines[j]);
            }
            assert(told(lines[lines.len() - 1]) !is Linker);
        }
        if let Told::Missing(name) = told(lines[i]) {
            let k = choose|k: int| 0 <= k < rest.unresolved.len() && rest.unresolved[k] == name;
            assert(all.unresolved[k] == name);
        }
    } else {
        if let Told::Missing(name) = told(lines[i]) {
            assert(all.unresolved[rest.unresolved.len() as int] == name);
        }
    }
}

/// A static binary has nothing to bring along, however its listing ended; any
/// other listing that failed is a failure.
pub proof fn static_binary_needs_no_libraries(binary: Seq<char>, out: Output)
    requires
        out.ended is Exited,
    ensures
        text::contains_spec(text::utf8_lossy(out.stdout@), "statically linked"@) ==> resolve_spec(
            binary,
            out,
        ) == Ok::<
            (Seq<Seq<char>>, Option<Seq<char>>, Option<Seq<char>>),
            invocation::FailureView,
        >((seq![], None, None)),
        !text::contains_spec(text::utf8_lossy(out.stdout@), "statically linked"@) ==> (resolve_spec(
            binary,
            out,
        ) is Ok <==> out.ended.succeeded()),
{
}

} // verus!
