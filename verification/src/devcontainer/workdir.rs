//! Questions to the user: which directory to work in, and yes or no.
use vstd::prelude::*;
use vstd::utf8::*;

use crate::devcontainer::naming;
use crate::devcontainer::naming::lower_text;
use crate::docker;
use crate::docker::Docker;
use crate::invocation;
use crate::invocation::{push, Ended, Job, Output};
use crate::num;
use crate::num::decimal;
use crate::text;
use crate::text::{cat3, cat4, same, text_less};

verus! {

// ── candidates ────────────────────────────────────────────────────────────────

/// A strictly sorted list with one more text, which it may hold already.
pub open spec fn insert_text(sorted: Seq<Seq<char>>, s: Seq<char>) -> Seq<Seq<char>>
    decreases sorted.len(),
{
    if sorted.len() == 0 || text::text_lt(sorted.last(), s) {
        sorted.push(s)
    } else if sorted.last() == s {
        sorted
    } else {
        insert_text(sorted.drop_last(), s).push(sorted.last())
    }
}

/// The texts in order, each once.
pub open spec fn sorted_texts(items: Seq<Seq<char>>) -> Seq<Seq<char>>
    decreases items.len(),
{
    if items.len() == 0 {
        seq![]
    } else {
        insert_text(sorted_texts(items.drop_last()), items.last())
    }
}

proof fn lemma_insert_at(sorted: Seq<Seq<char>>, s: Seq<char>, k: int)
    requires
        0 <= k <= sorted.len(),
        forall|j: int| k <= j < sorted.len() ==> !text::text_lt(#[trigger] sorted[j], s)
            && sorted[j] != s,
    ensures
        k == 0 || text::text_lt(sorted[k - 1], s) ==> insert_text(sorted, s) == sorted.insert(k, s),
        k > 0 && !text::text_lt(sorted[k - 1], s) && sorted[k - 1] == s ==> insert_text(sorted, s)
            == sorted,
    decreases sorted.len(),
{
    if k == sorted.len() {
        assert(sorted.insert(k, s) =~= sorted.push(s));
        if k > 0 {
            assert(sorted[k - 1] == sorted.last());
        }
    } else {
        let init = sorted.drop_last();
        assert(sorted[sorted.len() - 1] == sorted.last());
        assert forall|j: int| k <= j < init.len() implies !text::text_lt(#[trigger] init[j], s)
            && init[j] != s by {
            assert(init[j] == sorted[j]);
        }
        lemma_insert_at(init, s, k);
        assert(init.insert(k, s).push(sorted.last()) =~= sorted.insert(k, s));
        assert(init.push(sorted.last()) =~= sorted);
    }
}

fn add_text(sorted: &mut Vec<String>, s: &str)
    ensures
        final(sorted).deep_view() == insert_text(old(sorted).deep_view(), s@),
{
    let ghost all = sorted.deep_view();
    let mut k: usize = sorted.len();
    while k > 0 && !text_less(sorted[k - 1].as_str(), s) && !same(sorted[k - 1].as_str(), s)
        invariant
            all == sorted.deep_view(),
            sorted.deep_view() == old(sorted).deep_view(),
            k <= sorted@.len(),
            forall|j: int| k <= j < all.len() ==> !text::text_lt(#[trigger] all[j], s@) && all[j]
                != s@,
        decreases k,
    {
        assert(all[k - 1] == sorted@[k - 1]@);
        k -= 1;
    }
    proof {
        lemma_insert_at(all, s@, k as int);
        if k > 0 {
            assert(all[k - 1] == sorted@[k - 1]@);
            text::lemma_text_asym(s@, s@);
        }
    }
    if k > 0 && same(sorted[k - 1].as_str(), s) {
        return;
    }
    sorted.insert(k, s.to_string());
    assert(sorted.deep_view() =~= all.insert(k as int, s@));
}

/// The command that lists what stands under the usual places.
pub open spec fn listing_job(docker: Docker, container: Seq<char>) -> invocation::JobView {
    docker.exec_spec(
        container,
        seq![
            "sh"@,
            "-c"@,
            "find /workspaces /workspace -maxdepth 1 -mindepth 1 -type d 2>/dev/null"@,
        ],
        false,
    )
}

/// The command that lists what stands under the usual places.
pub fn listing(docker: &Docker, container: &str) -> (r: Job)
    ensures
        r.deep_view() == listing_job(*docker, container@),
{
    docker.exec_with(
        container,
        invocation::args3(
            "sh",
            "-c",
            "find /workspaces /workspace -maxdepth 1 -mindepth 1 -type d 2>/dev/null",
        ),
        false,
    )
}

/// What a listing tells; nothing where it is not UTF-8. How the command ended
/// does not matter: where one of the places is missing it fails, and lists what
/// stands under the other.
pub open spec fn listed_spec(out: Output) -> Seq<Seq<char>> {
    if out.ended is NotStarted || !valid_utf8(out.stdout@) {
        seq![]
    } else {
        text::full_lines_spec(decode_utf8(out.stdout@))
    }
}

/// The candidates for the directory to work in: where something is mounted, and
/// what stands under the usual places, in order and each once.
pub open spec fn workdirs_spec(mounts: Seq<Seq<char>>, listed: Seq<Seq<char>>) -> Seq<Seq<char>> {
    sorted_texts(mounts + listed)
}

/// Collects workspace candidates: actual mount destinations, plus any
/// subdirectories found under /workspaces and /workspace. Sorted and
/// deduplicated.
pub fn discover_workdirs(mounts: &Output, found: &Output) -> (r: Vec<String>)
    ensures
        r.deep_view() == workdirs_spec(docker::mounts_spec(*mounts), listed_spec(*found)),
{
    let mut all = docker::mounts(mounts);
    match &found.ended {
        Ended::NotStarted(_) => {
            assert(all.deep_view() + seq![] =~= all.deep_view());
        },
        Ended::Exited(_) => {
            if let Some(listed) = text::utf8(&found.stdout) {
                invocation::push_list(&mut all, &text::full_lines(listed.as_str()));
            } else {
                assert(all.deep_view() + seq![] =~= all.deep_view());
            }
        },
    }
    let ghost items = all.deep_view();
    let mut out: Vec<String> = Vec::new();
    assert(out.deep_view() =~= sorted_texts(items.take(0)));
    for i in 0..all.len()
        invariant
            items == all.deep_view(),
            out.deep_view() == sorted_texts(items.take(i as int)),
    {
        assert(items.take(i + 1).drop_last() =~= items.take(i as int));
        assert(items[i as int] == all@[i as int]@);
        add_text(&mut out, all[i].as_str());
    }
    assert(items.take(items.len() as int) =~= items);
    out
}

// ── which directory ───────────────────────────────────────────────────────────

/// The candidates, numbered from one.
pub open spec fn menu(candidates: Seq<Seq<char>>) -> Seq<Seq<char>> {
    Seq::new(
        candidates.len(),
        |i: int| "  "@ + num::dec((i + 1) as nat) + ") "@ + candidates[i],
    )
}

/// The lines of a question, and whether it is asked at all.
#[derive(Debug, PartialEq, Eq)]
pub struct Question {
    pub lines: Vec<String>,
    pub ask: bool,
}

/// What is told where the configured directory is not there: a question with the
/// candidates, or that there is none to ask or to choose from.
pub open spec fn workdir_lines(
    configured: Seq<char>,
    candidates: Seq<Seq<char>>,
    terminal: bool,
) -> Seq<Seq<char>> {
    if candidates.len() == 0 || !terminal {
        seq![
            "[graft] workspaceFolder '"@ + configured
                + "' not found in the container; falling back to '/'."@,
            "[graft]   Add \"workspaceFolder\": \"<path>\" to devcontainer.json to avoid this."@,
        ]
    } else {
        seq![
            "[graft] workspaceFolder '"@ + configured + "' not found in the container."@,
            "[graft] Select a workspace directory (or press Enter for '/'):"@,
        ] + menu(candidates)
    }
}

/// Called when the configured workspaceFolder doesn't exist in the container:
/// shows the candidates and lets the user pick one or type a custom path. Falls
/// back to '/' without asking when there is no terminal or no candidate.
pub fn select_workdir(configured: &str, candidates: &Vec<String>, terminal: bool) -> (r: Question)
    ensures
        r.lines.deep_view() == workdir_lines(configured@, candidates.deep_view(), terminal),
        r.ask == (candidates@.len() > 0 && terminal),
{
    let ghost all = candidates.deep_view();
    assert(all.len() == candidates@.len());
    if candidates.len() == 0 || !terminal {
        let lines = invocation::args2(
            cat3(
                "[graft] workspaceFolder '",
                configured,
                "' not found in the container; falling back to '/'.",
            ).as_str(),
            "[graft]   Add \"workspaceFolder\": \"<path>\" to devcontainer.json to avoid this.",
        );
        return Question { lines, ask: false };
    }
    let mut lines = invocation::args2(
        cat3(
            "[graft] workspaceFolder '",
            configured,
            "' not found in the container.",
        ).as_str(),
        "[graft] Select a workspace directory (or press Enter for '/'):",
    );
    let ghost head = lines.deep_view();
    assert(head + menu(all).take(0) =~= head);
    for i in 0..candidates.len()
        invariant
            all == candidates.deep_view(),
            lines.deep_view() == head + menu(all).take(i as int),
    {
        assert(all[i as int] == candidates@[i as int]@);
        assert(candidates.len() == candidates@.len());
        let line = cat4(
            "  ",
            decimal(i as u64 + 1).as_str(),
            ") ",
            candidates[i].as_str(),
        );
        push(&mut lines, line.as_str());
        assert(lines.deep_view() =~= head + menu(all).take(i + 1));
    }
    assert(menu(all).take(all.len() as int) =~= menu(all));
    Question { lines, ask: true }
}

/// What an answer amounts to.
#[derive(Debug, PartialEq, Eq)]
pub enum Choice {
    Take(String),
    /// The question is asked again, behind this line.
    Again(String),
}

/// What a [`Choice`] says.
pub enum ChoiceView {
    Take(Seq<char>),
    Again(Seq<char>),
}

impl DeepView for Choice {
    type V = ChoiceView;

    open spec fn deep_view(&self) -> ChoiceView {
        match self {
            Choice::Take(s) => ChoiceView::Take(s@),
            Choice::Again(s) => ChoiceView::Again(s@),
        }
    }
}

/// What an answer amounts to: a number of the menu, an absolute path, or nothing
/// for the root.
pub open spec fn choice_spec(candidates: Seq<Seq<char>>, answer: Option<Seq<char>>) -> ChoiceView {
    match answer {
        None => ChoiceView::Take("/"@),
        Some(line) => {
            let input = text::trim_spec(line);
            if input.len() == 0 {
                ChoiceView::Take("/"@)
            } else {
                match num::number(input, 10, usize::MAX as nat) {
                    Some(n) => if 1 <= n <= candidates.len() {
                        ChoiceView::Take(candidates[n - 1])
                    } else {
                        ChoiceView::Again(
                            "[graft] Enter a number between 1 and "@ + num::dec(candidates.len())
                                + " or an absolute path."@,
                        )
                    },
                    None => if "/"@.is_prefix_of(input) {
                        ChoiceView::Take(input)
                    } else {
                        ChoiceView::Again(
                            "[graft] Enter a number from the list or an absolute path starting with '/'."@,
                        )
                    },
                }
            }
        },
    }
}

/// What an answer amounts to; none where it could not be read.
pub fn choose_workdir(candidates: &Vec<String>, answer: Option<&str>) -> (r: Choice)
    ensures
        r.deep_view() == choice_spec(candidates.deep_view(), answer.deep_view()),
{
    let ghost all = candidates.deep_view();
    assert(all.len() == candidates@.len());
    let line = match answer {
        Some(line) => line,
        None => {
            return Choice::Take("/".to_string());
        },
    };
    let input = text::trim(line);
    if input.is_empty() {
        return Choice::Take("/".to_string());
    }
    match num::parse(input, 10, usize::MAX as u64) {
        Some(n) => {
            if n >= 1 && n <= candidates.len() as u64 {
                let i: usize = (n - 1) as usize;
                assert(all[i as int] == candidates@[i as int]@);
                Choice::Take(candidates[i].clone())
            } else {
                Choice::Again(
                    cat3(
                        "[graft] Enter a number between 1 and ",
                        decimal(candidates.len() as u64).as_str(),
                        " or an absolute path.",
                    ),
                )
            }
        },
        None => {
            if text::starts_with(input, "/") {
                Choice::Take(input.to_string())
            } else {
                Choice::Again(
                    "[graft] Enter a number from the list or an absolute path starting with '/'.".to_string(),
                )
            }
        },
    }
}

// ── yes or no ─────────────────────────────────────────────────────────────────

/// What a question is put as: with a terminal, a prompt; without one, what is
/// done instead.
pub fn confirm(question: &str, terminal: bool) -> (r: Question)
    ensures
        r.ask == terminal,
        r.lines.deep_view() == (if terminal {
            seq!["[graft] "@ + question@ + " [y/N] "@]
        } else {
            seq![
                "[graft] "@ + question@,
                "[graft] (no TTY — keeping the existing container; re-run with `graft up --build` to recreate)"@,
            ]
        }),
{
    if terminal {
        Question {
            lines: invocation::args1(cat3("[graft] ", question, " [y/N] ").as_str()),
            ask: true,
        }
    } else {
        Question {
            lines: invocation::args2(
                text::cat("[graft] ", question).as_str(),
                "[graft] (no TTY — keeping the existing container; re-run with `graft up --build` to recreate)",
            ),
            ask: false,
        }
    }
}

/// An answer is a yes.
pub open spec fn is_yes(line: Seq<char>) -> bool {
    let answer = naming::lower_spec(text::trim_spec(line));
    answer == "y"@ || answer == "yes"@
}

/// Whether an answer is a yes; anything else is a no.
pub fn confirmed(line: &str) -> (r: bool)
    ensures
        r == is_yes(line@),
{
    let answer = lower_text(text::trim(line));
    same(answer.as_str(), "y") || same(answer.as_str(), "yes")
}

// ── laws ──────────────────────────────────────────────────────────────────────

/// The texts follow each other strictly.
pub open spec fn strictly_sorted(items: Seq<Seq<char>>) -> bool {
    forall|i: int, j: int|
        0 <= i < j < items.len() ==> text::text_lt(#[trigger] items[i], #[trigger] items[j])
}

proof fn lemma_insert_text(sorted: Seq<Seq<char>>, s: Seq<char>, x: Seq<char>)
    requires
        strictly_sorted(sorted),
    ensures
        strictly_sorted(insert_text(sorted, s)),
        insert_text(sorted, s).contains(x) <==> sorted.contains(x) || x == s,
    decreases sorted.len(),
{
    let out = insert_text(sorted, s);
    if sorted.len() == 0 || text::text_lt(sorted.last(), s) {
        assert forall|i: int, j: int| 0 <= i < j < out.len() implies text::text_lt(
            #[trigger] out[i],
            #[trigger] out[j],
        ) by {
            if j == sorted.len() && i < sorted.len() - 1 {
                assert(text::text_lt(sorted[i], sorted[sorted.len() - 1]));
                text::lemma_text_trans(sorted[i], sorted.last(), s);
            }
        }
        assert(out[sorted.len() as int] == s);
        if sorted.contains(x) {
            let k = choose|k: int| 0 <= k < sorted.len() && sorted[k] == x;
            assert(out[k] == x);
        }
        if out.contains(x) {
            let k = choose|k: int| 0 <= k < out.len() && out[k] == x;
            if k < sorted.len() {
                assert(sorted[k] == x);
            }
        }
    } else if sorted.last() == s {
        assert(sorted[sorted.len() - 1] == s);
    } else {
        let init = sorted.drop_last();
        assert(strictly_sorted(init)) by {
            assert forall|i: int, j: int| 0 <= i < j < init.len() implies text::text_lt(
                #[trigger] init[i],
                #[trigger] init[j],
            ) by {
                assert(init[i] == sorted[i] && init[j] == sorted[j]);
            }
        }
        lemma_insert_text(init, s, x);
        let rest = insert_text(init, s);
        text::lemma_text_total(s, sorted.last());
        assert forall|i: int, j: int| 0 <= i < j < out.len() implies text::text_lt(
            #[trigger] out[i],
            #[trigger] out[j],
        ) by {
            if j < rest.len() {
                assert(out[i] == rest[i] && out[j] == rest[j]);
            } else {
                lemma_insert_text(init, s, rest[i]);
                assert(rest.contains(rest[i]));
                if rest[i] != s {
                    let k = choose|k: int| 0 <= k < init.len() && init[k] == rest[i];
                    assert(text::text_lt(sorted[k], sorted[sorted.len() - 1]));
                }
            }
        }
        assert(out[rest.len() as int] == sorted.last());
        if sorted.contains(x) {
            let k = choose|k: int| 0 <= k < sorted.len() && sorted[k] == x;
            if k < init.len() {
                assert(init[k] == x);
            }
        }
        if rest.contains(x) {
            let k = choose|k: int| 0 <= k < rest.len() && rest[k] == x;
            assert(out[k] == x);
        }
        if init.contains(x) {
            let k = choose|k: int| 0 <= k < init.len() && init[k] == x;
            assert(sorted[k] == x);
        }
        if out.contains(x) {
            let k = choose|k: int| 0 <= k < out.len() && out[k] == x;
            if k < rest.len() {
                assert(rest[k] == x);
            } else {
                assert(sorted[sorted.len() - 1] == x);
            }
        }
    }
}

/// The candidates are in order and each comes once; they are exactly the
/// directories that were told.
pub proof fn candidates_are_sorted_and_complete(items: Seq<Seq<char>>, x: Seq<char>)
    ensures
        strictly_sorted(sorted_texts(items)),
        sorted_texts(items).contains(x) <==> items.contains(x),
    decreases items.len(),
{
    if items.len() > 0 {
        let init = items.drop_last();
        candidates_are_sorted_and_complete(init, x);
        lemma_insert_text(sorted_texts(init), items.last(), x);
        if items.contains(x) {
            let k = choose|k: int| 0 <= k < items.len() && items[k] == x;
            if k < init.len() {
                assert(init[k] == x);
            }
        }
        if init.contains(x) {
            let k = choose|k: int| 0 <= k < init.len() && init[k] == x;
            assert(items[k] == x);
        }
        assert(items[items.len() - 1] == items.last());
    }
}

/// A directory that is taken is the root, a candidate, or an absolute path.
pub proof fn chosen_directory_is_valid(candidates: Seq<Seq<char>>, answer: Option<Seq<char>>)
    ensures
        choice_spec(candidates, answer) matches ChoiceView::Take(dir) ==> candidates.contains(dir)
            || "/"@.is_prefix_of(dir),
{
    if let Some(line) = answer {
        let input = text::trim_spec(line);
        if let Some(n) = num::number(input, 10, usize::MAX as nat) {
            if 1 <= n <= candidates.len() {
                assert(candidates.contains(candidates[n - 1]));
            }
        }
    }
}

/// The number that a candidate is listed under chooses it.
pub proof fn listed_number_chooses_its_candidate(candidates: Seq<Seq<char>>, i: int)
    requires
        0 <= i < candidates.len(),
        candidates.len() <= usize::MAX,
    ensures
        menu(candidates)[i] == "  "@ + num::dec((i + 1) as nat) + ") "@ + candidates[i],
        choice_spec(candidates, Some(num::dec((i + 1) as nat))) == ChoiceView::Take(candidates[i]),
{
    let n = (i + 1) as nat;
    num::lemma_decimal_digits(n);
    num::lemma_decimal_roundtrip(n, usize::MAX as nat);
    let s = num::dec(n);
    assert(!text::is_space(s[0]));
    assert(!text::is_space(s.last())) by {
        assert('0' <= s[s.len() - 1] && s[s.len() - 1] <= '9');
    }
    assert(text::trim_spec(s) == s);
}

/// An absolute path chooses itself, and no answer, or an empty one, the root.
pub proof fn absolute_path_chooses_itself(candidates: Seq<Seq<char>>, p: Seq<char>)
    requires
        p.len() > 0,
        p[0] == '/',
        !text::is_space(p.last()),
    ensures
        choice_spec(candidates, Some(p)) == ChoiceView::Take(p),
        choice_spec(candidates, None) == ChoiceView::Take("/"@),
        choice_spec(candidates, Some(seq![])) == ChoiceView::Take("/"@),
{
    reveal_strlit("/");
    assert(text::trim_spec(p) == p);
    num::only_digits_are_numbers(p, 10, 0);
    assert(p.subrange(0, 1) =~= "/"@);
    let none: Seq<char> = seq![];
    assert(text::trim_spec(none) == none);
}

} // verus!
