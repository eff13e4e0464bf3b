//! The hash of what defines a container, by which changes are noticed.
use std::io::Read;

use json_comments::StripComments;
use vstd::prelude::*;
use vstd::utf8::*;

use crate::docker;
use crate::docker::shell_quote;
use crate::invocation;
use crate::invocation::{Ended, Failure, Output};
use crate::num;
use crate::num::hexadecimal_padded;
use crate::path;
use crate::text;
use crate::text::{cat3, cat5, same, text_less};

verus! {

/// The hash of nothing.
pub const FNV_OFFSET: u64 = 0xcbf2_9ce4_8422_2325;

/// The FNV-1a hash of bytes, going on from a hash.
pub open spec fn fnv_spec(data: Seq<u8>, h: u64) -> u64
    decreases data.len(),
{
    if data.len() == 0 {
        h
    } else {
        (fnv_spec(data.drop_last(), h) ^ (data.last() as u64)).wrapping_mul(0x0000_0100_0000_01b3)
    }
}

/// The FNV-1a hash of bytes, going on from a hash.
pub fn fnv1a(data: &[u8], h: u64) -> (r: u64)
    ensures
        r == fnv_spec(data@, h),
{
    let mut acc: u64 = h;
    assert(data@.take(0) =~= seq![]);
    for i in 0..data.len()
        invariant
            acc == fnv_spec(data@.take(i as int), h),
    {
        assert(data@.take(i + 1).drop_last() =~= data@.take(i as int));
        acc = (acc ^ (data[i] as u64)).wrapping_mul(0x0000_0100_0000_01b3);
    }
    assert(data@.take(data@.len() as int) =~= data@);
    acc
}

// ── canonical form ────────────────────────────────────────────────────────────

/// What `json_comments::StripComments` makes of bytes; nothing if it fails.
pub uninterp spec fn uncommented(bytes: Seq<u8>) -> Option<Seq<u8>>;

/// What `serde_json::to_vec` writes for the value that `serde_json::from_reader`
/// reads from bytes; nothing if one of them fails.
pub uninterp spec fn compact_json(bytes: Seq<u8>) -> Option<Seq<u8>>;

/// `json_comments::StripComments`, read to its end, gives the bytes with spaces
/// in place of comments, or fails on a comment that is not closed or not one. It
/// goes by the bytes alone. What is a comment is left to its name.
#[verifier::external_body]
fn strip_comments(bytes: &Vec<u8>) -> (r: Option<Vec<u8>>)
    ensures
        r.deep_view() == uncommented(bytes@),
{
    let mut out: Vec<u8> = Vec::new();
    StripComments::new(bytes.as_slice()).read_to_end(&mut out).ok()?;
    Some(out)
}

/// `serde_json::to_vec` of the value that `serde_json::from_reader` reads: JSON
/// without formatting, or nothing if one of them fails. Both go by what they are
/// given alone. What the form is for given bytes is left to its name.
#[verifier::external_body]
fn compact(bytes: &Vec<u8>) -> (r: Option<Vec<u8>>)
    ensures
        r.deep_view() == compact_json(bytes@),
{
    let value: serde_json::Value = serde_json::from_reader(bytes.as_slice()).ok()?;
    serde_json::to_vec(&value).ok()
}

/// What JSON with comments looks like without comments and formatting; nothing
/// if it does not parse.
pub open spec fn canonical_json(bytes: Seq<u8>) -> Option<Seq<u8>> {
    match uncommented(bytes) {
        Some(plain) => compact_json(plain),
        None => None,
    }
}

/// What JSON with comments looks like without comments and formatting; nothing
/// if it does not parse.
fn canonical(bytes: &Vec<u8>) -> (r: Option<Vec<u8>>)
    ensures
        r.deep_view() == canonical_json(bytes@),
{
    match strip_comments(bytes) {
        Some(plain) => {
            assert(plain.deep_view() =~= plain@);
            compact(&plain)
        },
        None => None,
    }
}

/// A file that holds JSON with comments, by its name.
pub open spec fn is_jsonc(p: Seq<char>) -> bool {
    path::file_name_spec(p) == Some("devcontainer.json"@) || path::file_name_spec(p) == Some(
        ".devcontainer.json"@,
    )
}

/// What of a file goes into the hash: a devcontainer.json in its canonical form
/// where it has one, so that edits of comments and formatting do not count; any
/// other file as it is.
pub open spec fn normalize_spec(p: Seq<char>, bytes: Seq<u8>) -> Seq<u8> {
    if is_jsonc(p) {
        normalized_with(bytes, canonical_json(bytes))
    } else {
        bytes
    }
}

/// The canonical form where there is one, or else the bytes.
pub open spec fn normalized_with(bytes: Seq<u8>, canonical: Option<Seq<u8>>) -> Seq<u8> {
    match canonical {
        Some(c) => c,
        None => bytes,
    }
}

/// The canonical form where there is one, or else the bytes.
pub fn canonical_or_raw(bytes: Vec<u8>, canonical: Option<Vec<u8>>) -> (r: Vec<u8>)
    ensures
        r@ == normalized_with(bytes@, canonical.deep_view()),
{
    match canonical {
        Some(c) => {
            assert(c.deep_view() =~= c@);
            c
        },
        None => bytes,
    }
}

/// What of a file goes into the hash. devcontainer.json is JSON with comments;
/// it is canonicalized, so that comment-only (and whitespace and key-order)
/// edits don't trigger a spurious recreate prompt. Other files hash as they are.
pub fn normalize_for_hash(p: &str, bytes: Vec<u8>) -> (r: Vec<u8>)
    ensures
        r@ == normalize_spec(p@, bytes@),
{
    let jsonc = match path::file_name(p) {
        Some(name) => same(name, "devcontainer.json") || same(name, ".devcontainer.json"),
        None => false,
    };
    if !jsonc {
        return bytes;
    }
    let found = canonical(&bytes);
    canonical_or_raw(bytes, found)
}

// ── local files ───────────────────────────────────────────────────────────────

/// What goes into the hash.
#[derive(Debug, PartialEq, Eq)]
pub enum Scope {
    /// All files under a directory, each under its path within it.
    Tree(String),
    /// These files, as far as they can be read, each under its file name.
    Files(Vec<String>),
}

/// What a [`Scope`] says.
pub enum ScopeView {
    Tree(Seq<char>),
    Files(Seq<Seq<char>>),
}

impl DeepView for Scope {
    type V = ScopeView;

    open spec fn deep_view(&self) -> ScopeView {
        match self {
            Scope::Tree(dir) => ScopeView::Tree(dir@),
            Scope::Files(files) => ScopeView::Files(files.deep_view()),
        }
    }
}

/// What goes into the hash: the whole `.devcontainer` directory where the
/// configuration stands in one, or else the configuration and the extra files.
pub open spec fn scope_spec(config_path: Seq<char>, extra: Seq<Seq<char>>) -> ScopeView {
    match path::parent_spec(config_path) {
        Some(dir) => if path::file_name_spec(dir) == Some(".devcontainer"@) {
            ScopeView::Tree(dir)
        } else {
            ScopeView::Files(seq![config_path] + extra)
        },
        None => ScopeView::Files(seq![config_path] + extra),
    }
}

/// What goes into the hash.
pub fn scope(config_path: &str, extra: &Vec<String>) -> (r: Scope)
    ensures
        r.deep_view() == scope_spec(config_path@, extra.deep_view()),
{
    if let Some(dir) = path::parent(config_path) {
        if let Some(name) = path::file_name(dir) {
            if same(name, ".devcontainer") {
                return Scope::Tree(dir.to_string());
            }
        }
    }
    let mut files = invocation::args1(config_path);
    invocation::push_list(&mut files, extra);
    Scope::Files(files)
}

/// A file that goes into the hash.
#[derive(Debug, PartialEq, Eq)]
pub struct Input {
    /// What it is hashed under.
    pub name: String,
    pub path: String,
    pub bytes: Vec<u8>,
}

/// What is hashed of a file.
pub struct EntryView {
    pub name: Seq<char>,
    pub bytes: Seq<u8>,
}

impl View for Input {
    type V = EntryView;

    open spec fn view(&self) -> EntryView {
        EntryView { name: self.name@, bytes: normalize_spec(self.path@, self.bytes@) }
    }
}

/// A sorted list with one more entry, behind those whose name is not greater.
pub open spec fn insert_entry(sorted: Seq<EntryView>, e: EntryView) -> Seq<EntryView>
    decreases sorted.len(),
{
    if sorted.len() == 0 || !text::text_lt(e.name, sorted.last().name) {
        sorted.push(e)
    } else {
        insert_entry(sorted.drop_last(), e).push(sorted.last())
    }
}

/// The entries by name; those with the same name stay as they came.
pub open spec fn sort_entries(entries: Seq<EntryView>) -> Seq<EntryView>
    decreases entries.len(),
{
    if entries.len() == 0 {
        seq![]
    } else {
        insert_entry(sort_entries(entries.drop_last()), entries.last())
    }
}

/// The hash of entries: of each its name, a zero byte, its contents and a byte
/// that no name holds.
pub open spec fn hash_entries(entries: Seq<EntryView>) -> u64
    decreases entries.len(),
{
    if entries.len() == 0 {
        FNV_OFFSET
    } else {
        let e = entries.last();
        fnv_spec(
            seq![0xffu8],
            fnv_spec(
                e.bytes,
                fnv_spec(
                    seq![0u8],
                    fnv_spec(encode_utf8(e.name), hash_entries(entries.drop_last())),
                ),
            ),
        )
    }
}

/// The hash of what defines a container, as text.
pub open spec fn hash_spec(entries: Seq<EntryView>) -> Seq<char> {
    num::zero_padded(num::hex(hash_entries(sort_entries(entries)) as nat), 16)
}

/// An entry with its contents in the form that is hashed.
struct Entry {
    name: String,
    bytes: Vec<u8>,
}

spec fn entry_views(v: Seq<Entry>) -> Seq<EntryView> {
    v.map_values(|e: Entry| EntryView { name: e.name@, bytes: e.bytes@ })
}

proof fn lemma_insert_at(sorted: Seq<EntryView>, e: EntryView, k: int)
    requires
        0 <= k <= sorted.len(),
        forall|j: int|
            k <= j < sorted.len() ==> text::text_lt(e.name, (#[trigger] sorted[j]).name),
        k == 0 || !text::text_lt(e.name, sorted[k - 1].name),
    ensures
        insert_entry(sorted, e) == sorted.insert(k, e),
    decreases sorted.len(),
{
    if k == sorted.len() {
        assert(sorted.insert(k, e) =~= sorted.push(e));
    } else {
        let init = sorted.drop_last();
        assert(sorted[sorted.len() - 1] == sorted.last());
        assert forall|j: int| k <= j < init.len() implies text::text_lt(
            e.name,
            (#[trigger] init[j]).name,
        ) by {
            assert(init[j] == sorted[j]);
        }
        lemma_insert_at(init, e, k);
        assert(init.insert(k, e).push(sorted.last()) =~= sorted.insert(k, e));
    }
}

/// Hashes the inputs that define the container.
pub fn hash_inputs(inputs: Vec<Input>) -> (r: String)
    ensures
        r@ == hash_spec(inputs@.map_values(|i: Input| i@)),
{
    let ghost all = inputs@.map_values(|i: Input| i@);
    let ghost raw = inputs@;
    let mut sorted: Vec<Entry> = Vec::new();
    assert(entry_views(sorted@) =~= sort_entries(all.take(0)));
    for input in it: inputs
        invariant
            it.seq() == raw,
            all == raw.map_values(|i: Input| i@),
            entry_views(sorted@) == sort_entries(all.take(it.index())),
    {
        let ghost n = it.index();
        assert(all.take(n + 1).drop_last() =~= all.take(n));
        assert(all[n] == input@);
        let bytes = normalize_for_hash(input.path.as_str(), input.bytes);
        let e = Entry { name: input.name, bytes };
        let ghost views = entry_views(sorted@);
        let mut k: usize = sorted.len();
        while k > 0 && text_less(e.name.as_str(), sorted[k - 1].name.as_str())
            invariant
                k <= sorted@.len(),
                views == entry_views(sorted@),
                forall|j: int|
                    k <= j < sorted@.len() ==> text::text_lt(
                        e.name@,
                        (#[trigger] views[j]).name,
                    ),
            decreases k,
        {
            k -= 1;
        }
        proof {
            lemma_insert_at(views, EntryView { name: e.name@, bytes: e.bytes@ }, k as int);
        }
        sorted.insert(k, e);
        assert(entry_views(sorted@) =~= views.insert(
            k as int,
            EntryView { name: e.name@, bytes: e.bytes@ },
        ));
    }
    assert(all.take(all.len() as int) =~= all);
    let ghost order = sort_entries(all);
    let zero: [u8; 1] = [0x00];
    let end: [u8; 1] = [0xff];
    assert(zero@ =~= seq![0u8]);
    assert(end@ =~= seq![0xffu8]);
    let mut h: u64 = FNV_OFFSET;
    for i in 0..sorted.len()
        invariant
            order == entry_views(sorted@),
            zero@ == seq![0u8],
            end@ == seq![0xffu8],
            h == hash_entries(order.take(i as int)),
    {
        assert(order.take(i + 1).drop_last() =~= order.take(i as int));
        assert(order[i as int].name == sorted@[i as int].name@);
        assert(order[i as int].bytes == sorted@[i as int].bytes@);
        h = fnv1a(sorted[i].name.as_str().as_bytes(), h);
        h = fnv1a(&zero, h);
        h = fnv1a(sorted[i].bytes.as_slice(), h);
        h = fnv1a(&end, h);
    }
    assert(order.take(order.len() as int) =~= order);
    hexadecimal_padded(h, 16)
}

// ── remote files ──────────────────────────────────────────────────────────────

/// Texts, each quoted, with spaces between them.
pub open spec fn quoted_list(items: Seq<Seq<char>>) -> Seq<char> {
    text::join_spec(items.map_values(|s: Seq<char>| docker::shell_quote_spec(s)), " "@)
}

/// The directory that a configuration stands in.
pub open spec fn config_dir(config_path: Seq<char>) -> Seq<char> {
    match path::parent_spec(config_path) {
        Some(d) => d,
        None => config_path,
    }
}

/// The configuration as a search from its directory names it.
pub open spec fn listed_config(config_path: Seq<char>) -> Seq<char> {
    match path::file_name_spec(config_path) {
        Some(name) => path::join_spec(config_dir(config_path), name),
        None => config_path,
    }
}

/// The script that hashes every file under the directory of the configuration,
/// and the extra files, on the host where they are. The configuration itself is
/// left out: it does not count as it is.
pub open spec fn remote_script_spec(config_path: Seq<char>, extra: Seq<Seq<char>>) -> Seq<char> {
    "find "@ + quoted_list(seq![config_dir(config_path)] + extra)
        + " -type f 2>/dev/null | LC_ALL=C grep -vxF -e "@ + docker::shell_quote_spec(
        listed_config(config_path),
    ) + " | sort | xargs sha256sum 2>/dev/null | sha256sum"@
}

/// The script that hashes the files other than the configuration on the host
/// where they are.
pub fn remote_hash_script(config_path: &str, extra: &Vec<String>) -> (r: String)
    ensures
        r@ == remote_script_spec(config_path@, extra.deep_view()),
{
    let dir = match path::parent(config_path) {
        Some(d) => d,
        None => config_path,
    };
    let listed = match path::file_name(config_path) {
        Some(name) => path::join(dir, name),
        None => config_path.to_string(),
    };
    let ghost items = seq![dir@] + extra.deep_view();
    let ghost all = items.map_values(|s: Seq<char>| docker::shell_quote_spec(s));
    let mut targets = invocation::args1(shell_quote(dir).as_str());
    assert(targets.deep_view() =~= all.take(1));
    for i in 0..extra.len()
        invariant
            items == seq![dir@] + extra.deep_view(),
            all == items.map_values(|s: Seq<char>| docker::shell_quote_spec(s)),
            targets.deep_view() == all.take(i + 1),
    {
        assert(items[i + 1] == extra@[i as int]@);
        invocation::push(&mut targets, shell_quote(extra[i].as_str()).as_str());
        assert(targets.deep_view() =~= all.take(i + 2));
    }
    assert(all.take(all.len() as int) =~= all);
    cat5(
        "find ",
        text::join(&targets, " ").as_str(),
        " -type f 2>/dev/null | LC_ALL=C grep -vxF -e ",
        shell_quote(listed.as_str()).as_str(),
        " | sort | xargs sha256sum 2>/dev/null | sha256sum",
    )
}

/// The first word of a text, or a stand-in.
pub open spec fn first_word_or(s: Seq<char>, other: Seq<char>) -> Seq<char> {
    let words = text::words_spec(s);
    if words.len() > 0 {
        words[0]
    } else {
        other
    }
}

/// The hash of a configuration on its own, as it counts.
pub open spec fn config_hash(config_path: Seq<char>, config: Seq<u8>) -> Seq<char> {
    num::zero_padded(
        num::hex(fnv_spec(normalize_spec(config_path, config), FNV_OFFSET) as nat),
        16,
    )
}

/// What a remote run of the script amounts to: the hash of the other files,
/// which is the first word of what it wrote, and that of the configuration, which
/// counts in its canonical form.
pub open spec fn remote_hash_spec(
    host: Seq<char>,
    config_path: Seq<char>,
    config: Seq<u8>,
    out: Output,
) -> Result<Seq<char>, invocation::FailureView> {
    match out.ended {
        Ended::NotStarted(cause) => Err(
            invocation::FailureView::Spawn { context: "spawning ssh"@, cause: cause@ },
        ),
        Ended::Exited(code) => if code == Some(0i32) {
            Ok(
                first_word_or(text::utf8_lossy(out.stdout@), "0"@) + "-"@ + config_hash(
                    config_path,
                    config,
                ),
            )
        } else {
            Err(
                invocation::FailureView::Message(
                    "hashing devcontainer inputs on "@ + host + " failed ("@ + out.status@ + "): "@
                        + text::trim_spec(text::utf8_lossy(out.stderr@)),
                ),
            )
        },
    }
}

/// What a remote run of the script amounts to, together with the bytes of the
/// configuration.
pub fn remote_hash(host: &str, config_path: &str, config: Vec<u8>, out: &Output) -> (r: Result<
    String,
    Failure,
>)
    ensures
        invocation::result_view(r) == remote_hash_spec(host@, config_path@, config@, *out),
{
    if let Ended::NotStarted(cause) = &out.ended {
        return Err(
            Failure::Spawn { context: "spawning ssh".to_string(), cause: cause.clone() },
        );
    }
    if !out.ended.success() {
        let stderr = text::lossy(&out.stderr);
        let mut message = cat5(
            "hashing devcontainer inputs on ",
            host,
            " failed (",
            out.status.as_str(),
            "): ",
        );
        message.append(text::trim(stderr.as_str()));
        return Err(Failure::Message(message));
    }
    let counted = normalize_for_hash(config_path, config);
    let own = hexadecimal_padded(fnv1a(counted.as_slice(), FNV_OFFSET), 16);
    let stdout = text::lossy(&out.stdout);
    let words = text::words(stdout.as_str());
    assert(words.deep_view().len() == words@.len());
    let others = if words.len() > 0 {
        let word: &str = words[0];
        assert(words.deep_view()[0] == word@);
        word
    } else {
        "0"
    };
    Ok(cat3(others, "-", own.as_str()))
}

// ── laws ──────────────────────────────────────────────────────────────────────

/// Only the canonical form of a devcontainer.json counts: two that have the same
/// one contribute the same to the hash.
pub proof fn only_the_canonical_form_counts(p: Seq<char>, a: Seq<u8>, b: Seq<u8>)
    requires
        is_jsonc(p),
        canonical_json(a) is Some,
        canonical_json(a) == canonical_json(b),
    ensures
        normalize_spec(p, a) == normalize_spec(p, b),
{
}

/// Only the canonical form counts with a remote too: where the other files are
/// the same, two configurations that have the same one have the same hash.
pub proof fn only_the_canonical_form_counts_remotely(
    host: Seq<char>,
    p: Seq<char>,
    a: Seq<u8>,
    b: Seq<u8>,
    out: Output,
)
    requires
        is_jsonc(p),
        canonical_json(a) is Some,
        canonical_json(a) == canonical_json(b),
    ensures
        remote_hash_spec(host, p, a, out) == remote_hash_spec(host, p, b, out),
{
}

/// Any file but a devcontainer.json is hashed as it is.
pub proof fn other_files_count_as_they_are(p: Seq<char>, bytes: Seq<u8>)
    requires
        !is_jsonc(p),
    ensures
        normalize_spec(p, bytes) == bytes,
{
}

/// No two entries have the same name.
pub open spec fn distinct_names(entries: Seq<EntryView>) -> bool {
    forall|i: int, j: int|
        0 <= i < j < entries.len() ==> (#[trigger] entries[i]).name != (#[trigger] entries[j]).name
}

/// The names follow each other strictly.
pub open spec fn strictly_sorted(entries: Seq<EntryView>) -> bool {
    forall|i: int, j: int|
        0 <= i < j < entries.len() ==> text::text_lt(
            (#[trigger] entries[i]).name,
            (#[trigger] entries[j]).name,
        )
}

proof fn lemma_insert_members(sorted: Seq<EntryView>, e: EntryView, x: EntryView)
    ensures
        insert_entry(sorted, e).contains(x) <==> sorted.contains(x) || x == e,
    decreases sorted.len(),
{
    let out = insert_entry(sorted, e);
    if sorted.len() == 0 || !text::text_lt(e.name, sorted.last().name) {
        assert(out[sorted.len() as int] == e);
        if sorted.contains(x) {
            let k = choose|k: int| 0 <= k < sorted.len() && sorted[k] == x;
            assert(out[k] == x);
        }
        if out.contains(x) {
            let k = choose|k: int| 0 <= k < out.len() && out[k] == x;
            if k < sorted.len() {
                assert(sorted[k] == x);
            }
        }
    } else {
        let init = sorted.drop_last();
        let rest = insert_entry(init, e);
        lemma_insert_members(init, e, x);
        assert(out[rest.len() as int] == sorted.last());
        if sorted.contains(x) {
            let k = choose|k: int| 0 <= k < sorted.len() && sorted[k] == x;
            if k < init.len() {
                assert(init[k] == x);
            }
        }
        if rest.contains(x) {
            let k = choose|k: int| 0 <= k < rest.len() && rest[k] == x;
            assert(out[k] == x);
        }
        if out.contains(x) {
            let k = choose|k: int| 0 <= k < out.len() && out[k] == x;
            if k < rest.len() {
                assert(rest[k] == x);
            } else {
                assert(sorted[sorted.len() - 1] == x);
            }
        }
        if init.contains(x) {
            let k = choose|k: int| 0 <= k < init.len() && init[k] == x;
            assert(sorted[k] == x);
        }
    }
}

proof fn lemma_insert_sorted(sorted: Seq<EntryView>, e: EntryView)
    requires
        strictly_sorted(sorted),
        forall|i: int| 0 <= i < sorted.len() ==> (#[trigger] sorted[i]).name != e.name,
    ensures
        strictly_sorted(insert_entry(sorted, e)),
    decreases sorted.len(),
{
    let out = insert_entry(sorted, e);
    if sorted.len() == 0 || !text::text_lt(e.name, sorted.last().name) {
        assert forall|i: int, j: int| 0 <= i < j < out.len() implies text::text_lt(
            (#[trigger] out[i]).name,
            (#[trigger] out[j]).name,
        ) by {
            if j == sorted.len() {
                text::lemma_text_total(e.name, sorted.last().name);
                assert(sorted[sorted.len() - 1].name != e.name);
                if i < sorted.len() - 1 {
                    assert(text::text_lt(sorted[i].name, sorted[sorted.len() - 1].name));
                    text::lemma_text_trans(sorted[i].name, sorted.last().name, e.name);
                }
            }
        }
    } else {
        let init = sorted.drop_last();
        assert forall|i: int| 0 <= i < init.len() implies (#[trigger] init[i]).name != e.name by {
            assert(init[i] == sorted[i]);
        }
        assert(strictly_sorted(init)) by {
            assert forall|i: int, j: int| 0 <= i < j < init.len() implies text::text_lt(
                (#[trigger] init[i]).name,
                (#[trigger] init[j]).name,
            ) by {
                assert(init[i] == sorted[i] && init[j] == sorted[j]);
            }
        }
        lemma_insert_sorted(init, e);
        let rest = insert_entry(init, e);
        assert forall|i: int, j: int| 0 <= i < j < out.len() implies text::text_lt(
            (#[trigger] out[i]).name,
            (#[trigger] out[j]).name,
        ) by {
            if j < rest.len() {
                assert(out[i] == rest[i] && out[j] == rest[j]);
            } else {
                assert(rest.contains(rest[i]));
                lemma_insert_members(init, e, rest[i]);
                if rest[i] != e {
                    let k = choose|k: int| 0 <= k < init.len() && init[k] == rest[i];
                    assert(text::text_lt(sorted[k].name, sorted[sorted.len() - 1].name));
                }
            }
        }
    }
}

proof fn lemma_sorted_entries(entries: Seq<EntryView>)
    requires
        distinct_names(entries),
    ensures
        strictly_sorted(sort_entries(entries)),
        forall|x: EntryView| #![auto] sort_entries(entries).contains(x) <==> entries.contains(x),
    decreases entries.len(),
{
    if entries.len() > 0 {
        let init = entries.drop_last();
        assert(distinct_names(init)) by {
            assert forall|i: int, j: int| 0 <= i < j < init.len() implies (#[trigger] init[i]).name
                != (#[trigger] init[j]).name by {
                assert(init[i] == entries[i] && init[j] == entries[j]);
            }
        }
        lemma_sorted_entries(init);
        let s = sort_entries(init);
        let e = entries.last();
        assert forall|i: int| 0 <= i < s.len() implies (#[trigger] s[i]).name != e.name by {
            assert(s.contains(s[i]));
            assert(init.contains(s[i]));
            let k = choose|k: int| 0 <= k < init.len() && init[k] == s[i];
            assert(entries[k].name != entries[entries.len() - 1].name);
        }
        lemma_insert_sorted(s, e);
        assert forall|x: EntryView| #![auto] sort_entries(entries).contains(x) <==> entries.contains(
            x,
        ) by {
            lemma_insert_members(s, e, x);
            if entries.contains(x) {
                let k = choose|k: int| 0 <= k < entries.len() && entries[k] == x;
                if k < init.len() {
                    assert(init[k] == x);
                }
            }
            if init.contains(x) {
                let k = choose|k: int| 0 <= k < init.len() && init[k] == x;
                assert(entries[k] == x);
            }
            assert(entries[entries.len() - 1] == e);
        }
    }
}

/// Two strictly sorted lists with the same members are the same.
proof fn lemma_sorted_unique(a: Seq<EntryView>, b: Seq<EntryView>)
    requires
        strictly_sorted(a),
        strictly_sorted(b),
        forall|x: EntryView| #![auto] a.contains(x) <==> b.contains(x),
    ensures
        a == b,
    decreases a.len(),
{
    if a.len() == 0 {
        if b.len() > 0 {
            assert(b.contains(b[0]));
        }
        assert(a =~= b);
    } else {
        assert(a.contains(a[a.len() - 1]));
        assert(b.len() > 0);
        assert(b.contains(b[b.len() - 1]));
        let x = a.last();
        let y = b.last();
        let i = choose|i: int| 0 <= i < b.len() && b[i] == x;
        let j = choose|j: int| 0 <= j < a.len() && a[j] == y;
        if x != y {
            assert(text::text_lt(b[i].name, b[b.len() - 1].name));
            assert(text::text_lt(a[j].name, a[a.len() - 1].name));
            text::lemma_text_asym(x.name, y.name);
        }
        let p = a.drop_last();
        let q = b.drop_last();
        lemma_drop_sorted(a);
        lemma_drop_sorted(b);
        assert forall|z: EntryView| #![auto] p.contains(z) <==> q.contains(z) by {
            lemma_drop_member(a, z);
            lemma_drop_member(b, z);
            assert(a.contains(z) <==> b.contains(z));
        }
        lemma_sorted_unique(p, q);
        assert(a =~= p.push(x));
        assert(b =~= q.push(y));
    }
}

proof fn lemma_drop_sorted(a: Seq<EntryView>)
    requires
        strictly_sorted(a),
        a.len() > 0,
    ensures
        strictly_sorted(a.drop_last()),
{
    let p = a.drop_last();
    assert forall|i: int, j: int| 0 <= i < j < p.len() implies text::text_lt(
        (#[trigger] p[i]).name,
        (#[trigger] p[j]).name,
    ) by {
        assert(p[i] == a[i] && p[j] == a[j]);
    }
}

proof fn lemma_drop_member(a: Seq<EntryView>, z: EntryView)
    requires
        strictly_sorted(a),
        a.len() > 0,
    ensures
        a.drop_last().contains(z) <==> a.contains(z) && z != a.last(),
{
    let p = a.drop_last();
    if p.contains(z) {
        let k = choose|k: int| 0 <= k < p.len() && p[k] == z;
        assert(a[k] == z);
        assert(text::text_lt(a[k].name, a[a.len() - 1].name));
        text::lemma_text_asym(a.last().name, a.last().name);
    }
    if a.contains(z) && z != a.last() {
        let k = choose|k: int| 0 <= k < a.len() && a[k] == z;
        assert(p[k] == z);
    }
}

/// The order in which the files are found does not matter: the same files, each
/// under a name of its own, have the same hash.
pub proof fn hash_does_not_depend_on_the_order(a: Seq<EntryView>, b: Seq<EntryView>)
    requires
        distinct_names(a),
        distinct_names(b),
        forall|x: EntryView| #![auto] a.contains(x) <==> b.contains(x),
    ensures
        hash_spec(a) == hash_spec(b),
{
    lemma_sorted_entries(a);
    lemma_sorted_entries(b);
    assert forall|x: EntryView| #![auto] sort_entries(a).contains(x) <==> sort_entries(b).contains(
        x,
    ) by {
        assert(a.contains(x) <==> b.contains(x));
    }
    lemma_sorted_unique(sort_entries(a), sort_entries(b));
}

/// The configuration always counts: with its whole directory, or by itself along
/// with each of the extra files.
pub proof fn configuration_always_counts(config_path: Seq<char>, extra: Seq<Seq<char>>, i: int)
    ensures
        match scope_spec(config_path, extra) {
            ScopeView::Tree(dir) => path::parent_spec(config_path) == Some(dir)
                && path::file_name_spec(dir) == Some(".devcontainer"@),
            ScopeView::Files(files) => {
                &&& files.len() == extra.len() + 1
                &&& files[0] == config_path
                &&& 0 <= i < extra.len() ==> files[i + 1] == extra[i]
                &&& path::parent_spec(config_path) matches Some(dir) ==> path::file_name_spec(dir)
                    != Some(".devcontainer"@)
            },
        },
{
}

} // verus!
