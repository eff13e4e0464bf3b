//! Names for containers, compose projects and sessions.
use vstd::prelude::*;
use vstd::utf8::*;

use crate::container;
use crate::devcontainer::hash;
use crate::devcontainer::hash::fnv1a;
use crate::num;
use crate::num::hexadecimal_padded;
use crate::path;
use crate::text;
use crate::text::{cat3, chars};

verus! {

/// The name of a project's directory, or a stand-in where it has none.
pub open spec fn project_name_spec(project: Seq<char>) -> Seq<char> {
    match path::file_name_spec(project) {
        Some(name) => name,
        None => "workspace"@,
    }
}

/// The name of a project's directory, or a stand-in where it has none.
pub fn project_name(project_path: &str) -> (r: String)
    ensures
        r@ == project_name_spec(project_path@),
{
    match path::file_name(project_path) {
        Some(name) => name.to_string(),
        None => "workspace".to_string(),
    }
}

/// A short hash of a path.
pub open spec fn path_tag_spec(project: Seq<char>) -> Seq<char> {
    num::zero_padded(
        num::hex(hash::fnv_spec(encode_utf8(project), hash::FNV_OFFSET) as nat % 0x100_0000),
        6,
    )
}

fn path_tag(project_path: &str) -> (r: String)
    ensures
        r@ == path_tag_spec(project_path@),
{
    let h: u64 = fnv1a(project_path.as_bytes(), hash::FNV_OFFSET);
    let low: u64 = h & 0xff_ffff;
    assert(low == h % 0x100_0000) by (bit_vector)
        requires
            low == h & 0xff_ffff,
    ;
    hexadecimal_padded(low, 6)
}

/// A stable container name: the project's name plus a short hash of its path.
pub open spec fn container_name_spec(project: Seq<char>) -> Seq<char> {
    "graft-"@ + container::sanitize_spec(project_name_spec(project)) + "-"@ + path_tag_spec(project)
}

/// A stable container name for a devcontainer: project basename plus a short
/// hash of its path, so distinct projects with the same basename don't collide.
pub fn container_name(project_path: &str) -> (r: String)
    ensures
        r@ == container_name_spec(project_path@),
{
    let base = container::sanitize(project_name(project_path).as_str());
    let mut s = cat3("graft-", base.as_str(), "-");
    s.append(path_tag(project_path).as_str());
    s
}

/// A text with its ASCII letters in lower case.
pub open spec fn lower_spec(s: Seq<char>) -> Seq<char> {
    Seq::new(s.len(), |i: int| text::lower(s[i]))
}

/// A text with its ASCII letters in lower case.
pub fn lower_text(s: &str) -> (r: String)
    ensures
        r@ == lower_spec(s@),
{
    let v = chars(s);
    let mut out = String::new();
    for i in 0..v.len()
        invariant
            v@ == s@,
            out@ == lower_spec(s@).take(i as int),
    {
        out.push(text::lower_case(v[i]));
        assert(out@ =~= lower_spec(s@).take(i + 1));
    }
    assert(out@ =~= lower_spec(s@));
    out
}

/// The label of a session: sanitized, without dashes at either end, and with a
/// stand-in where nothing is left.
pub open spec fn label_spec(label: Seq<char>) -> Seq<char> {
    let plain = text::strip_end_spec(
        text::strip_start_spec(container::sanitize_spec(label), '-'),
        '-',
    );
    if plain.len() == 0 {
        "workspace"@
    } else {
        plain
    }
}

/// A readable session name: the devcontainer's name, or else the project's, plus
/// a short hash of its path.
pub open spec fn session_name_spec(
    name: Option<Seq<char>>,
    basename: Seq<char>,
    project: Seq<char>,
) -> Seq<char> {
    "graft-"@ + label_spec(
        match name {
            Some(n) => n,
            None => basename,
        },
    ) + "-"@ + path_tag_spec(project)
}

/// A readable tmux session name: the devcontainer's `name` (or the project
/// basename when it has none), sanitized for tmux, plus a short path hash so two
/// projects that share a label don't land on the same session.
pub fn session_name(name: Option<&str>, basename: &str, project_path: &str) -> (r: String)
    ensures
        r@ == session_name_spec(name.deep_view(), basename@, project_path@),
{
    let label = match name {
        Some(n) => n,
        None => basename,
    };
    let sanitized = container::sanitize(label);
    let plain = text::strip_end(text::strip_start(sanitized.as_str(), '-'), '-');
    let shown = if plain.is_empty() {
        "workspace"
    } else {
        plain
    };
    let mut s = cat3("graft-", shown, "-");
    s.append(path_tag(project_path).as_str());
    s
}

// ── laws ──────────────────────────────────────────────────────────────────────

/// A character of a container's name.
pub open spec fn is_name_char(c: char) -> bool {
    text::is_alnum(c) || c == '-'
}

/// Hexadecimal digits are ASCII letters and digits.
pub proof fn lemma_hex_chars(n: nat)
    ensures
        forall|i: int| 0 <= i < num::hex(n).len() ==> text::is_alnum(#[trigger] num::hex(n)[i]),
    decreases n,
{
    let d = n % 16;
    assert(num::digit(d as int) as int == if d < 10 {
        48 + d
    } else {
        87 + d
    });
    assert(text::is_alnum(num::digit(d as int)));
    if n >= 16 {
        lemma_hex_chars(n / 16);
        assert(num::hex(n) == num::hex(n / 16).push(num::digit(d as int)));
    } else {
        assert(num::hex(n) == seq![num::digit(d as int)]);
    }
}

/// Sixteen to a power.
pub open spec fn sixteens(k: nat) -> nat
    decreases k,
{
    if k == 0 {
        1
    } else {
        16 * sixteens((k - 1) as nat)
    }
}

proof fn lemma_hex_len(n: nat, k: nat)
    requires
        k >= 1,
        n < sixteens(k),
    ensures
        1 <= num::hex(n).len() <= k,
    decreases n,
{
    if n >= 16 {
        if k == 1 {
            assert(sixteens(0) == 1);
        }
        lemma_hex_len(n / 16, (k - 1) as nat);
    }
}

proof fn lemma_tag_len(project: Seq<char>)
    ensures
        path_tag_spec(project).len() == 6,
{
    reveal_with_fuel(sixteens, 7);
    assert(sixteens(6) == 0x100_0000);
    lemma_hex_len(
        hash::fnv_spec(encode_utf8(project), hash::FNV_OFFSET) as nat % 0x100_0000,
        6,
    );
}

/// A container's name holds only ASCII letters, digits and dashes.
pub proof fn container_names_are_plain(project: Seq<char>)
    ensures
        forall|i: int|
            0 <= i < container_name_spec(project).len() ==> is_name_char(
                #[trigger] container_name_spec(project)[i],
            ),
{
    let base = container::sanitize_spec(project_name_spec(project));
    container::session_names_are_plain(project_name_spec(project));
    lemma_hex_chars(
        hash::fnv_spec(encode_utf8(project), hash::FNV_OFFSET) as nat % 0x100_0000,
    );
    reveal_strlit("graft-");
    reveal_strlit("-");
    let name = container_name_spec(project);
    assert forall|i: int| 0 <= i < name.len() implies is_name_char(#[trigger] name[i]) by {
        if 6 <= i < 6 + base.len() {
            assert(name[i] == base[i - 6]);
        }
    }
}

/// A compose project's name, which has to be lower case, is: no upper-case
/// letter of any script is left in it.
pub proof fn compose_projects_are_lower_case(project: Seq<char>)
    ensures
        forall|i: int|
            0 <= i < lower_spec(container_name_spec(project)).len() ==> {
                let c = #[trigger] lower_spec(container_name_spec(project))[i];
                'a' <= c <= 'z' || '0' <= c <= '9' || c == '-'
            },
{
    container_names_are_plain(project);
    let name = container_name_spec(project);
    assert forall|i: int| 0 <= i < lower_spec(name).len() implies ({
        let c = #[trigger] lower_spec(name)[i];
        'a' <= c <= 'z' || '0' <= c <= '9' || c == '-'
    }) by {
        assert(is_name_char(name[i]));
    }
}

/// Projects whose paths hash apart get distinct names, even if their directories
/// are named alike.
pub proof fn names_differ_with_the_path_hash(a: Seq<char>, b: Seq<char>)
    requires
        path_tag_spec(a) != path_tag_spec(b),
    ensures
        container_name_spec(a) != container_name_spec(b),
{
    let x = container_name_spec(a);
    let y = container_name_spec(b);
    let ta = path_tag_spec(a);
    let tb = path_tag_spec(b);
    lemma_tag_len(a);
    lemma_tag_len(b);
    if x == y {
        assert(x.skip(x.len() - ta.len()) =~= ta);
        assert(y.skip(y.len() - tb.len()) =~= tb);
    }
}

proof fn lemma_strip_start(s: Seq<char>, c: char) -> (k: int)
    ensures
        0 <= k <= s.len(),
        text::strip_start_spec(s, c) == s.skip(k),
        k < s.len() ==> s[k] != c,
    decreases s.len(),
{
    if s.len() > 0 && s[0] == c {
        let k = lemma_strip_start(s.skip(1), c);
        assert(s.skip(1).skip(k) =~= s.skip(k + 1));
        if k < s.skip(1).len() {
            assert(s.skip(1)[k] == s[k + 1]);
        }
        k + 1
    } else {
        assert(s.skip(0) =~= s);
        0
    }
}

/// The label of a session is never empty, and starts and ends in anything but a
/// dash: it is a part of the sanitized text, unless nothing is left of that.
pub proof fn labels_start_and_end_plainly(label: Seq<char>)
    ensures
        label_spec(label).len() > 0,
        label_spec(label)[0] != '-',
        label_spec(label).last() != '-',
        label_spec(label) == "workspace"@ || exists|i: int, j: int|
            0 <= i < j <= label.len() && label_spec(label)
                == #[trigger] container::sanitize_spec(label).subrange(i, j),
{
    reveal_strlit("workspace");
    let s = container::sanitize_spec(label);
    let k = lemma_strip_start(s, '-');
    let t = s.skip(k);
    text::only_the_run_is_stripped(t, '-');
    let plain = text::strip_end_spec(t, '-');
    if plain.len() > 0 {
        let n = plain.len() as int;
        assert(t.take(n) =~= s.subrange(k, k + n));
        assert(plain[0] == t[0]);
        assert(t[0] == s[k]);
    }
}

/// A session is named after the devcontainer, whatever the project's directory is
/// called, and after that where the devcontainer has no name; either way the hash
/// of the project's path ends the name.
pub proof fn sessions_are_named_after_the_devcontainer(
    name: Seq<char>,
    basename: Seq<char>,
    other: Seq<char>,
    project: Seq<char>,
)
    ensures
        session_name_spec(Some(name), basename, project) == session_name_spec(
            Some(name),
            other,
            project,
        ),
        session_name_spec(None, basename, project) == session_name_spec(
            Some(basename),
            other,
            project,
        ),
        path_tag_spec(project).is_suffix_of(session_name_spec(Some(name), basename, project)),
        path_tag_spec(project).is_suffix_of(container_name_spec(project)),
        "graft-"@.is_prefix_of(session_name_spec(Some(name), basename, project)),
        "graft-"@.is_prefix_of(container_name_spec(project)),
{
    let tag = path_tag_spec(project);
    let s = session_name_spec(Some(name), basename, project);
    let c = container_name_spec(project);
    assert(s.subrange(s.len() - tag.len(), s.len() as int) =~= tag);
    assert(c.subrange(c.len() - tag.len(), c.len() as int) =~= tag);
    assert(s.subrange(0, "graft-"@.len() as int) =~= "graft-"@);
    assert(c.subrange(0, "graft-"@.len() as int) =~= "graft-"@);
}

} // verus!
