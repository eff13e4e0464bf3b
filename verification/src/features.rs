//! Dev container features: what they ask of the container, in which order they
//! are installed, and how.
use vstd::prelude::*;

use crate::docker;
use crate::docker::Docker;
use crate::invocation;
use crate::invocation::{args2, args3, push, push_list, Ended, Failure, Invocation, Job};
use crate::json;
use crate::json::{Json, JsonKind};
use crate::num;
use crate::num::decimal;
use crate::path;
use crate::runtime::Runtime;
use crate::script;
use crate::script::{then_step, Step};
use crate::table;
use crate::text;
use crate::text::{cat, cat3, cat4, cat5, chars, same, text_less};

verus! {

/// Where features are unpacked in a container.
pub const FEATURES_DIR: &'static str = "/tmp/graft-features";

/// The script that sets the variables of features in login shells.
pub const PROFILE_PATH: &'static str = "/etc/profile.d/graft-features.sh";

/// A feature as requested in devcontainer.json: an OCI reference or a path, plus
/// the user-supplied options.
#[derive(Debug, PartialEq, Eq)]
pub struct FeatureRequest {
    pub reference: String,
    /// The options by name; no name occurs twice.
    pub options: Vec<(String, Json)>,
}

/// The part of a feature's `devcontainer-feature.json` that matters here.
#[derive(Debug, PartialEq, Eq)]
pub struct FeatureMeta {
    pub id: String,
    /// The declared options in the order of their names.
    pub options: Vec<(String, OptionSpec)>,
    pub installs_after: Vec<String>,
    /// Variables for login shells, in the order of their names.
    pub container_env: Vec<(String, String)>,
    pub mounts: Vec<Json>,
    pub privileged: bool,
    pub cap_add: Vec<String>,
    pub security_opt: Vec<String>,
    pub init: bool,
    /// Would replace the container's command, which is `sleep infinity`, so it
    /// is warned about and not applied.
    pub entrypoint: Option<String>,
}

/// A declared option of a feature.
#[derive(Debug, PartialEq, Eq)]
pub struct OptionSpec {
    pub default: Json,
    pub enum_values: Option<Vec<Json>>,
}

/// A feature that was fetched.
#[derive(Debug, PartialEq, Eq)]
pub struct Resolved {
    pub reference: String,
    pub options: Vec<(String, Json)>,
    pub meta: FeatureMeta,
    /// The local directory with install.sh and the metadata.
    pub dir: String,
}

/// Container-creation settings that features contribute. Applied when the
/// container is brought up.
#[derive(Debug, PartialEq, Eq)]
pub struct CreateFlags {
    pub mounts: Vec<FeatureMount>,
    pub privileged: bool,
    pub cap_add: Vec<String>,
    pub security_opt: Vec<String>,
    pub init: bool,
}

/// A mount that a feature asks for.
#[derive(Debug, PartialEq, Eq)]
pub struct FeatureMount {
    pub source: String,
    pub target: String,
    pub kind: Option<String>,
}

/// What a [`FeatureMount`] says.
pub struct FeatureMountView {
    pub source: Seq<char>,
    pub target: Seq<char>,
    pub kind: Option<Seq<char>>,
}

/// What [`CreateFlags`] say.
#[verifier::ext_equal]
pub struct CreateFlagsView {
    pub mounts: Seq<FeatureMountView>,
    pub privileged: bool,
    pub cap_add: Seq<Seq<char>>,
    pub security_opt: Seq<Seq<char>>,
    pub init: bool,
}

impl DeepView for FeatureMount {
    type V = FeatureMountView;

    open spec fn deep_view(&self) -> FeatureMountView {
        FeatureMountView {
            source: self.source@,
            target: self.target@,
            kind: self.kind.deep_view(),
        }
    }
}

impl DeepView for CreateFlags {
    type V = CreateFlagsView;

    open spec fn deep_view(&self) -> CreateFlagsView {
        CreateFlagsView {
            mounts: self.mounts.deep_view(),
            privileged: self.privileged,
            cap_add: self.cap_add.deep_view(),
            security_opt: self.security_opt.deep_view(),
            init: self.init,
        }
    }
}

// ── creation settings ─────────────────────────────────────────────────────────

/// Each item behind the same option.
pub open spec fn repeated(option: Seq<char>, items: Seq<Seq<char>>) -> Seq<Seq<char>>
    decreases items.len(),
{
    if items.len() == 0 {
        seq![]
    } else {
        repeated(option, items.drop_last()) + seq![option, items.last()]
    }
}

/// Each item on a line of its own, between `before` and `after`.
pub open spec fn listed(before: Seq<char>, items: Seq<Seq<char>>, after: Seq<char>) -> Seq<char>
    decreases items.len(),
{
    if items.len() == 0 {
        seq![]
    } else {
        listed(before, items.drop_last(), after) + before + items.last() + after
    }
}

/// A heading, where there are items, then the items.
pub open spec fn section(
    heading: Seq<char>,
    before: Seq<char>,
    items: Seq<Seq<char>>,
    after: Seq<char>,
) -> Seq<char> {
    if items.len() == 0 {
        seq![]
    } else {
        heading + listed(before, items, after)
    }
}

impl FeatureMountView {
    /// The mount as `docker run --mount` takes it.
    pub open spec fn mount_arg(self) -> Seq<char> {
        (match self.kind {
            Some(k) => "type="@ + k + ","@,
            None => seq![],
        }) + "source="@ + self.source + ",target="@ + self.target
    }

    /// The mount as a compose file's short syntax takes it.
    pub open spec fn volume(self) -> Seq<char> {
        self.source + ":"@ + self.target
    }
}

impl CreateFlagsView {
    /// No settings at all.
    pub open spec fn none() -> Self {
        CreateFlagsView {
            mounts: seq![],
            privileged: false,
            cap_add: seq![],
            security_opt: seq![],
            init: false,
        }
    }

    /// The `docker run` flags.
    pub open spec fn run_args(self) -> Seq<Seq<char>> {
        (if self.privileged {
            seq!["--privileged"@]
        } else {
            seq![]
        }) + (if self.init {
            seq!["--init"@]
        } else {
            seq![]
        }) + repeated("--cap-add"@, self.cap_add) + repeated("--security-opt"@, self.security_opt)
            + repeated("--mount"@, self.mounts.map_values(|m: FeatureMountView| m.mount_arg()))
    }

    /// The compose override that adds these settings to a service.
    pub open spec fn compose_override(self, service: Seq<char>) -> Seq<char> {
        "services:\n  "@ + service + ":\n"@ + (if self.privileged {
            "    privileged: true\n"@
        } else {
            seq![]
        }) + (if self.init {
            "    init: true\n"@
        } else {
            seq![]
        }) + section("    cap_add:\n"@, "      - "@, self.cap_add, "\n"@) + section(
            "    security_opt:\n"@,
            "      - "@,
            self.security_opt,
            "\n"@,
        ) + section(
            "    volumes:\n"@,
            "      - \""@,
            self.mounts.map_values(|m: FeatureMountView| m.volume()),
            "\"\n"@,
        )
    }
}

fn push_repeated(a: &mut Vec<String>, option: &str, items: &Vec<String>)
    ensures
        final(a).deep_view() == old(a).deep_view() + repeated(option@, items.deep_view()),
{
    let ghost all = items.deep_view();
    let ghost head = a.deep_view();
    assert(head + repeated(option@, all.take(0)) =~= head);
    for i in 0..items.len()
        invariant
            all == items.deep_view(),
            a.deep_view() == head + repeated(option@, all.take(i as int)),
    {
        assert(all.take(i + 1).drop_last() =~= all.take(i as int));
        push(a, option);
        push(a, items[i].as_str());
        assert(a.deep_view() =~= head + repeated(option@, all.take(i + 1)));
    }
    assert(all.take(all.len() as int) =~= all);
}

fn append_section(s: &mut String, heading: &str, before: &str, items: &Vec<String>, after: &str)
    ensures
        final(s)@ == old(s)@ + section(heading@, before@, items.deep_view(), after@),
{
    let ghost all = items.deep_view();
    if items.len() == 0 {
        assert(s@ =~= old(s)@ + seq![]);
        return;
    }
    s.append(heading);
    let ghost head = s@;
    for i in 0..items.len()
        invariant
            all == items.deep_view(),
            s@ == head + listed(before@, all.take(i as int), after@),
    {
        assert(all.take(i + 1).drop_last() =~= all.take(i as int));
        s.append(before);
        s.append(items[i].as_str());
        s.append(after);
        assert(s@ =~= head + listed(before@, all.take(i + 1), after@));
    }
    assert(all.take(all.len() as int) =~= all);
    assert(s@ =~= old(s)@ + section(heading@, before@, all, after@));
}

impl Default for CreateFlags {
    fn default() -> (r: CreateFlags)
        ensures
            r.deep_view() == CreateFlagsView::none(),
    {
        let mounts: Vec<FeatureMount> = Vec::new();
        let none: Vec<String> = Vec::new();
        let also_none: Vec<String> = Vec::new();
        let r = CreateFlags {
            mounts,
            privileged: false,
            cap_add: none,
            security_opt: also_none,
            init: false,
        };
        assert(r.deep_view() =~= CreateFlagsView::none());
        r
    }
}

impl CreateFlags {
    /// Whether no feature asks for anything.
    pub fn is_empty(&self) -> (r: bool)
        ensures
            r == (self.deep_view() == CreateFlagsView::none()),
    {
        let r = self.mounts.len() == 0 && !self.privileged && self.cap_add.len() == 0
            && self.security_opt.len() == 0 && !self.init;
        proof {
            let v = self.deep_view();
            assert(v.mounts.len() == self.mounts@.len());
            assert(v.cap_add.len() == self.cap_add@.len());
            assert(v.security_opt.len() == self.security_opt@.len());
            if r {
                assert(v =~= CreateFlagsView::none());
            }
        }
        r
    }

    /// `docker run` flags, for a container made from an image.
    pub fn run_args(&self) -> (r: Vec<String>)
        ensures
            r.deep_view() == self.deep_view().run_args(),
    {
        let mut a: Vec<String> = Vec::new();
        if self.privileged {
            push(&mut a, "--privileged");
        }
        if self.init {
            push(&mut a, "--init");
        }
        push_repeated(&mut a, "--cap-add", &self.cap_add);
        push_repeated(&mut a, "--security-opt", &self.security_opt);
        let ghost mounts = self.deep_view().mounts.map_values(|m: FeatureMountView| m.mount_arg());
        let mut args: Vec<String> = Vec::new();
        for i in 0..self.mounts.len()
            invariant
                mounts == self.deep_view().mounts.map_values(
                    |m: FeatureMountView| m.mount_arg(),
                ),
                args.deep_view() == mounts.take(i as int),
        {
            let arg = self.mounts[i].to_mount_arg();
            push(&mut args, arg.as_str());
            assert(args.deep_view() =~= mounts.take(i + 1));
        }
        assert(args.deep_view() =~= mounts);
        push_repeated(&mut a, "--mount", &args);
        assert(a.deep_view() =~= self.deep_view().run_args());
        a
    }

    /// A docker-compose override snippet adding these settings to `service`.
    pub fn compose_override(&self, service: &str) -> (r: String)
        ensures
            r@ == self.deep_view().compose_override(service@),
    {
        let mut s = cat3("services:\n  ", service, ":\n");
        if self.privileged {
            s.append("    privileged: true\n");
        } else {
            assert(s@ + seq![] =~= s@);
        }
        let ghost so_far = s@;
        if self.init {
            s.append("    init: true\n");
        } else {
            assert(s@ + seq![] =~= s@);
        }
        append_section(&mut s, "    cap_add:\n", "      - ", &self.cap_add, "\n");
        append_section(&mut s, "    security_opt:\n", "      - ", &self.security_opt, "\n");
        let ghost volumes = self.deep_view().mounts.map_values(|m: FeatureMountView| m.volume());
        let mut items: Vec<String> = Vec::new();
        for i in 0..self.mounts.len()
            invariant
                volumes == self.deep_view().mounts.map_values(|m: FeatureMountView| m.volume()),
                items.deep_view() == volumes.take(i as int),
        {
            let item = cat3(self.mounts[i].source.as_str(), ":", self.mounts[i].target.as_str());
            push(&mut items, item.as_str());
            assert(items.deep_view() =~= volumes.take(i + 1));
        }
        assert(items.deep_view() =~= volumes);
        append_section(&mut s, "    volumes:\n", "      - \"", &items, "\"\n");
        s
    }
}

impl FeatureMount {
    /// The mount as `docker run --mount` takes it.
    pub fn to_mount_arg(&self) -> (r: String)
        ensures
            r@ == self.deep_view().mount_arg(),
    {
        let mut s = match &self.kind {
            Some(k) => cat3("type=", k.as_str(), ","),
            None => String::new(),
        };
        s.append("source=");
        s.append(self.source.as_str());
        s.append(",target=");
        s.append(self.target.as_str());
        assert(s@ =~= self.deep_view().mount_arg());
        s
    }
}

/// What a key in the text form of a mount stands for.
pub enum MountRole {
    Source,
    Target,
    Kind,
}

/// The key is one of the names of the role.
pub open spec fn plays(role: MountRole, key: Seq<char>) -> bool {
    match role {
        MountRole::Source => key == "source"@ || key == "src"@,
        MountRole::Target => key == "target"@ || key == "dst"@ || key == "destination"@,
        MountRole::Kind => key == "type"@,
    }
}

/// The value that an item `key=value` gives to a role.
pub open spec fn role_value(role: MountRole, item: Seq<char>) -> Option<Seq<char>> {
    match text::index_spec(item, '=') {
        Some(i) => if plays(role, text::trim_spec(item.take(i))) {
            Some(item.skip(i + 1))
        } else {
            None
        },
        None => None,
    }
}

/// The value that the last item for a role gives.
pub open spec fn last_value(role: MountRole, items: Seq<Seq<char>>) -> Option<Seq<char>>
    decreases items.len(),
{
    if items.len() == 0 {
        None
    } else {
        match role_value(role, items.last()) {
            Some(v) => Some(v),
            None => last_value(role, items.drop_last()),
        }
    }
}

/// A mount, where both its source and its target are known.
pub open spec fn mount_of(
    source: Option<Seq<char>>,
    target: Option<Seq<char>>,
    kind: Option<Seq<char>>,
) -> Option<FeatureMountView> {
    match (source, target) {
        (Some(source), Some(target)) => Some(FeatureMountView { source, target, kind }),
        _ => None,
    }
}

/// The mount that a JSON value describes: a text `key=value,…`, or an object.
pub open spec fn parse_mount_spec(v: Json) -> Option<FeatureMountView> {
    match v.kind {
        JsonKind::Text(s) => {
            let items = text::split_spec(s@, ',');
            mount_of(
                last_value(MountRole::Source, items),
                last_value(MountRole::Target, items),
                last_value(MountRole::Kind, items),
            )
        },
        JsonKind::Object(fields) => mount_of(
            json::text_field_spec(fields@, "source"@),
            json::text_field_spec(fields@, "target"@),
            json::text_field_spec(fields@, "type"@),
        ),
        _ => None,
    }
}

fn mount_from(source: Option<String>, target: Option<String>, kind: Option<String>) -> (r: Option<
    FeatureMount,
>)
    ensures
        r.deep_view() == mount_of(source.deep_view(), target.deep_view(), kind.deep_view()),
{
    match (source, target) {
        (Some(source), Some(target)) => Some(FeatureMount { source, target, kind }),
        _ => None,
    }
}

fn owned(s: Option<&str>) -> (r: Option<String>)
    ensures
        r.deep_view() == s.deep_view(),
{
    match s {
        Some(s) => Some(s.to_string()),
        None => None,
    }
}

/// The mount that a JSON value describes.
pub fn parse_mount(v: &Json) -> (r: Option<FeatureMount>)
    ensures
        r.deep_view() == parse_mount_spec(*v),
{
    match &v.kind {
        JsonKind::Text(s) => {
            let parts = text::split(s.as_str(), ',');
            let ghost items = text::split_spec(s@, ',');
            let mut source: Option<String> = None;
            let mut target: Option<String> = None;
            let mut kind: Option<String> = None;
            for i in 0..parts.len()
                invariant
                    parts.deep_view() == items,
                    source.deep_view() == last_value(MountRole::Source, items.take(i as int)),
                    target.deep_view() == last_value(MountRole::Target, items.take(i as int)),
                    kind.deep_view() == last_value(MountRole::Kind, items.take(i as int)),
            {
                assert(items.take(i + 1).drop_last() =~= items.take(i as int));
                let part: &str = parts[i];
                assert(items.take(i + 1).last() == part@);
                if let Some(at) = text::index_of(part, '=') {
                    let key = text::trim(text::take(part, at));
                    let val = text::skip(part, at + 1).to_string();
                    proof {
                        reveal_strlit("source");
                        reveal_strlit("src");
                        reveal_strlit("target");
                        reveal_strlit("dst");
                        reveal_strlit("destination");
                        reveal_strlit("type");
                        assert("source"@[0] != "target"@[0]);
                        assert("source"@[0] != "type"@[0] && "source"@[0] != "dst"@[0]);
                        assert("src"@[0] != "type"@[0] && "src"@[0] != "dst"@[0]);
                        assert("source"@[0] != "destination"@[0] && "type"@[0] != "dst"@[0]);
                        assert("type"@[1] != "target"@[1]);
                        assert("type"@[0] != "destination"@[0]);
                    }
                    if same(key, "source") || same(key, "src") {
                        source = Some(val);
                    } else if same(key, "target") || same(key, "dst") || same(key, "destination") {
                        target = Some(val);
                    } else if same(key, "type") {
                        kind = Some(val);
                    }
                }
            }
            assert(items.take(items.len() as int) =~= items);
            mount_from(source, target, kind)
        },
        JsonKind::Object(o) => mount_from(
            owned(json::text_field(o, "source")),
            owned(json::text_field(o, "target")),
            owned(json::text_field(o, "type")),
        ),
        _ => None,
    }
}

// ── references ────────────────────────────────────────────────────────────────

/// The marker of an installed feature.
pub open spec fn marker_key_spec(reference: Seq<char>) -> Seq<char> {
    "feature."@ + reference
}

/// The marker of an installed feature.
pub fn marker_key(reference: &str) -> (r: String)
    ensures
        r@ == marker_key_spec(reference@),
{
    cat("feature.", reference)
}

/// A reference is a path rather than an OCI reference.
pub open spec fn is_local(reference: Seq<char>) -> bool {
    "./"@.is_prefix_of(reference) || "../"@.is_prefix_of(reference) || "/"@.is_prefix_of(reference)
}

/// Whether a reference is a relative or absolute path rather than an OCI
/// reference.
pub fn is_local_ref(reference: &str) -> (r: bool)
    ensures
        r == is_local(reference@),
{
    text::starts_with(reference, "./") || text::starts_with(reference, "../") || text::starts_with(
        reference,
        "/",
    )
}

/// A reference without its tag. Only a colon behind the last slash starts one:
/// any other belongs to the port of a registry.
pub open spec fn untagged(s: Seq<char>) -> Seq<char> {
    match (text::rindex_spec(s, ':'), text::rindex_spec(s, '/')) {
        (Some(i), Some(j)) => if i > j {
            s.take(i)
        } else {
            s
        },
        (Some(i), None) => s.take(i),
        (None, _) => s,
    }
}

/// What stands behind the last slash.
pub open spec fn last_part(s: Seq<char>) -> Seq<char> {
    match text::rindex_spec(s, '/') {
        Some(i) => s.skip(i + 1),
        None => s,
    }
}

/// An entry of `installsAfter` or of the override order means a feature: by its
/// reference, whatever the tags, or by its id as the last part of the entry.
pub open spec fn means(target: Seq<char>, reference: Seq<char>, id: Seq<char>) -> bool {
    untagged(target) == untagged(reference) || last_part(untagged(target)) == id
}

fn strip_tag<'a>(s: &'a str) -> (r: &'a str)
    ensures
        r@ == untagged(s@),
{
    match (text::rindex_of(s, ':'), text::rindex_of(s, '/')) {
        (Some(i), Some(j)) => if i > j {
            text::take(s, i)
        } else {
            s
        },
        (Some(i), None) => text::take(s, i),
        (None, _) => s,
    }
}

/// Matches an installsAfter or override entry against a fetched feature, by full
/// reference, tag-stripped reference, or the feature's id (last path segment).
pub fn matches_ref(target: &str, r: &Resolved) -> (b: bool)
    ensures
        b == means(target@, r.reference@, r.meta.id@),
{
    let t = strip_tag(target);
    if same(t, strip_tag(r.reference.as_str())) {
        return true;
    }
    let last = match text::rindex_of(t, '/') {
        Some(i) => text::skip(t, i + 1),
        None => t,
    };
    same(last, r.meta.id.as_str())
}

// ── order ─────────────────────────────────────────────────────────────────────

/// The first position from `i` on of an override entry that means a feature;
/// behind all entries if none does.
pub open spec fn rank_from(r: Resolved, overrides: Seq<Seq<char>>, i: int) -> int
    decreases overrides.len() - i,
{
    if i >= overrides.len() || means(overrides[i], r.reference@, r.meta.id@) {
        i
    } else {
        rank_from(r, overrides, i + 1)
    }
}

/// The place of a feature in the override order.
pub open spec fn rank_spec(r: Resolved, overrides: Seq<Seq<char>>) -> int {
    rank_from(r, overrides, 0)
}

/// Feature `a` stands before `b` as far as no dependency decides: by the
/// override order, then by reference, then as they came.
pub open spec fn precedes(rs: Seq<Resolved>, overrides: Seq<Seq<char>>, a: int, b: int) -> bool {
    let ra = rank_spec(rs[a], overrides);
    let rb = rank_spec(rs[b], overrides);
    ra < rb || (ra == rb && (text::text_lt(rs[a].reference@, rs[b].reference@) || (
    rs[a].reference@ == rs[b].reference@ && a < b)))
}

/// Feature `i` is to be installed after the other feature `j`.
pub open spec fn depends(rs: Seq<Resolved>, i: int, j: int) -> bool {
    j != i && exists|k: int|
        0 <= k < rs[i].meta.installs_after@.len() && means(
            #[trigger] rs[i].meta.installs_after@[k]@,
            rs[j].reference@,
            rs[j].meta.id@,
        )
}

/// Feature `i` is still to come and all that it is to follow has come.
pub open spec fn ready(rs: Seq<Resolved>, done: Seq<int>, i: int) -> bool {
    !done.contains(i) && forall|j: int|
        0 <= j < rs.len() && #[trigger] depends(rs, i, j) ==> done.contains(j)
}

/// Feature `i` is a candidate: it is ready, or merely still to come.
pub open spec fn candidate(rs: Seq<Resolved>, done: Seq<int>, strict: bool, i: int) -> bool {
    if strict {
        ready(rs, done, i)
    } else {
        !done.contains(i)
    }
}

/// The candidate below `n` that precedes all others.
pub open spec fn least(
    rs: Seq<Resolved>,
    overrides: Seq<Seq<char>>,
    done: Seq<int>,
    strict: bool,
    n: int,
) -> Option<int>
    decreases n,
{
    if n <= 0 {
        None
    } else {
        let rest = least(rs, overrides, done, strict, n - 1);
        if candidate(rs, done, strict, n - 1) && (rest is None || precedes(
            rs,
            overrides,
            n - 1,
            rest->0,
        )) {
            Some(n - 1)
        } else {
            rest
        }
    }
}

/// What comes next: the first that is ready or, where a cycle leaves none ready,
/// the first that is still to come.
pub open spec fn pick(rs: Seq<Resolved>, overrides: Seq<Seq<char>>, done: Seq<int>) -> Option<int> {
    match least(rs, overrides, done, true, rs.len() as int) {
        Some(i) => Some(i),
        None => least(rs, overrides, done, false, rs.len() as int),
    }
}

/// The first `k` features in the order of installation, by their positions.
pub open spec fn picks(rs: Seq<Resolved>, overrides: Seq<Seq<char>>, k: int) -> Seq<int>
    decreases k,
{
    if k <= 0 {
        seq![]
    } else {
        let done = picks(rs, overrides, k - 1);
        match pick(rs, overrides, done) {
            Some(i) => done.push(i),
            None => done,
        }
    }
}

/// The features in the order of installation.
pub open spec fn ordered(rs: Seq<Resolved>, overrides: Seq<Seq<char>>) -> Seq<Resolved> {
    picks(rs, overrides, rs.len() as int).map_values(|i: int| rs[i])
}

fn rank(r: &Resolved, overrides: &Vec<String>) -> (n: usize)
    ensures
        n == rank_spec(*r, overrides.deep_view()),
{
    let ghost all = overrides.deep_view();
    for i in 0..overrides.len()
        invariant
            all == overrides.deep_view(),
            rank_spec(*r, all) == rank_from(*r, all, i as int),
    {
        assert(all[i as int] == overrides@[i as int]@);
        if matches_ref(overrides[i].as_str(), r) {
            return i;
        }
    }
    overrides.len()
}

fn precedes_at(rs: &Vec<Resolved>, ranks: &Vec<usize>, overrides: &Vec<String>, a: usize, b: usize)
    -> (r: bool)
    requires
        a < rs@.len(),
        b < rs@.len(),
        ranks@.len() == rs@.len(),
        forall|i: int|
            0 <= i < rs@.len() ==> #[trigger] ranks@[i] == rank_spec(
                rs@[i],
                overrides.deep_view(),
            ),
    ensures
        r == precedes(rs@, overrides.deep_view(), a as int, b as int),
{
    if ranks[a] != ranks[b] {
        return ranks[a] < ranks[b];
    }
    let x = rs[a].reference.as_str();
    let y = rs[b].reference.as_str();
    text_less(x, y) || (same(x, y) && a < b)
}

fn depends_on(rs: &Vec<Resolved>, i: usize, j: usize) -> (r: bool)
    requires
        i < rs@.len(),
        j < rs@.len(),
    ensures
        r == depends(rs@, i as int, j as int),
{
    if i == j {
        return false;
    }
    let after = &rs[i].meta.installs_after;
    for k in 0..after.len()
        invariant
            i != j,
            i < rs@.len(),
            j < rs@.len(),
            *after == rs@[i as int].meta.installs_after,
            forall|m: int|
                0 <= m < k ==> !means(
                    #[trigger] after@[m]@,
                    rs@[j as int].reference@,
                    rs@[j as int].meta.id@,
                ),
    {
        if matches_ref(after[k].as_str(), &rs[j]) {
            return true;
        }
    }
    false
}

/// Which features are done, by position, for the positions in `done`.
pub open spec fn flagged(flags: Seq<bool>, done: Seq<int>) -> bool {
    forall|i: int| 0 <= i < flags.len() ==> #[trigger] flags[i] == done.contains(i)
}

fn is_ready(rs: &Vec<Resolved>, flags: &Vec<bool>, Ghost(done): Ghost<Seq<int>>, i: usize) -> (r:
    bool)
    requires
        i < rs@.len(),
        flags@.len() == rs@.len(),
        flagged(flags@, done),
    ensures
        r == ready(rs@, done, i as int),
{
    if flags[i] {
        return false;
    }
    for j in 0..rs.len()
        invariant
            i < rs@.len(),
            flags@.len() == rs@.len(),
            flagged(flags@, done),
            forall|m: int| 0 <= m < j && #[trigger] depends(rs@, i as int, m) ==> done.contains(m),
    {
        if !flags[j] && depends_on(rs, i, j) {
            assert(depends(rs@, i as int, j as int) && !done.contains(j as int));
            return false;
        }
    }
    true
}

fn first_candidate(
    rs: &Vec<Resolved>,
    ranks: &Vec<usize>,
    overrides: &Vec<String>,
    flags: &Vec<bool>,
    Ghost(done): Ghost<Seq<int>>,
    strict: bool,
) -> (r: Option<usize>)
    requires
        flags@.len() == rs@.len(),
        flagged(flags@, done),
        ranks@.len() == rs@.len(),
        forall|i: int|
            0 <= i < rs@.len() ==> #[trigger] ranks@[i] == rank_spec(
                rs@[i],
                overrides.deep_view(),
            ),
    ensures
        match r {
            Some(i) => i < rs@.len() && least(
                rs@,
                overrides.deep_view(),
                done,
                strict,
                rs@.len() as int,
            ) == Some(i as int),
            None => least(rs@, overrides.deep_view(), done, strict, rs@.len() as int) is None,
        },
{
    let mut best: Option<usize> = None;
    for i in 0..rs.len()
        invariant
            flags@.len() == rs@.len(),
            flagged(flags@, done),
            ranks@.len() == rs@.len(),
            forall|i: int|
                0 <= i < rs@.len() ==> #[trigger] ranks@[i] == rank_spec(
                    rs@[i],
                    overrides.deep_view(),
                ),
            match best {
                Some(b) => b < i && least(rs@, overrides.deep_view(), done, strict, i as int)
                    == Some(b as int),
                None => least(rs@, overrides.deep_view(), done, strict, i as int) is None,
            },
    {
        let eligible = if strict {
            is_ready(rs, flags, Ghost(done), i)
        } else {
            !flags[i]
        };
        assert(eligible == candidate(rs@, done, strict, i as int));
        if eligible {
            match best {
                None => {
                    best = Some(i);
                },
                Some(b) => {
                    if precedes_at(rs, ranks, overrides, i, b) {
                        best = Some(i);
                    }
                },
            }
        }
    }
    best
}

proof fn lemma_least(
    rs: Seq<Resolved>,
    overrides: Seq<Seq<char>>,
    done: Seq<int>,
    strict: bool,
    n: int,
)
    ensures
        match least(rs, overrides, done, strict, n) {
            Some(i) => 0 <= i < n && candidate(rs, done, strict, i),
            None => forall|i: int| 0 <= i < n ==> !#[trigger] candidate(rs, done, strict, i),
        },
    decreases n,
{
    if n > 0 {
        lemma_least(rs, overrides, done, strict, n - 1);
    }
}

/// Positions below `n`, none twice.
pub open spec fn distinct_below(s: Seq<int>, n: int) -> bool {
    s.no_duplicates() && forall|k: int| 0 <= k < s.len() ==> 0 <= #[trigger] s[k] < n
}

proof fn lemma_some_missing(s: Seq<int>, n: int)
    requires
        distinct_below(s, n),
        s.len() < n,
    ensures
        exists|i: int| 0 <= i < n && !#[trigger] s.contains(i),
    decreases n,
{
    if s.contains(n - 1) {
        let k = choose|k: int| 0 <= k < s.len() && s[k] == n - 1;
        let t = s.remove(k);
        assert forall|m: int| 0 <= m < t.len() implies 0 <= #[trigger] t[m] < n - 1 by {
            if m < k {
                assert(t[m] == s[m]);
            } else {
                assert(t[m] == s[m + 1]);
            }
        }
        assert(t.no_duplicates()) by {
            assert forall|a: int, b: int| 0 <= a < b < t.len() implies t[a] != t[b] by {
                let x = if a < k { a } else { a + 1 };
                let y = if b < k { b } else { b + 1 };
                assert(t[a] == s[x] && t[b] == s[y]);
            }
        }
        lemma_some_missing(t, n - 1);
        let i = choose|i: int| 0 <= i < n - 1 && !#[trigger] t.contains(i);
        assert(!s.contains(i)) by {
            if s.contains(i) {
                let m = choose|m: int| 0 <= m < s.len() && s[m] == i;
                if m < k {
                    assert(t[m] == i);
                } else {
                    assert(t[m - 1] == i);
                }
            }
        }
    } else {
        assert(!s.contains(n - 1));
    }
}

/// The order of installation holds every feature once: nothing is lost, nothing
/// comes twice, and a cycle of dependencies does not stop it.
pub proof fn every_feature_comes_once(rs: Seq<Resolved>, overrides: Seq<Seq<char>>, k: int)
    requires
        0 <= k <= rs.len(),
    ensures
        picks(rs, overrides, k).len() == k,
        distinct_below(picks(rs, overrides, k), rs.len() as int),
    decreases k,
{
    if k > 0 {
        every_feature_comes_once(rs, overrides, k - 1);
        let done = picks(rs, overrides, k - 1);
        let n = rs.len() as int;
        lemma_some_missing(done, n);
        let missing = choose|i: int| 0 <= i < n && !#[trigger] done.contains(i);
        assert(candidate(rs, done, false, missing));
        lemma_least(rs, overrides, done, true, n);
        lemma_least(rs, overrides, done, false, n);
        let i = pick(rs, overrides, done)->0;
        assert(!done.contains(i));
        assert forall|m: int| 0 <= m < done.push(i).len() implies 0 <= #[trigger] done.push(i)[m]
            < n by {
            if m < done.len() {
                assert(done.push(i)[m] == done[m]);
            }
        }
    }
}

proof fn lemma_picks_prefix(rs: Seq<Resolved>, overrides: Seq<Seq<char>>, a: int, b: int)
    requires
        0 <= a <= b <= rs.len(),
    ensures
        picks(rs, overrides, a) == picks(rs, overrides, b).take(a),
    decreases b,
{
    every_feature_comes_once(rs, overrides, b);
    if a < b {
        lemma_picks_prefix(rs, overrides, a, b - 1);
        every_feature_comes_once(rs, overrides, b - 1);
        assert(picks(rs, overrides, b).take(a) =~= picks(rs, overrides, b - 1).take(a));
    } else {
        assert(picks(rs, overrides, b).take(a) =~= picks(rs, overrides, b));
    }
}

/// Orders features so that any `installsAfter` dependency that is *also* in this
/// set comes first. Ties break by the override order, then by reference.
pub fn order(resolved: Vec<Resolved>, override_order: &Vec<String>) -> (r: Vec<Resolved>)
    ensures
        r@ == ordered(resolved@, override_order.deep_view()),
{
    let ghost rs = resolved@;
    let ghost overrides = override_order.deep_view();
    let n: usize = resolved.len();
    let mut ranks: Vec<usize> = Vec::new();
    let mut flags: Vec<bool> = Vec::new();
    for i in 0..n
        invariant
            n == resolved@.len(),
            ranks@.len() == i,
            flags@.len() == i,
            forall|j: int|
                0 <= j < i ==> #[trigger] ranks@[j] == rank_spec(
                    resolved@[j],
                    override_order.deep_view(),
                ),
            forall|j: int| 0 <= j < i ==> !#[trigger] flags@[j],
    {
        ranks.push(rank(&resolved[i], override_order));
        flags.push(false);
    }
    let mut out: Vec<usize> = Vec::new();
    assert(out@.map_values(|i: usize| i as int) =~= picks(rs, overrides, 0));
    for k in 0..n
        invariant
            n == resolved@.len(),
            rs == resolved@,
            overrides == override_order.deep_view(),
            flags@.len() == n,
            ranks@.len() == n,
            forall|j: int|
                0 <= j < n ==> #[trigger] ranks@[j] == rank_spec(
                    resolved@[j],
                    override_order.deep_view(),
                ),
            out@.map_values(|i: usize| i as int) == picks(rs, overrides, k as int),
            flagged(flags@, picks(rs, overrides, k as int)),
    {
        let ghost done = picks(rs, overrides, k as int);
        proof {
            every_feature_comes_once(rs, overrides, k + 1);
            every_feature_comes_once(rs, overrides, k as int);
        }
        let mut next = first_candidate(
            &resolved,
            &ranks,
            override_order,
            &flags,
            Ghost(done),
            true,
        );
        if next.is_none() {
            next =
            first_candidate(&resolved, &ranks, override_order, &flags, Ghost(done), false);
        }
        if let Some(i) = next {
            flags.set(i, true);
            out.push(i);
            proof {
                let after = picks(rs, overrides, k + 1);
                assert(after == done.push(i as int));
                assert(out@.map_values(|i: usize| i as int) =~= after);
                assert forall|j: int| 0 <= j < flags@.len() implies #[trigger] flags@[j]
                    == after.contains(j) by {
                    if j == i {
                        assert(after[k as int] == j);
                    } else if done.contains(j) {
                        let m = choose|m: int| 0 <= m < done.len() && done[m] == j;
                        assert(after[m] == j);
                    } else if after.contains(j) {
                        let m = choose|m: int| 0 <= m < after.len() && after[m] == j;
                        assert(m < done.len());
                        assert(done[m] == j);
                    }
                }
            }
        }
    }
    let ghost all = picks(rs, overrides, n as int);
    proof {
        every_feature_comes_once(rs, overrides, n as int);
    }
    let mut slots: Vec<Option<Resolved>> = Vec::new();
    for r in it: resolved
        invariant
            it.seq() == rs,
            slots@ == rs.take(it.index()).map_values(|r: Resolved| Some(r)),
    {
        slots.push(Some(r));
        assert(slots@ =~= rs.take(it.index() + 1).map_values(|r: Resolved| Some(r)));
    }
    let mut result: Vec<Resolved> = Vec::new();
    for k in 0..out.len()
        invariant
            n == rs.len(),
            all == picks(rs, overrides, n as int),
            out@.map_values(|i: usize| i as int) == all,
            distinct_below(all, n as int),
            slots@.len() == n,
            forall|j: int|
                0 <= j < n && !all.take(k as int).contains(j) ==> #[trigger] slots@[j] == Some(
                    rs[j],
                ),
            result@ == all.take(k as int).map_values(|i: int| rs[i]),
    {
        let i: usize = out[k];
        assert(all[k as int] == i as int);
        assert(!all.take(k as int).contains(i as int));
        let mut taken: Option<Resolved> = None;
        slots.set_and_swap(i, &mut taken);
        if let Some(r) = taken {
            result.push(r);
        }
        proof {
            let later = all.take(k + 1);
            assert forall|j: int| 0 <= j < n && !later.contains(j) implies #[trigger] slots@[j]
                == Some(rs[j]) by {
                assert(later[k as int] == i as int);
                if all.take(k as int).contains(j) {
                    let m = choose|m: int|
                        0 <= m < all.take(k as int).len() && all.take(k as int)[m] == j;
                    assert(later[m] == j);
                }
            }
            assert(result@ =~= later.map_values(|i: int| rs[i]));
        }
    }
    assert(all.take(all.len() as int) =~= all);
    result
}

/// Where dependencies form no cycle (each leads to a feature of lower height),
/// every feature comes behind all that it is to follow.
pub proof fn dependencies_come_first(
    rs: Seq<Resolved>,
    overrides: Seq<Seq<char>>,
    height: spec_fn(int) -> nat,
    a: int,
    b: int,
)
    requires
        forall|i: int, j: int|
            0 <= i < rs.len() && 0 <= j < rs.len() && #[trigger] depends(rs, i, j) ==> height(j)
                < height(i),
        0 <= a < rs.len(),
        0 <= b < rs.len(),
        depends(
            rs,
            picks(rs, overrides, rs.len() as int)[a],
            picks(rs, overrides, rs.len() as int)[b],
        ),
    ensures
        b < a,
{
    let n = rs.len() as int;
    let all = picks(rs, overrides, n);
    every_feature_comes_once(rs, overrides, n);
    every_feature_comes_once(rs, overrides, a);
    every_feature_comes_once(rs, overrides, a + 1);
    lemma_picks_prefix(rs, overrides, a, n);
    lemma_picks_prefix(rs, overrides, a + 1, n);
    let done = picks(rs, overrides, a);
    assert(picks(rs, overrides, a + 1)[a] == all[a]);
    lemma_some_missing(done, n);
    lemma_some_ready(rs, done, height);
    lemma_least(rs, overrides, done, true, n);
    assert(least(rs, overrides, done, true, n) is Some);
    assert(pick(rs, overrides, done) == Some(all[a]));
    assert(ready(rs, done, all[a]));
    assert(done.contains(all[b]));
    let m = choose|m: int| 0 <= m < done.len() && done[m] == all[b];
    assert(all[m] == all[b]);
    assert(m == b);
}

/// Without a cycle, something is ready as long as something is missing.
proof fn lemma_some_ready(rs: Seq<Resolved>, done: Seq<int>, height: spec_fn(int) -> nat)
    requires
        forall|i: int, j: int|
            0 <= i < rs.len() && 0 <= j < rs.len() && #[trigger] depends(rs, i, j) ==> height(j)
                < height(i),
        exists|i: int| 0 <= i < rs.len() && !#[trigger] done.contains(i),
    ensures
        exists|i: int| 0 <= i < rs.len() && #[trigger] candidate(rs, done, true, i),
{
    let i = choose|i: int| 0 <= i < rs.len() && !#[trigger] done.contains(i);
    lemma_descend(rs, done, height, i);
}

proof fn lemma_descend(rs: Seq<Resolved>, done: Seq<int>, height: spec_fn(int) -> nat, i: int)
    requires
        forall|i: int, j: int|
            0 <= i < rs.len() && 0 <= j < rs.len() && #[trigger] depends(rs, i, j) ==> height(j)
                < height(i),
        0 <= i < rs.len(),
        !done.contains(i),
    ensures
        exists|i: int| 0 <= i < rs.len() && #[trigger] candidate(rs, done, true, i),
    decreases height(i),
{
    if ready(rs, done, i) {
        assert(candidate(rs, done, true, i));
    } else {
        let j = choose|j: int|
            0 <= j < rs.len() && #[trigger] depends(rs, i, j) && !done.contains(j);
        lemma_descend(rs, done, height, j);
    }
}

/// Where no feature depends on another, the order is by override, then by
/// reference, then as they came.
pub proof fn independent_features_keep_the_base_order(
    rs: Seq<Resolved>,
    overrides: Seq<Seq<char>>,
    a: int,
    b: int,
)
    requires
        forall|i: int, j: int|
            0 <= i < rs.len() && 0 <= j < rs.len() ==> !#[trigger] depends(rs, i, j),
        0 <= a < b < rs.len(),
    ensures
        precedes(
            rs,
            overrides,
            picks(rs, overrides, rs.len() as int)[a],
            picks(rs, overrides, rs.len() as int)[b],
        ),
{
    let n = rs.len() as int;
    let all = picks(rs, overrides, n);
    every_feature_comes_once(rs, overrides, n);
    every_feature_comes_once(rs, overrides, a);
    every_feature_comes_once(rs, overrides, a + 1);
    lemma_picks_prefix(rs, overrides, a, n);
    lemma_picks_prefix(rs, overrides, a + 1, n);
    let done = picks(rs, overrides, a);
    assert(picks(rs, overrides, a + 1)[a] == all[a]);
    assert(!done.contains(all[b])) by {
        if done.contains(all[b]) {
            let m = choose|m: int| 0 <= m < done.len() && done[m] == all[b];
            assert(all[m] == all[b]);
        }
    }
    assert(candidate(rs, done, true, all[b]));
    lemma_least(rs, overrides, done, true, n);
    assert(least(rs, overrides, done, true, n) is Some);
    assert(pick(rs, overrides, done) == Some(all[a]));
    lemma_least_first(rs, overrides, done, true, n, all[b]);
    assert(all[a] != all[b]);
}

/// The chosen candidate precedes every other.
proof fn lemma_least_first(
    rs: Seq<Resolved>,
    overrides: Seq<Seq<char>>,
    done: Seq<int>,
    strict: bool,
    n: int,
    c: int,
)
    requires
        0 <= c < n <= rs.len(),
        candidate(rs, done, strict, c),
    ensures
        least(rs, overrides, done, strict, n) is Some,
        least(rs, overrides, done, strict, n)->0 == c || precedes(
            rs,
            overrides,
            least(rs, overrides, done, strict, n)->0,
            c,
        ),
    decreases n,
{
    let rest = least(rs, overrides, done, strict, n - 1);
    lemma_least(rs, overrides, done, strict, n - 1);
    if c < n - 1 {
        lemma_least_first(rs, overrides, done, strict, n - 1, c);
        if rest->0 != c && precedes(rs, overrides, n - 1, rest->0) {
            lemma_precedes_trans(rs, overrides, n - 1, rest->0, c);
        }
    } else if rest is Some {
        lemma_precedes_total(rs, overrides, n - 1, rest->0);
    }
}

proof fn lemma_precedes_trans(
    rs: Seq<Resolved>,
    overrides: Seq<Seq<char>>,
    a: int,
    b: int,
    c: int,
)
    requires
        precedes(rs, overrides, a, b),
        precedes(rs, overrides, b, c),
    ensures
        precedes(rs, overrides, a, c),
{
    let x = rs[a].reference@;
    let y = rs[b].reference@;
    let z = rs[c].reference@;
    if text::text_lt(x, y) && text::text_lt(y, z) {
        text::lemma_text_trans(x, y, z);
    }
}

proof fn lemma_precedes_total(rs: Seq<Resolved>, overrides: Seq<Seq<char>>, a: int, b: int)
    requires
        a != b,
    ensures
        precedes(rs, overrides, a, b) || precedes(rs, overrides, b, a),
{
    text::lemma_text_total(rs[a].reference@, rs[b].reference@);
}

// ── options and variables ─────────────────────────────────────────────────────

/// The variable that carries an option: its id in upper case, with anything but
/// ASCII letters and digits as an underscore.
pub open spec fn env_name_spec(id: Seq<char>) -> Seq<char> {
    Seq::new(
        id.len(),
        |i: int|
            if text::is_alnum(id[i]) {
                text::upper(id[i])
            } else {
                '_'
            },
    )
}

/// The variable that carries an option.
pub fn env_name(id: &str) -> (r: String)
    ensures
        r@ == env_name_spec(id@),
{
    let v = chars(id);
    let mut out = String::new();
    for i in 0..v.len()
        invariant
            v@ == id@,
            out@ == env_name_spec(id@).take(i as int),
    {
        if text::alnum(v[i]) {
            out.push(text::upper_case(v[i]));
        } else {
            out.push('_');
        }
        assert(out@ =~= env_name_spec(id@).take(i + 1));
    }
    assert(out@ =~= env_name_spec(id@));
    out
}

/// The value of an option as a script reads it: a string without its quotes,
/// nothing for null, anything else in its notation.
pub open spec fn stringify_spec(v: Json) -> Seq<char> {
    match v.kind {
        JsonKind::Text(s) => s@,
        JsonKind::Bool(b) => if b {
            "true"@
        } else {
            "false"@
        },
        JsonKind::Null => seq![],
        _ => v.text@,
    }
}

/// The value of an option as a script reads it.
pub fn stringify(v: &Json) -> (r: String)
    ensures
        r@ == stringify_spec(*v),
{
    match &v.kind {
        JsonKind::Text(s) => s.clone(),
        JsonKind::Bool(b) => if *b {
            "true".to_string()
        } else {
            "false".to_string()
        },
        JsonKind::Null => String::new(),
        _ => v.text.clone(),
    }
}

/// Each declared option with the user's value or its default.
pub open spec fn option_variables(declared: Seq<(String, OptionSpec)>, given: Seq<(String, Json)>) -> Seq<
    (Seq<char>, Seq<char>),
>
    decreases declared.len(),
{
    if declared.len() == 0 {
        seq![]
    } else {
        let (id, option) = declared.last();
        option_variables(declared.drop_last(), given).push(
            (
                env_name_spec(id@),
                stringify_spec(
                    match json::lookup(given, id@) {
                        Some(v) => v,
                        None => option.default,
                    },
                ),
            ),
        )
    }
}

/// What install scripts read about the user: they run as root.
pub open spec fn user_env() -> Seq<(Seq<char>, Seq<char>)> {
    seq![
        ("_REMOTE_USER"@, "root"@),
        ("_REMOTE_USER_HOME"@, "/root"@),
        ("_CONTAINER_USER"@, "root"@),
        ("_CONTAINER_USER_HOME"@, "/root"@),
    ]
}

/// The variables of a feature's install script.
pub open spec fn build_env_spec(r: Resolved) -> Seq<(Seq<char>, Seq<char>)> {
    option_variables(r.meta.options@, r.options@) + user_env()
}

fn push_pair(env: &mut Vec<(String, String)>, k: &str, v: &str)
    ensures
        final(env).deep_view() == old(env).deep_view().push((k@, v@)),
{
    env.push((k.to_string(), v.to_string()));
    assert(env.deep_view() =~= old(env).deep_view().push((k@, v@)));
}

/// Builds the variables for install.sh: each declared option as an upper-cased
/// variable (user value or its default), plus the _REMOTE_USER and
/// _CONTAINER_USER variables that scripts commonly read.
pub fn build_env(r: &Resolved) -> (env: Vec<(String, String)>)
    ensures
        env.deep_view() == build_env_spec(*r),
{
    let mut env: Vec<(String, String)> = Vec::new();
    let ghost declared = r.meta.options@;
    assert(env.deep_view() =~= option_variables(declared.take(0), r.options@));
    for i in 0..r.meta.options.len()
        invariant
            declared == r.meta.options@,
            env.deep_view() == option_variables(declared.take(i as int), r.options@),
    {
        assert(declared.take(i + 1).drop_last() =~= declared.take(i as int));
        let id = r.meta.options[i].0.as_str();
        let value = match json::find(&r.options, id) {
            Some(v) => v,
            None => &r.meta.options[i].1.default,
        };
        push_pair(&mut env, env_name(id).as_str(), stringify(value).as_str());
    }
    assert(declared.take(declared.len() as int) =~= declared);
    push_pair(&mut env, "_REMOTE_USER", "root");
    push_pair(&mut env, "_REMOTE_USER_HOME", "/root");
    push_pair(&mut env, "_CONTAINER_USER", "root");
    push_pair(&mut env, "_CONTAINER_USER_HOME", "/root");
    assert(env.deep_view() =~= build_env_spec(*r));
    env
}

/// The value is among those that an option allows.
pub open spec fn allowed(values: Seq<Json>, v: Json) -> bool {
    exists|k: int| 0 <= k < values.len() && json::value_eq(#[trigger] values[k], v)
}

/// The value that a user gave for an option is none of its declared ones.
pub open spec fn undeclared(declared: Seq<(String, OptionSpec)>, id: Seq<char>, v: Json) -> bool {
    match json::lookup(declared, id) {
        Some(option) => match option.enum_values {
            Some(values) => !allowed(values@, v),
            None => false,
        },
        None => false,
    }
}

/// The warnings about values that are none of the declared ones.
pub open spec fn option_warnings(
    reference: Seq<char>,
    declared: Seq<(String, OptionSpec)>,
    given: Seq<(String, Json)>,
) -> Seq<Seq<char>>
    decreases given.len(),
{
    if given.len() == 0 {
        seq![]
    } else {
        let rest = option_warnings(reference, declared, given.drop_last());
        let (id, v) = given.last();
        if undeclared(declared, id@, v) {
            rest.push(
                "[graft] warning: feature "@ + reference + " option "@ + id@ + "="@ + v.text@
                    + " is not one of its declared values"@,
            )
        } else {
            rest
        }
    }
}

fn is_allowed(values: &Vec<Json>, v: &Json) -> (r: bool)
    ensures
        r == allowed(values@, *v),
{
    for k in 0..values.len()
        invariant
            forall|m: int| 0 <= m < k ==> !json::value_eq(#[trigger] values@[m], *v),
    {
        if json::same_value(&values[k], v) {
            return true;
        }
    }
    false
}

/// Warns (but does not fail) when a given option value is not one of the
/// feature's declared enum values.
pub fn validate_options(r: &Resolved) -> (warnings: Vec<String>)
    ensures
        warnings.deep_view() == option_warnings(r.reference@, r.meta.options@, r.options@),
{
    let mut out: Vec<String> = Vec::new();
    let ghost given = r.options@;
    assert(out.deep_view() =~= option_warnings(r.reference@, r.meta.options@, given.take(0)));
    for i in 0..r.options.len()
        invariant
            given == r.options@,
            out.deep_view() == option_warnings(
                r.reference@,
                r.meta.options@,
                given.take(i as int),
            ),
    {
        assert(given.take(i + 1).drop_last() =~= given.take(i as int));
        let id = r.options[i].0.as_str();
        let value = &r.options[i].1;
        if let Some(option) = json::find(&r.meta.options, id) {
            if let Some(values) = &option.enum_values {
                if !is_allowed(values, value) {
                    let mut line = cat5(
                        "[graft] warning: feature ",
                        r.reference.as_str(),
                        " option ",
                        id,
                        "=",
                    );
                    line.append(value.text.as_str());
                    line.append(" is not one of its declared values");
                    push(&mut out, line.as_str());
                }
            }
        }
    }
    assert(given.take(given.len() as int) =~= given);
    out
}

/// The warning about an entry point, where a feature declares one.
pub open spec fn entrypoint_warning(r: Resolved) -> Option<Seq<char>> {
    if r.meta.entrypoint is Some {
        Some(
            "[graft] warning: feature "@ + r.reference@
                + " declares an entrypoint, which graft can't apply (the container runs `sleep infinity`); ignoring it"@,
        )
    } else {
        None
    }
}

/// Warns about what a feature declares and cannot have.
pub fn warn_unsupported(r: &Resolved) -> (warning: Option<String>)
    ensures
        warning.deep_view() == entrypoint_warning(*r),
{
    if r.meta.entrypoint.is_some() {
        Some(
            cat3(
                "[graft] warning: feature ",
                r.reference.as_str(),
                " declares an entrypoint, which graft can't apply (the container runs `sleep infinity`); ignoring it",
            ),
        )
    } else {
        None
    }
}

// ── the plan ──────────────────────────────────────────────────────────────────

/// A fetched, ordered set of features ready to install. Made before the
/// container is brought up, so that what they ask of it is known by then.
#[derive(Debug, PartialEq, Eq)]
pub struct Plan {
    pub resolved: Vec<Resolved>,
    /// The local directory that holds what was fetched, to be removed at the end.
    pub work: Option<String>,
}

/// What a [`Plan`] says.
#[verifier::ext_equal]
pub struct PlanView {
    pub resolved: Seq<Resolved>,
    pub work: Option<Seq<char>>,
}

impl DeepView for Plan {
    type V = PlanView;

    open spec fn deep_view(&self) -> PlanView {
        PlanView { resolved: self.resolved@, work: self.work.deep_view() }
    }
}

impl PlanView {
    /// A plan without features.
    pub open spec fn empty() -> Self {
        PlanView { resolved: seq![], work: None }
    }
}

/// The mounts that JSON values describe; those that describe none are left out.
pub open spec fn mounts_of(values: Seq<Json>) -> Seq<FeatureMountView>
    decreases values.len(),
{
    if values.len() == 0 {
        seq![]
    } else {
        let rest = mounts_of(values.drop_last());
        match parse_mount_spec(values.last()) {
            Some(m) => rest.push(m),
            None => rest,
        }
    }
}

/// The container-creation settings that features require together.
pub open spec fn flags_of(rs: Seq<Resolved>) -> CreateFlagsView
    decreases rs.len(),
{
    if rs.len() == 0 {
        CreateFlagsView::none()
    } else {
        let rest = flags_of(rs.drop_last());
        let m = rs.last().meta;
        CreateFlagsView {
            mounts: rest.mounts + mounts_of(m.mounts@),
            privileged: rest.privileged || m.privileged,
            cap_add: rest.cap_add + m.cap_add.deep_view(),
            security_opt: rest.security_opt + m.security_opt.deep_view(),
            init: rest.init || m.init,
        }
    }
}

/// `export` lines for variables. The values may refer to other variables, so
/// they are left unquoted for the shell to expand.
pub open spec fn exports(env: Seq<table::Entry>) -> Seq<char>
    decreases env.len(),
{
    if env.len() == 0 {
        seq![]
    } else {
        exports(env.drop_last()) + "export "@ + env.last().0 + "="@ + env.last().1 + "\n"@
    }
}

/// The script that sets the variables of features.
pub open spec fn profile_text(env: Seq<table::Entry>) -> Seq<char> {
    "# generated by graft from devcontainer feature containerEnv\n"@ + exports(env)
}

/// The variables of the features whose installation succeeded; those of a later
/// feature win.
pub open spec fn merged_env(rs: Seq<Resolved>, installed: Seq<bool>) -> Seq<table::Entry>
    decreases rs.len(),
{
    if rs.len() == 0 {
        seq![]
    } else {
        let rest = merged_env(rs.drop_last(), installed);
        let i = rs.len() - 1;
        if i < installed.len() && installed[i] {
            table::insert_all_spec(rest, rs.last().meta.container_env.deep_view())
        } else {
            rest
        }
    }
}

/// The temporary file that a profile is written to first.
pub open spec fn profile_temp(rt: Runtime) -> Seq<char> {
    path::join_spec(rt.temp_dir@, "graft-profile-"@ + num::dec(rt.pid as nat))
}

/// How the variables of features are made known to login shells.
pub open spec fn write_profile_spec(
    rt: Runtime,
    container: Seq<char>,
    env: Seq<table::Entry>,
) -> Seq<script::StepView> {
    seq![
        script::StepView::WriteTemp {
            temp: profile_temp(rt),
            contents: profile_text(env),
            context: ""@,
        },
        script::StepView::CopyIn { source: profile_temp(rt), container, dest: PROFILE_PATH@ },
    ]
}

/// Where a feature is unpacked in the container.
pub open spec fn feature_dir(id: Seq<char>) -> Seq<char> {
    FEATURES_DIR@ + "/"@ + id
}

/// How one feature is installed: it is copied afresh, and its script is run as
/// root.
pub open spec fn install_one_spec(docker: Docker, container: Seq<char>, r: Resolved) -> Seq<
    script::StepView,
> {
    let dest = feature_dir(r.meta.id@);
    seq![
        script::StepView::Run(docker.exec_spec(container, seq!["rm"@, "-rf"@, dest], true)),
        script::StepView::CopyIn { source: r.dir@, container, dest },
        script::StepView::Say("[graft] installing feature "@ + r.reference@),
        script::StepView::Run(
            docker.exec_in_spec(
                container,
                Some(dest),
                build_env_spec(r),
                seq!["sh"@, "-c"@, "chmod +x ./install.sh && ./install.sh"@],
                true,
            ),
        ),
    ]
}

/// The installation of one feature.
#[derive(Debug, PartialEq, Eq)]
pub struct Stage {
    pub warnings: Vec<String>,
    pub steps: Vec<Step>,
    pub reference: String,
    /// Records that the feature is installed.
    pub mark: Job,
}

/// What a [`Stage`] says.
pub struct StageView {
    pub warnings: Seq<Seq<char>>,
    pub steps: Seq<script::StepView>,
    pub reference: Seq<char>,
    pub mark: invocation::JobView,
}

impl DeepView for Stage {
    type V = StageView;

    open spec fn deep_view(&self) -> StageView {
        StageView {
            warnings: self.warnings.deep_view(),
            steps: self.steps.deep_view(),
            reference: self.reference@,
            mark: self.mark.deep_view(),
        }
    }
}

/// What follows the steps of a stage.
#[derive(Debug, PartialEq, Eq)]
pub enum Settled {
    /// The feature is installed, which is to be recorded.
    Mark(Job),
    /// It is not, which is told; the next feature is installed all the same.
    Warn(String),
}

/// What a [`Settled`] says.
pub enum SettledView {
    Mark(invocation::JobView),
    Warn(Seq<char>),
}

impl DeepView for Settled {
    type V = SettledView;

    open spec fn deep_view(&self) -> SettledView {
        match self {
            Settled::Mark(job) => SettledView::Mark(job.deep_view()),
            Settled::Warn(line) => SettledView::Warn(line@),
        }
    }
}

impl StageView {
    /// What follows when the steps have succeeded, or failed as told.
    pub open spec fn settled(self, outcome: Result<(), Seq<char>>) -> SettledView {
        match outcome {
            Ok(()) => SettledView::Mark(self.mark),
            Err(e) => SettledView::Warn(
                "[graft] feature "@ + self.reference + " install failed (continuing): "@ + e,
            ),
        }
    }
}

/// What the outcome of some steps says.
pub open spec fn outcome_view(r: Result<(), String>) -> Result<(), Seq<char>> {
    match r {
        Ok(()) => Ok(()),
        Err(e) => Err(e@),
    }
}

impl Stage {
    /// What follows when the steps have succeeded, or failed as told.
    pub fn settle(self, outcome: Result<(), String>) -> (r: Settled)
        ensures
            r.deep_view() == self.deep_view().settled(outcome_view(outcome)),
    {
        match outcome {
            Ok(()) => Settled::Mark(self.mark),
            Err(e) => Settled::Warn(
                cat4(
                    "[graft] feature ",
                    self.reference.as_str(),
                    " install failed (continuing): ",
                    e.as_str(),
                ),
            ),
        }
    }
}

/// The installation of one feature.
pub open spec fn stage_spec(docker: Docker, container: Seq<char>, r: Resolved) -> StageView {
    StageView {
        warnings: (match entrypoint_warning(r) {
            Some(w) => seq![w],
            None => seq![],
        }) + option_warnings(r.reference@, r.meta.options@, r.options@),
        steps: install_one_spec(docker, container, r),
        reference: r.reference@,
        mark: docker.mark_spec(container, marker_key_spec(r.reference@)),
    }
}

/// How the features of a plan are installed: `prepare` first, and where it
/// fails, nothing else; then the stages, each whatever became of the others.
#[derive(Debug, PartialEq, Eq)]
pub struct Installation {
    pub prepare: Job,
    pub stages: Vec<Stage>,
}

fn install_one(docker: &Docker, container: &str, r: &Resolved) -> (steps: Vec<Step>)
    ensures
        steps.deep_view() == install_one_spec(*docker, container@, *r),
{
    let dest = cat3(FEATURES_DIR, "/", r.meta.id.as_str());
    let mut steps: Vec<Step> = Vec::new();
    then_step(
        &mut steps,
        Step::Run(docker.exec_with(container, args3("rm", "-rf", dest.as_str()), true)),
    );
    then_step(
        &mut steps,
        Step::CopyIn {
            source: r.dir.clone(),
            container: container.to_string(),
            dest: dest.clone(),
        },
    );
    then_step(
        &mut steps,
        Step::Say(cat("[graft] installing feature ", r.reference.as_str())),
    );
    let env = build_env(r);
    let pairs = env.as_slice();
    assert(pairs.deep_view() =~= env.deep_view());
    let job = docker.exec_in_with(
        container,
        Some(dest.as_str()),
        pairs,
        args3("sh", "-c", "chmod +x ./install.sh && ./install.sh"),
        true,
    );
    then_step(&mut steps, Step::Run(job));
    assert(steps.deep_view() =~= install_one_spec(*docker, container@, *r));
    steps
}

fn stage(docker: &Docker, container: &str, r: &Resolved) -> (s: Stage)
    ensures
        s.deep_view() == stage_spec(*docker, container@, *r),
{
    let mut warnings: Vec<String> = Vec::new();
    if let Some(w) = warn_unsupported(r) {
        push(&mut warnings, w.as_str());
    }
    let more = validate_options(r);
    push_list(&mut warnings, &more);
    assert(warnings.deep_view() =~= stage_spec(*docker, container@, *r).warnings);
    let key = marker_key(r.reference.as_str());
    Stage {
        warnings,
        steps: install_one(docker, container, r),
        reference: r.reference.clone(),
        mark: docker.mark_task_done(container, key.as_str()),
    }
}

fn write_profile(rt: &Runtime, container: &str, env: &Vec<(String, String)>) -> (steps: Vec<Step>)
    ensures
        steps.deep_view() == write_profile_spec(*rt, container@, env.deep_view()),
{
    let mut contents = "# generated by graft from devcontainer feature containerEnv\n".to_string();
    let ghost head = contents@;
    let ghost all = env.deep_view();
    assert(contents@ =~= head + exports(all.take(0)));
    for i in 0..env.len()
        invariant
            all == env.deep_view(),
            contents@ == head + exports(all.take(i as int)),
    {
        assert(all.take(i + 1).drop_last() =~= all.take(i as int));
        contents.append("export ");
        contents.append(env[i].0.as_str());
        contents.append("=");
        contents.append(env[i].1.as_str());
        contents.append("\n");
        assert(contents@ =~= head + exports(all.take(i + 1)));
    }
    assert(all.take(all.len() as int) =~= all);
    let name = cat("graft-profile-", decimal(rt.pid as u64).as_str());
    let temp = path::join(rt.temp_dir.as_str(), name.as_str());
    let mut steps: Vec<Step> = Vec::new();
    then_step(&mut steps, Step::WriteTemp { temp: temp.clone(), contents, context: "".to_string() });
    then_step(
        &mut steps,
        Step::CopyIn {
            source: temp,
            container: container.to_string(),
            dest: PROFILE_PATH.to_string(),
        },
    );
    assert(steps.deep_view() =~= write_profile_spec(*rt, container@, env.deep_view()));
    steps
}

impl Plan {
    /// A plan without features.
    pub fn empty() -> (r: Self)
        ensures
            r.deep_view() == PlanView::empty(),
    {
        Plan { resolved: Vec::new(), work: None }
    }

    /// The container-creation settings that these features require.
    pub fn create_flags(&self) -> (r: CreateFlags)
        ensures
            r.deep_view() == flags_of(self.resolved@),
    {
        let mut f = CreateFlags::default();
        let ghost rs = self.resolved@;
        for i in 0..self.resolved.len()
            invariant
                rs == self.resolved@,
                f.deep_view() == flags_of(rs.take(i as int)),
        {
            assert(rs.take(i + 1).drop_last() =~= rs.take(i as int));
            let ghost before = f.deep_view();
            let m = &self.resolved[i].meta;
            f.privileged = f.privileged || m.privileged;
            f.init = f.init || m.init;
            push_list(&mut f.cap_add, &m.cap_add);
            push_list(&mut f.security_opt, &m.security_opt);
            let ghost values = m.mounts@;
            assert(before.mounts + mounts_of(values.take(0)) =~= before.mounts);
            for j in 0..m.mounts.len()
                invariant
                    values == m.mounts@,
                    f.mounts.deep_view() == before.mounts + mounts_of(values.take(j as int)),
                    f.privileged == (before.privileged || m.privileged),
                    f.init == (before.init || m.init),
                    f.cap_add.deep_view() == before.cap_add + m.cap_add.deep_view(),
                    f.security_opt.deep_view() == before.security_opt + m.security_opt.deep_view(),
            {
                assert(values.take(j + 1).drop_last() =~= values.take(j as int));
                let ghost mounts = f.mounts.deep_view();
                if let Some(mount) = parse_mount(&m.mounts[j]) {
                    f.mounts.push(mount);
                    assert(f.mounts.deep_view() =~= mounts.push(mount.deep_view()));
                }
                assert(f.mounts.deep_view() =~= before.mounts + mounts_of(values.take(j + 1)));
            }
            assert(values.take(values.len() as int) =~= values);
        }
        assert(rs.take(rs.len() as int) =~= rs);
        f
    }

    /// Runs each feature's `install.sh` (as root, options as variables) and
    /// records its success. There is nothing to do where there are no features.
    pub fn install(&self, docker: &Docker, container: &str) -> (r: Option<Installation>)
        ensures
            r is None <==> self.resolved@.len() == 0,
            r matches Some(i) ==> {
                &&& i.prepare.deep_view() == docker.exec_spec(
                    container@,
                    seq!["mkdir"@, "-p"@, FEATURES_DIR@],
                    true,
                )
                &&& i.stages.deep_view() == self.resolved@.map_values(
                    |r: Resolved| stage_spec(*docker, container@, r),
                )
            },
    {
        if self.resolved.len() == 0 {
            return None;
        }
        let prepare = docker.exec_with(container, args3("mkdir", "-p", FEATURES_DIR), true);
        let mut stages: Vec<Stage> = Vec::new();
        let ghost all = self.resolved@.map_values(|r: Resolved| stage_spec(*docker, container@, r));
        for i in 0..self.resolved.len()
            invariant
                all == self.resolved@.map_values(
                    |r: Resolved| stage_spec(*docker, container@, r),
                ),
                stages.deep_view() == all.take(i as int),
        {
            let ghost before = stages.deep_view();
            let s = stage(docker, container, &self.resolved[i]);
            stages.push(s);
            assert(stages.deep_view() =~= before.push(s.deep_view()));
            assert(stages.deep_view() =~= all.take(i + 1));
        }
        assert(stages.deep_view() =~= all);
        Some(Installation { prepare, stages })
    }

    /// Persists the merged variables of the features that were installed, by
    /// position, for login shells; nothing where there are none.
    pub fn profile(&self, rt: &Runtime, container: &str, installed: &Vec<bool>) -> (r: Option<
        Vec<Step>,
    >)
        ensures
            r.deep_view() == (if merged_env(self.resolved@, installed@).len() == 0 {
                None
            } else {
                Some(
                    write_profile_spec(
                        *rt,
                        container@,
                        merged_env(self.resolved@, installed@),
                    ),
                )
            }),
    {
        let mut env: Vec<(String, String)> = Vec::new();
        let ghost rs = self.resolved@;
        assert(env.deep_view() =~= merged_env(rs.take(0), installed@));
        for i in 0..self.resolved.len()
            invariant
                rs == self.resolved@,
                env.deep_view() == merged_env(rs.take(i as int), installed@),
        {
            assert(rs.take(i + 1).drop_last() =~= rs.take(i as int));
            if i < installed.len() && installed[i] {
                table::insert_all(&mut env, &self.resolved[i].meta.container_env);
            }
        }
        assert(rs.take(rs.len() as int) =~= rs);
        assert(env.deep_view().len() == env@.len());
        if env.len() == 0 {
            None
        } else {
            Some(write_profile(rt, container, &env))
        }
    }
}

// ── fetching ──────────────────────────────────────────────────────────────────

/// How a feature's artifact is pulled.
#[derive(Debug, PartialEq, Eq)]
pub struct Pull {
    pub reference: String,
    /// The fresh directory that the artifact is pulled into.
    pub work: String,
    pub job: Job,
    /// Where the artifact is unpacked.
    pub content: String,
}

/// Where a feature is fetched from.
#[derive(Debug, PartialEq, Eq)]
pub enum Source {
    /// A directory on disk.
    Local(String),
    /// An OCI artifact.
    Artifact(Pull),
}

/// A feature to fetch.
#[derive(Debug, PartialEq, Eq)]
pub struct FetchTask {
    pub note: String,
    pub source: Source,
}

/// What a [`Source`] says.
pub enum SourceView {
    Local(Seq<char>),
    Artifact {
        reference: Seq<char>,
        work: Seq<char>,
        job: invocation::JobView,
        content: Seq<char>,
    },
}

/// What a [`FetchTask`] says.
pub struct FetchTaskView {
    pub note: Seq<char>,
    pub source: SourceView,
}

impl DeepView for Source {
    type V = SourceView;

    open spec fn deep_view(&self) -> SourceView {
        match self {
            Source::Local(dir) => SourceView::Local(dir@),
            Source::Artifact(p) => SourceView::Artifact {
                reference: p.reference@,
                work: p.work@,
                job: p.job.deep_view(),
                content: p.content@,
            },
        }
    }
}

impl DeepView for FetchTask {
    type V = FetchTaskView;

    open spec fn deep_view(&self) -> FetchTaskView {
        FetchTaskView { note: self.note@, source: self.source.deep_view() }
    }
}

/// What fetching some features takes.
#[derive(Debug, PartialEq, Eq)]
pub struct Fetching {
    pub features: Vec<FeatureRequest>,
    /// A program that has to be there, and what to tell if it is not; nothing is
    /// fetched then.
    pub probe: Option<(Invocation, String)>,
    /// The directory that artifacts are fetched into, removed before and after.
    pub work: String,
    pub tasks: Vec<FetchTask>,
}

/// What a [`Fetching`] says.
#[verifier::ext_equal]
pub struct FetchingView {
    pub features: Seq<FeatureRequest>,
    pub probe: Option<(invocation::InvocationView, Seq<char>)>,
    pub work: Seq<char>,
    pub tasks: Seq<FetchTaskView>,
}

impl DeepView for Fetching {
    type V = FetchingView;

    open spec fn deep_view(&self) -> FetchingView {
        FetchingView {
            features: self.features@,
            probe: self.probe.deep_view(),
            work: self.work@,
            tasks: self.tasks.deep_view(),
        }
    }
}

/// The directory that artifacts are fetched into.
pub open spec fn work_dir(rt: Runtime) -> Seq<char> {
    path::join_spec(rt.temp_dir@, "graft-features-"@ + num::dec(rt.pid as nat))
}

/// How a feature's artifact is pulled into a directory.
pub open spec fn pull_spec(reference: Seq<char>, work: Seq<char>) -> SourceView {
    SourceView::Artifact {
        reference,
        work,
        job: invocation::JobView {
            command: invocation::InvocationView::plain("oras"@, seq!["pull"@, reference]).within(
                Some(work),
            ),
            context: "running oras pull"@,
            failure: invocation::FailureView::Message(
                "oras pull failed for feature "@ + reference,
            ),
        },
        content: path::join_spec(work, "content"@),
    }
}

/// How the feature at a position is fetched: from disk, relative to the
/// directory of the configuration, or as an artifact into a directory of its own.
pub open spec fn fetch_spec(base_dir: Seq<char>, work: Seq<char>, i: int, reference: Seq<char>)
    -> FetchTaskView {
    FetchTaskView {
        note: "[graft] fetching feature "@ + reference,
        source: if is_local(reference) {
            SourceView::Local(path::join_spec(base_dir, reference))
        } else {
            pull_spec(reference, path::join_spec(work, num::dec(i as nat)))
        },
    }
}

/// Some feature is an OCI artifact.
pub open spec fn some_artifact(features: Seq<FeatureRequest>) -> bool {
    exists|i: int| 0 <= i < features.len() && !is_local(#[trigger] features[i].reference@)
}

/// What is told when artifacts cannot be pulled.
pub open spec fn no_oras(n: nat) -> Seq<char> {
    "[graft] warning: devcontainer features need `oras` (https://oras.land); skipping "@ + num::dec(
        n,
    ) + " feature(s)"@
}

fn pull(reference: &str, work: String) -> (r: Source)
    ensures
        r.deep_view() == pull_spec(reference@, work@),
{
    let mut command = Invocation::new("oras", args2("pull", reference));
    command.dir = Some(work.clone());
    let content = path::join(work.as_str(), "content");
    Source::Artifact(
        Pull {
            reference: reference.to_string(),
            work,
            job: Job {
                command,
                context: "running oras pull".to_string(),
                failure: Failure::Message(cat("oras pull failed for feature ", reference)),
            },
            content,
        },
    )
}

/// The files that a pull left, in the order in which they were found, with
/// whether each is a regular file: the artifact is the first regular one.
pub open spec fn artifact_spec(entries: Seq<(Seq<char>, bool)>) -> Option<Seq<char>>
    decreases entries.len(),
{
    if entries.len() == 0 {
        None
    } else if entries[0].1 {
        Some(entries[0].0)
    } else {
        artifact_spec(entries.skip(1))
    }
}

impl Pull {
    /// How what the pull left is unpacked: the first regular file among the
    /// entries of the directory, or a failure where there is none.
    pub fn extract(&self, entries: &Vec<(String, bool)>) -> (r: Result<Job, Failure>)
        ensures
            invocation::result_view(r) == match artifact_spec(entries.deep_view()) {
                Some(layer) => Ok::<invocation::JobView, invocation::FailureView>(
                    invocation::JobView {
                        command: invocation::InvocationView::plain(
                            "tar"@,
                            seq!["xf"@, layer, "-C"@, self.content@],
                        ),
                        context: "extracting feature tarball"@,
                        failure: invocation::FailureView::Message(
                            "failed to extract feature "@ + self.reference@,
                        ),
                    },
                ),
                None => Err(
                    invocation::FailureView::Message(
                        "oras pull produced no artifact for "@ + self.reference@,
                    ),
                ),
            },
    {
        let ghost all = entries.deep_view();
        assert(all.skip(0) =~= all);
        for i in 0..entries.len()
            invariant
                all == entries.deep_view(),
                artifact_spec(all) == artifact_spec(all.skip(i as int)),
        {
            assert(all.skip(i as int)[0] == entries@[i as int].deep_view());
            assert(all.skip(i as int).skip(1) =~= all.skip(i + 1));
            if entries[i].1 {
                let layer = entries[i].0.as_str();
                return Ok(
                    Job {
                        command: Invocation::new(
                            "tar",
                            invocation::args4("xf", layer, "-C", self.content.as_str()),
                        ),
                        context: "extracting feature tarball".to_string(),
                        failure: Failure::Message(
                            cat("failed to extract feature ", self.reference.as_str()),
                        ),
                    },
                );
            }
        }
        Err(
            Failure::Message(
                cat("oras pull produced no artifact for ", self.reference.as_str()),
            ),
        )
    }
}

/// How features are fetched.
pub open spec fn fetch_tasks(base_dir: Seq<char>, work: Seq<char>, features: Seq<FeatureRequest>)
    -> Seq<FetchTaskView> {
    Seq::new(
        features.len(),
        |i: int| fetch_spec(base_dir, work, i, features[i].reference@),
    )
}

/// How the given features are fetched; without features there is nothing to do.
/// Where one is an OCI artifact, `oras` has to be there.
pub open spec fn resolve_spec(base_dir: Seq<char>, features: Seq<FeatureRequest>, rt: Runtime)
    -> Option<FetchingView> {
    if features.len() == 0 {
        None
    } else {
        Some(
            FetchingView {
                features,
                probe: if some_artifact(features) {
                    Some(
                        (
                            invocation::InvocationView::plain("oras"@, seq!["version"@]),
                            no_oras(features.len()),
                        ),
                    )
                } else {
                    None
                },
                work: work_dir(rt),
                tasks: fetch_tasks(base_dir, work_dir(rt), features),
            },
        )
    }
}

/// How the given features are fetched: OCI artifacts are pulled with `oras`,
/// features given by a path are read from disk. Without features there is
/// nothing to do.
pub fn resolve(base_dir: &str, features: Vec<FeatureRequest>, rt: &Runtime) -> (r: Option<
    Fetching,
>)
    ensures
        r.deep_view() == resolve_spec(base_dir@, features@, *rt),
{
    if features.len() == 0 {
        return None;
    }
    let mut remote = false;
    for i in 0..features.len()
        invariant
            remote == (exists|j: int|
                0 <= j < i && !is_local(#[trigger] features@[j].reference@)),
    {
        if !is_local_ref(features[i].reference.as_str()) {
            remote = true;
        }
    }
    let probe = if remote {
        Some(
            (
                Invocation::new("oras", invocation::args1("version")),
                cat3(
                    "[graft] warning: devcontainer features need `oras` (https://oras.land); skipping ",
                    decimal(features.len() as u64).as_str(),
                    " feature(s)",
                ),
            ),
        )
    } else {
        None
    };
    let name = cat("graft-features-", decimal(rt.pid as u64).as_str());
    let work = path::join(rt.temp_dir.as_str(), name.as_str());
    let mut tasks: Vec<FetchTask> = Vec::new();
    let ghost all = fetch_tasks(base_dir@, work@, features@);
    for i in 0..features.len()
        invariant
            all == fetch_tasks(base_dir@, work@, features@),
            tasks.deep_view() == all.take(i as int),
    {
        let ghost before = tasks.deep_view();
        let reference = features[i].reference.as_str();
        let source = if is_local_ref(reference) {
            Source::Local(path::join(base_dir, reference))
        } else {
            pull(reference, path::join(work.as_str(), decimal(i as u64).as_str()))
        };
        let task = FetchTask { note: cat("[graft] fetching feature ", reference), source };
        tasks.push(task);
        assert(tasks.deep_view() =~= before.push(task.deep_view()));
        assert(tasks.deep_view() =~= all.take(i + 1));
    }
    assert(tasks.deep_view() =~= all);
    let f = Fetching { features, probe, work, tasks };
    assert(f.deep_view() =~= resolve_spec(base_dir@, features@, *rt)->0);
    Some(f)
}

/// The file that describes a feature.
pub fn meta_path(dir: &str) -> (r: String)
    ensures
        r@ == path::join_spec(dir@, "devcontainer-feature.json"@),
{
    path::join(dir, "devcontainer-feature.json")
}

/// What is told of a feature that could not be fetched.
pub fn fetch_failed(reference: &str, error: &str) -> (r: String)
    ensures
        r@ == "[graft] feature "@ + reference@ + " could not be fetched (skipping): "@ + error@,
{
    cat4("[graft] feature ", reference, " could not be fetched (skipping): ", error)
}

/// The requested features with what was fetched of them; what could not be
/// fetched is left out.
pub open spec fn fetched_spec(
    features: Seq<FeatureRequest>,
    outcomes: Seq<Option<(FeatureMeta, String)>>,
) -> Seq<Resolved>
    decreases features.len(),
{
    if features.len() == 0 {
        seq![]
    } else {
        let rest = fetched_spec(features.drop_last(), outcomes);
        let i = features.len() - 1;
        if i < outcomes.len() && outcomes[i] is Some {
            let (meta, dir) = outcomes[i]->0;
            let request = features.last();
            rest.push(
                Resolved { reference: request.reference, options: request.options, meta, dir },
            )
        } else {
            rest
        }
    }
}

impl Fetching {
    /// The plan made of what was fetched: for each feature its metadata and its
    /// directory, or nothing where it could not be fetched.
    pub fn finish(
        self,
        outcomes: Vec<Option<(FeatureMeta, String)>>,
        override_order: &Vec<String>,
    ) -> (r: Plan)
        ensures
            r.resolved@ == ordered(
                fetched_spec(self.features@, outcomes@),
                override_order.deep_view(),
            ),
            r.work == Some(self.work),
    {
        let features = self.features;
        let ghost fs = features@;
        let ghost os = outcomes@;
        let mut results = outcomes;
        let mut resolved: Vec<Resolved> = Vec::new();
        assert(features.len() == fs.len());
        let mut i: usize = 0;
        for request in it: features
            invariant
                it.seq() == fs,
                i == it.index(),
                fs.len() <= usize::MAX,
                results@.len() == os.len(),
                forall|j: int| i <= j < os.len() ==> #[trigger] results@[j] == os[j],
                resolved@ == fetched_spec(fs.take(i as int), os),
        {
            assert(fs.take(i + 1).drop_last() =~= fs.take(i as int));
            if i < results.len() {
                let mut outcome: Option<(FeatureMeta, String)> = None;
                results.set_and_swap(i, &mut outcome);
                if let Some((meta, dir)) = outcome {
                    resolved.push(
                        Resolved {
                            reference: request.reference,
                            options: request.options,
                            meta,
                            dir,
                        },
                    );
                }
            }
            i += 1;
        }
        assert(fs.take(fs.len() as int) =~= fs);
        Plan { resolved: order(resolved, override_order), work: Some(self.work) }
    }
}

/// The requests whose marker was not found, by how the probes for the markers
/// ended.
pub open spec fn missing_spec(features: Seq<FeatureRequest>, probes: Seq<Ended>) -> Seq<
    FeatureRequest,
>
    decreases features.len(),
{
    if features.len() == 0 {
        seq![]
    } else {
        let rest = missing_spec(features.drop_last(), probes);
        let i = features.len() - 1;
        if i < probes.len() && probes[i].succeeded() {
            rest
        } else {
            rest.push(features.last())
        }
    }
}

/// The probes for the markers of features, one each.
pub fn install_probes(docker: &Docker, container: &str, features: &Vec<FeatureRequest>) -> (r: Vec<
    Invocation,
>)
    ensures
        r.deep_view() == features@.map_values(
            |f: FeatureRequest|
                docker.done_spec(container@, marker_key_spec(f.reference@)),
        ),
{
    let mut out: Vec<Invocation> = Vec::new();
    let ghost all = features@.map_values(
        |f: FeatureRequest|
            docker.done_spec(container@, marker_key_spec(f.reference@)),
    );
    for i in 0..features.len()
        invariant
            all.len() == features@.len(),
            forall|j: int|
                0 <= j < all.len() ==> #[trigger] all[j] == docker.done_spec(
                    container@,
                    marker_key_spec(features@[j].reference@),
                ),
            out.deep_view() == all.take(i as int),
    {
        let ghost before = out.deep_view();
        let key = marker_key(features[i].reference.as_str());
        let probe = docker.task_done(container, key.as_str());
        out.push(probe);
        assert(out.deep_view() =~= before.push(probe.deep_view()));
        assert(out.deep_view() =~= all.take(i + 1));
    }
    assert(out.deep_view() =~= all);
    out
}

/// Marker-gated install for an already-running container: the features that have
/// not succeeded yet, by how the probes for their markers ended. Those are then
/// fetched and installed; what they ask of the container at its creation cannot
/// be applied any more.
pub fn install(features: Vec<FeatureRequest>, probes: &Vec<Ended>) -> (r: Vec<FeatureRequest>)
    ensures
        r@ == missing_spec(features@, probes@),
{
    let ghost fs = features@;
    let mut todo: Vec<FeatureRequest> = Vec::new();
    assert(features.len() == fs.len());
    let mut i: usize = 0;
    for request in it: features
        invariant
            it.seq() == fs,
            i == it.index(),
            fs.len() <= usize::MAX,
            todo@ == missing_spec(fs.take(i as int), probes@),
    {
        assert(fs.take(i + 1).drop_last() =~= fs.take(i as int));
        if !(i < probes.len() && probes[i].success()) {
            todo.push(request);
        }
        i += 1;
    }
    assert(fs.take(fs.len() as int) =~= fs);
    todo
}

// ── laws ──────────────────────────────────────────────────────────────────────

/// No creation settings give no flags, and any setting gives one.
pub proof fn flags_are_given_iff_any_is_set(f: CreateFlagsView)
    ensures
        f == CreateFlagsView::none() <==> f.run_args().len() == 0,
{
    let mounts = f.mounts.map_values(|m: FeatureMountView| m.mount_arg());
    lemma_repeated_len("--cap-add"@, f.cap_add);
    lemma_repeated_len("--security-opt"@, f.security_opt);
    lemma_repeated_len("--mount"@, mounts);
    if f.run_args().len() == 0 {
        assert(f =~= CreateFlagsView::none());
    }
}

proof fn lemma_repeated_len(option: Seq<char>, items: Seq<Seq<char>>)
    ensures
        repeated(option, items).len() == 2 * items.len(),
    decreases items.len(),
{
    if items.len() > 0 {
        lemma_repeated_len(option, items.drop_last());
    }
}

/// A feature's success is recorded only where its installation succeeded, and a
/// failure is told with the feature and the reason.
pub proof fn only_success_is_recorded(s: StageView, outcome: Result<(), Seq<char>>)
    ensures
        s.settled(outcome) is Mark <==> outcome is Ok,
{
}

/// A container that has all markers is left alone: nothing is fetched.
pub proof fn all_marked_means_nothing_to_do(features: Seq<FeatureRequest>, probes: Seq<Ended>)
    requires
        probes.len() >= features.len(),
        forall|i: int| 0 <= i < features.len() ==> (#[trigger] probes[i]).succeeded(),
    ensures
        missing_spec(features, probes).len() == 0,
    decreases features.len(),
{
    if features.len() > 0 {
        all_marked_means_nothing_to_do(features.drop_last(), probes);
    }
}

/// The variables of features stand in the profile in the order of their names.
pub proof fn profile_is_sorted(rs: Seq<Resolved>, installed: Seq<bool>)
    ensures
        table::sorted(merged_env(rs, installed)),
    decreases rs.len(),
{
    if rs.len() > 0 {
        profile_is_sorted(rs.drop_last(), installed);
        let i = rs.len() - 1;
        if i < installed.len() && installed[i] {
            table::setting_all_keeps_order(
                merged_env(rs.drop_last(), installed),
                rs.last().meta.container_env.deep_view(),
            );
        }
    }
}

/// A feature is installed by running its script: the directory that was fetched is
/// copied into the container, where nothing is left of an older one, and then
/// `install.sh` is made executable and executed there, as root and with the
/// variables of the feature's options. That is the last step, so the feature
/// counts as installed only if the script has succeeded.
pub proof fn installing_runs_the_script(docker: Docker, container: Seq<char>, r: Resolved)
    ensures
        ({
            let stage = stage_spec(docker, container, r);
            let dest = "/tmp/graft-features/"@ + r.meta.id@;
            let n = stage.steps.len() as int;
            &&& stage.steps.last() matches script::StepView::Run(job) && job.command
                == docker.command_spec(
                seq!["exec"@, "-u"@, "0"@, "--workdir"@, dest] + docker::env_args(
                    build_env_spec(r),
                ) + seq![container, "sh"@, "-c"@, "chmod +x ./install.sh && ./install.sh"@],
            )
            &&& exists|i: int, j: int|
                {
                    &&& 0 <= i < j < n - 1
                    &&& (#[trigger] stage.steps[i]) matches script::StepView::Run(job)
                        && job.command == docker.command_spec(
                        seq!["exec"@, "-u"@, "0"@, container, "rm"@, "-rf"@, dest],
                    )
                    &&& #[trigger] stage.steps[j] == (script::StepView::CopyIn {
                        source: r.dir@,
                        container,
                        dest,
                    })
                }
        }),
{
    let steps = stage_spec(docker, container, r).steps;
    let dest = "/tmp/graft-features/"@ + r.meta.id@;
    reveal_strlit("/tmp/graft-features/");
    reveal_strlit("/tmp/graft-features");
    reveal_strlit("/");
    assert(feature_dir(r.meta.id@) =~= dest);
    let script = seq!["sh"@, "-c"@, "chmod +x ./install.sh && ./install.sh"@];
    assert(docker::exec_in_args(container, Some(dest), build_env_spec(r), script, true) =~= seq![
        "exec"@,
        "-u"@,
        "0"@,
        "--workdir"@,
        dest,
    ] + docker::env_args(build_env_spec(r)) + seq![
        container,
        "sh"@,
        "-c"@,
        "chmod +x ./install.sh && ./install.sh"@,
    ]);
    assert(docker::exec_args_spec(container, seq!["rm"@, "-rf"@, dest], true) =~= seq![
        "exec"@,
        "-u"@,
        "0"@,
        container,
        "rm"@,
        "-rf"@,
        dest,
    ]);
    assert(steps[0] is Run);
    assert(steps[1] == (script::StepView::CopyIn { source: r.dir@, container, dest }));
}

/// What records that a feature is installed is what it is probed for by.
pub proof fn installed_feature_is_found_by_its_probe(
    docker: Docker,
    container: Seq<char>,
    r: Resolved,
)
    ensures
        stage_spec(docker, container, r).settled(Ok(())) == SettledView::Mark(
            docker.mark_spec(container, "feature."@ + r.reference@),
        ),
        docker.done_spec(container, marker_key_spec(r.reference@)) == docker.done_spec(
            container,
            "feature."@ + r.reference@,
        ),
{
}

/// Each declared option reaches the script as a variable of its own: with the
/// value that the user gave, or else with its default.
pub proof fn options_reach_the_script(r: Resolved, i: int)
    requires
        0 <= i < r.meta.options@.len(),
    ensures
        ({
            let (id, option) = r.meta.options@[i];
            let (name, value) = build_env_spec(r)[i];
            &&& name == env_name_spec(id@)
            &&& match json::lookup(r.options@, id@) {
                Some(given) => value == stringify_spec(given),
                None => value == stringify_spec(option.default),
            }
        }),
        build_env_spec(r).skip(r.meta.options@.len() as int) == seq![
            ("_REMOTE_USER"@, "root"@),
            ("_REMOTE_USER_HOME"@, "/root"@),
            ("_CONTAINER_USER"@, "root"@),
            ("_CONTAINER_USER_HOME"@, "/root"@),
        ],
{
    lemma_option_variables(r.meta.options@, r.options@, i);
    let own = option_variables(r.meta.options@, r.options@);
    assert(build_env_spec(r)[i] == own[i]);
    assert(build_env_spec(r).skip(own.len() as int) =~= user_env());
}

proof fn lemma_option_variables(
    declared: Seq<(String, OptionSpec)>,
    given: Seq<(String, Json)>,
    i: int,
)
    requires
        0 <= i < declared.len(),
    ensures
        option_variables(declared, given).len() == declared.len(),
        ({
            let (id, option) = declared[i];
            let (name, value) = option_variables(declared, given)[i];
            &&& name == env_name_spec(id@)
            &&& match json::lookup(given, id@) {
                Some(v) => value == stringify_spec(v),
                None => value == stringify_spec(option.default),
            }
        }),
    decreases declared.len(),
{
    let init = declared.drop_last();
    if init.len() > 0 {
        lemma_option_variables(
            init,
            given,
            if i < init.len() {
                i
            } else {
                0
            },
        );
    } else {
        assert(option_variables(init, given).len() == 0);
    }
}

/// The container is made with everything that some feature asks for, and with
/// nothing that none does.
pub proof fn flags_are_what_features_ask_for(rs: Seq<Resolved>, cap: Seq<char>, m: FeatureMountView)
    ensures
        flags_of(rs).privileged <==> exists|i: int|
            0 <= i < rs.len() && (#[trigger] rs[i]).meta.privileged,
        flags_of(rs).init <==> exists|i: int| 0 <= i < rs.len() && (#[trigger] rs[i]).meta.init,
        flags_of(rs).cap_add.contains(cap) <==> exists|i: int|
            0 <= i < rs.len() && (#[trigger] rs[i]).meta.cap_add.deep_view().contains(cap),
        flags_of(rs).security_opt.contains(cap) <==> exists|i: int|
            0 <= i < rs.len() && (#[trigger] rs[i]).meta.security_opt.deep_view().contains(cap),
        flags_of(rs).mounts.contains(m) <==> exists|i: int|
            0 <= i < rs.len() && mounts_of((#[trigger] rs[i]).meta.mounts@).contains(m),
    decreases rs.len(),
{
    if rs.len() > 0 {
        let init = rs.drop_last();
        flags_are_what_features_ask_for(init, cap, m);
        let last = rs[rs.len() - 1];
        assert(last == rs.last());
        assert forall|i: int| 0 <= i < init.len() implies init[i] == #[trigger] rs[i] by {}
        assert forall|i: int| 0 <= i < init.len() implies #[trigger] init[i] == rs[i] by {}
        lemma_concat_contains(flags_of(init).cap_add, last.meta.cap_add.deep_view(), cap);
        lemma_concat_contains(flags_of(init).security_opt, last.meta.security_opt.deep_view(), cap);
        lemma_concat_contains(flags_of(init).mounts, mounts_of(last.meta.mounts@), m);
    }
}

proof fn lemma_concat_contains<A>(a: Seq<A>, b: Seq<A>, x: A)
    ensures
        (a + b).contains(x) <==> a.contains(x) || b.contains(x),
{
    if a.contains(x) {
        let i = choose|i: int| 0 <= i < a.len() && a[i] == x;
        assert((a + b)[i] == x);
    }
    if b.contains(x) {
        let i = choose|i: int| 0 <= i < b.len() && b[i] == x;
        assert((a + b)[a.len() + i] == x);
    }
    if (a + b).contains(x) {
        let i = choose|i: int| 0 <= i < (a + b).len() && (a + b)[i] == x;
        if i < a.len() {
            assert(a[i] == x);
        } else {
            assert(b[i - a.len()] == x);
        }
    }
}

/// A mount is asked for exactly where one of the declared values describes it.
pub proof fn mounts_are_those_described(values: Seq<Json>, m: FeatureMountView)
    ensures
        mounts_of(values).contains(m) <==> exists|i: int|
            0 <= i < values.len() && parse_mount_spec(#[trigger] values[i]) == Some(m),
    decreases values.len(),
{
    if values.len() > 0 {
        let init = values.drop_last();
        mounts_are_those_described(init, m);
        assert(values[values.len() - 1] == values.last());
        assert forall|i: int| 0 <= i < init.len() implies init[i] == #[trigger] values[i] by {}
        assert forall|i: int| 0 <= i < init.len() implies #[trigger] init[i] == values[i] by {}
        if let Some(last) = parse_mount_spec(values.last()) {
            lemma_concat_contains(mounts_of(init), seq![last], m);
            assert(mounts_of(values) =~= mounts_of(init) + seq![last]);
            assert(seq![last].contains(m) <==> last == m) by {
                assert(seq![last][0] == last);
            }
        }
    }
}

/// What is installed again in a container that is kept are exactly the features
/// whose marker was not found.
pub proof fn features_without_a_marker_are_missing(
    features: Seq<FeatureRequest>,
    probes: Seq<Ended>,
    f: FeatureRequest,
)
    requires
        probes.len() == features.len(),
    ensures
        missing_spec(features, probes).contains(f) <==> exists|i: int|
            0 <= i < features.len() && #[trigger] features[i] == f && !probes[i].succeeded(),
{
    lemma_missing(features, probes, f);
}

proof fn lemma_missing(features: Seq<FeatureRequest>, probes: Seq<Ended>, f: FeatureRequest)
    requires
        probes.len() >= features.len(),
    ensures
        missing_spec(features, probes).contains(f) <==> exists|i: int|
            0 <= i < features.len() && #[trigger] features[i] == f && !probes[i].succeeded(),
    decreases features.len(),
{
    if features.len() > 0 {
        let init = features.drop_last();
        let last = features.last();
        lemma_missing(init, probes, f);
        assert(features[features.len() - 1] == last);
        assert forall|i: int| 0 <= i < init.len() implies init[i] == #[trigger] features[i] by {}
        assert forall|i: int| 0 <= i < init.len() implies #[trigger] init[i] == features[i] by {}
        if !probes[features.len() - 1].succeeded() {
            let rest = missing_spec(init, probes);
            lemma_concat_contains(rest, seq![last], f);
            assert(missing_spec(features, probes) =~= rest + seq![last]);
            assert(seq![last].contains(f) <==> last == f) by {
                assert(seq![last][0] == last);
            }
        }
    }
}

/// What is planned are the requested features that could be fetched, each with
/// its own options and with what was fetched of it.
pub proof fn fetched_features_keep_their_requests(
    features: Seq<FeatureRequest>,
    outcomes: Seq<Option<(FeatureMeta, String)>>,
    r: Resolved,
)
    requires
        outcomes.len() >= features.len(),
    ensures
        fetched_spec(features, outcomes).contains(r) <==> exists|i: int|
            {
                &&& 0 <= i < features.len()
                &&& (#[trigger] features[i]).reference == r.reference
                &&& features[i].options == r.options
                &&& outcomes[i] == Some((r.meta, r.dir))
            },
    decreases features.len(),
{
    if features.len() > 0 {
        let init = features.drop_last();
        let last = features.last();
        let n = features.len() - 1;
        fetched_features_keep_their_requests(init, outcomes, r);
        assert(features[n] == last);
        assert forall|i: int| 0 <= i < init.len() implies init[i] == #[trigger] features[i] by {}
        assert forall|i: int| 0 <= i < init.len() implies #[trigger] init[i] == features[i] by {}
        if let Some((meta, dir)) = outcomes[n] {
            let rest = fetched_spec(init, outcomes);
            let own = Resolved { reference: last.reference, options: last.options, meta, dir };
            lemma_concat_contains(rest, seq![own], r);
            assert(fetched_spec(features, outcomes) =~= rest + seq![own]);
            assert(seq![own].contains(r) <==> own == r) by {
                assert(seq![own][0] == own);
            }
        }
    }
}

/// Login shells get each variable from the last feature that sets it among those
/// that were installed, and none from any other. Where the variables of each
/// feature are kept by name, that says what each variable is.
pub proof fn profile_holds_what_installed_features_set(
    rs: Seq<Resolved>,
    installed: Seq<bool>,
    k: Seq<char>,
)
    requires
        installed.len() >= rs.len(),
        forall|i: int|
            0 <= i < rs.len() ==> table::sorted((#[trigger] rs[i]).meta.container_env.deep_view()),
    ensures
        match table::get(merged_env(rs, installed), k) {
            Some(v) => exists|i: int|
                {
                    &&& 0 <= i < rs.len()
                    &&& installed[i]
                    &&& table::get((#[trigger] rs[i]).meta.container_env.deep_view(), k) == Some(v)
                    &&& forall|j: int|
                        i < j < rs.len() && installed[j] ==> table::get(
                            (#[trigger] rs[j]).meta.container_env.deep_view(),
                            k,
                        ) is None
                },
            None => forall|j: int|
                0 <= j < rs.len() && installed[j] ==> table::get(
                    (#[trigger] rs[j]).meta.container_env.deep_view(),
                    k,
                ) is None,
        },
    decreases rs.len(),
{
    if rs.len() > 0 {
        let init = rs.drop_last();
        let n = rs.len() - 1;
        assert forall|i: int| 0 <= i < init.len() implies #[trigger] init[i] == rs[i] by {}
        profile_holds_what_installed_features_set(init, installed, k);
        let rest = merged_env(init, installed);
        profile_is_sorted(init, installed);
        let own = rs[n].meta.container_env.deep_view();
        if installed[n] {
            table::later_entries_win(rest, own, k);
        }
        let all = merged_env(rs, installed);
        if let Some(v) = table::get(all, k) {
            if installed[n] && table::get(own, k) is Some {
                assert(table::get(rs[n].meta.container_env.deep_view(), k) == Some(v));
            } else {
                assert(table::get(rest, k) == Some(v));
                let i = choose|i: int|
                    {
                        &&& 0 <= i < init.len()
                        &&& installed[i]
                        &&& table::get((#[trigger] init[i]).meta.container_env.deep_view(), k)
                            == Some(v)
                        &&& forall|j: int|
                            i < j < init.len() && installed[j] ==> table::get(
                                (#[trigger] init[j]).meta.container_env.deep_view(),
                                k,
                            ) is None
                    };
                assert(rs[i] == init[i]);
                assert forall|j: int| i < j < rs.len() && installed[j] implies table::get(
                    (#[trigger] rs[j]).meta.container_env.deep_view(),
                    k,
                ) is None by {
                    if j < n {
                        assert(init[j] == rs[j]);
                    }
                }
            }
        } else {
            assert forall|j: int| 0 <= j < rs.len() && installed[j] implies table::get(
                (#[trigger] rs[j]).meta.container_env.deep_view(),
                k,
            ) is None by {
                if j < n {
                    assert(init[j] == rs[j]);
                }
            }
        }
    }
}

/// The profile of features is written to a temporary file, and that file goes to
/// where login shells look.
pub proof fn profile_goes_where_login_shells_look(
    rt: Runtime,
    container: Seq<char>,
    env: Seq<table::Entry>,
)
    ensures
        ({
            let steps = write_profile_spec(rt, container, env);
            &&& steps.len() == 2
            &&& steps[0] matches script::StepView::WriteTemp { temp, contents, .. } && {
                &&& steps[1] == (script::StepView::CopyIn {
                    source: temp,
                    container,
                    dest: "/etc/profile.d/graft-features.sh"@,
                })
                &&& forall|i: int|
                    0 <= i < env.len() ==> text::contains_spec(
                        contents,
                        "export "@ + (#[trigger] env[i]).0 + "="@ + env[i].1 + "\n"@,
                    )
            }
        }),
{
    let head = "# generated by graft from devcontainer feature containerEnv\n"@;
    assert forall|i: int| 0 <= i < env.len() implies text::contains_spec(
        head + exports(env),
        "export "@ + (#[trigger] env[i]).0 + "="@ + env[i].1 + "\n"@,
    ) by {
        lemma_exported(head, env, i);
    }
}

proof fn lemma_exported(head: Seq<char>, env: Seq<table::Entry>, i: int)
    requires
        0 <= i < env.len(),
    ensures
        text::contains_spec(
            head + exports(env),
            "export "@ + env[i].0 + "="@ + env[i].1 + "\n"@,
        ),
    decreases env.len(),
{
    let line = "export "@ + env[i].0 + "="@ + env[i].1 + "\n"@;
    let all = head + exports(env);
    if i == env.len() - 1 {
        let at = (head + exports(env.drop_last())).len() as int;
        assert(all.subrange(at, at + line.len()) =~= line);
        assert(text::occurs_at(all, line, at));
    } else {
        lemma_exported(head, env.drop_last(), i);
        let part = head + exports(env.drop_last());
        let more = "export "@ + env.last().0 + "="@ + env.last().1 + "\n"@;
        assert(all =~= part + more);
        let at = choose|at: int| text::occurs_at(part, line, at);
        assert(all.subrange(at, at + line.len()) =~= part.subrange(at, at + line.len()));
        assert(text::occurs_at(all, line, at));
    }
}

/// A feature comes behind every other that any entry of its installsAfter means,
/// where these entries lead round no cycle.
pub proof fn every_listed_feature_comes_first(
    rs: Seq<Resolved>,
    overrides: Seq<Seq<char>>,
    height: spec_fn(int) -> nat,
    a: int,
    b: int,
    k: int,
)
    requires
        forall|i: int, j: int, m: int|
            0 <= i < rs.len() && 0 <= j < rs.len() && i != j && 0 <= m
                < rs[i].meta.installs_after@.len() && #[trigger] means(
                rs[i].meta.installs_after@[m]@,
                rs[j].reference@,
                rs[j].meta.id@,
            ) ==> height(j) < height(i),
        0 <= a < rs.len(),
        0 <= b < rs.len(),
        a != b,
        ({
            let x = rs[picks(rs, overrides, rs.len() as int)[a]];
            let y = rs[picks(rs, overrides, rs.len() as int)[b]];
            &&& 0 <= k < x.meta.installs_after@.len()
            &&& means(x.meta.installs_after@[k]@, y.reference@, y.meta.id@)
        }),
    ensures
        b < a,
{
    let n = rs.len() as int;
    let all = picks(rs, overrides, n);
    every_feature_comes_once(rs, overrides, n);
    assert forall|i: int, j: int|
        0 <= i < rs.len() && 0 <= j < rs.len() && #[trigger] depends(rs, i, j) implies height(j)
        < height(i) by {
        let m = choose|m: int|
            0 <= m < rs[i].meta.installs_after@.len() && means(
                #[trigger] rs[i].meta.installs_after@[m]@,
                rs[j].reference@,
                rs[j].meta.id@,
            );
        assert(means(rs[i].meta.installs_after@[m]@, rs[j].reference@, rs[j].meta.id@));
    }
    assert(all[a] != all[b]);
    assert(means(
        rs[all[a]].meta.installs_after@[k]@,
        rs[all[b]].reference@,
        rs[all[b]].meta.id@,
    ));
    assert(depends(rs, all[a], all[b]));
    dependencies_come_first(rs, overrides, height, a, b);
}

proof fn lemma_rank(r: Resolved, overrides: Seq<Seq<char>>, i: int)
    requires
        0 <= i <= overrides.len(),
    ensures
        ({
            let n = rank_from(r, overrides, i);
            &&& i <= n <= overrides.len()
            &&& n < overrides.len() ==> means(overrides[n], r.reference@, r.meta.id@)
            &&& forall|j: int|
                i <= j < n ==> !means(#[trigger] overrides[j], r.reference@, r.meta.id@)
        }),
    decreases overrides.len() - i,
{
    if i < overrides.len() && !means(overrides[i], r.reference@, r.meta.id@) {
        lemma_rank(r, overrides, i + 1);
    }
}

/// Features that follow no others come in the order of the entries that mean
/// them, those that none means last; among these the reference decides.
pub proof fn override_order_is_kept(
    rs: Seq<Resolved>,
    overrides: Seq<Seq<char>>,
    a: int,
    b: int,
    i: int,
)
    requires
        forall|k: int| 0 <= k < rs.len() ==> (#[trigger] rs[k]).meta.installs_after@.len() == 0,
        0 <= a < rs.len(),
        0 <= b < rs.len(),
        a != b,
        ({
            let x = rs[picks(rs, overrides, rs.len() as int)[a]];
            let y = rs[picks(rs, overrides, rs.len() as int)[b]];
            ||| 0 <= i < overrides.len() && means(overrides[i], x.reference@, x.meta.id@) && forall|
                j: int,
            |
                0 <= j <= i ==> !means(#[trigger] overrides[j], y.reference@, y.meta.id@)
            ||| text::text_lt(x.reference@, y.reference@) && forall|j: int|
                0 <= j < overrides.len() ==> !means(
                    #[trigger] overrides[j],
                    x.reference@,
                    x.meta.id@,
                ) && !means(overrides[j], y.reference@, y.meta.id@)
        }),
    ensures
        a < b,
{
    let all = picks(rs, overrides, rs.len() as int);
    every_feature_comes_once(rs, overrides, rs.len() as int);
    lemma_rank(rs[all[a]], overrides, 0);
    lemma_rank(rs[all[b]], overrides, 0);
    if b < a {
        assert forall|i: int, j: int| 0 <= i < rs.len() && 0 <= j < rs.len() implies
            !#[trigger] depends(rs, i, j) by {
            assert(rs[i].meta.installs_after@.len() == 0);
        }
        independent_features_keep_the_base_order(rs, overrides, b, a);
        text::lemma_text_asym(rs[all[a]].reference@, rs[all[b]].reference@);
    }
}

proof fn lemma_untagged(base: Seq<char>, tag: Seq<char>)
    requires
        forall|i: int| 0 <= i < tag.len() ==> tag[i] != ':' && tag[i] != '/',
    ensures
        untagged(base + ":"@ + tag) == base,
{
    reveal_strlit(":");
    let s = base + ":"@ + tag;
    let n = base.len() as int;
    assert(s[n] == ':');
    assert forall|j: int| n < j < s.len() implies s[j] != ':' && s[j] != '/' by {
        assert(s[j] == tag[j - n - 1]);
    }
    text::lemma_rindex(s, ':');
    text::lemma_rindex(s, '/');
    assert(text::rindex_spec(s, ':') == Some(n));
    assert(s.take(n) =~= base);
}

/// An entry means a feature by its reference, whatever the tags of the two are,
/// and by its id where that ends the entry.
pub proof fn entries_mean_features_by_reference_or_id(
    base: Seq<char>,
    tag: Seq<char>,
    other: Seq<char>,
    reference: Seq<char>,
    id: Seq<char>,
)
    requires
        forall|i: int| 0 <= i < tag.len() ==> tag[i] != ':' && tag[i] != '/',
        forall|i: int| 0 <= i < other.len() ==> other[i] != ':' && other[i] != '/',
        forall|i: int| 0 <= i < id.len() ==> id[i] != '/',
    ensures
        means(base + ":"@ + tag, base + ":"@ + other, id),
        means(base + "/"@ + id + ":"@ + tag, reference, id),
{
    reveal_strlit("/");
    lemma_untagged(base, tag);
    lemma_untagged(base, other);
    let entry = base + "/"@ + id;
    lemma_untagged(entry, tag);
    let n = base.len() as int;
    assert(entry[n] == '/');
    assert forall|j: int| n < j < entry.len() implies entry[j] != '/' by {
        assert(entry[j] == id[j - n - 1]);
    }
    text::lemma_rindex(entry, '/');
    assert(text::rindex_spec(entry, '/') == Some(n));
    assert(entry.skip(n + 1) =~= id);
}

/// Every feature of a plan is installed, in the order of the plan, once the
/// directory that features are unpacked in was made.
pub proof fn every_feature_of_a_plan_is_installed(
    plan: Plan,
    docker: Docker,
    container: &str,
    r: Option<Installation>,
    k: int,
)
    requires
        call_ensures(Plan::install, (&plan, &docker, container), r),
        0 <= k < plan.resolved@.len(),
    ensures
        r matches Some(i) && {
            &&& i.prepare.deep_view().command == docker.command_spec(
                seq!["exec"@, "-u"@, "0"@, container@, "mkdir"@, "-p"@, "/tmp/graft-features"@],
            )
            &&& i.stages@.len() == plan.resolved@.len()
            &&& i.stages@[k].deep_view() == stage_spec(docker, container@, plan.resolved@[k])
        },
{
    let i = r->0;
    let argv = seq!["mkdir"@, "-p"@, "/tmp/graft-features"@];
    assert(docker::exec_args_spec(container@, argv, true) =~= seq![
        "exec"@,
        "-u"@,
        "0"@,
        container@,
        "mkdir"@,
        "-p"@,
        "/tmp/graft-features"@,
    ]);
    assert(i.stages.deep_view().len() == plan.resolved@.len());
    assert(i.stages.deep_view()[k] == i.stages@[k].deep_view());
}

proof fn lemma_all_present(s: Seq<int>, n: int, i: int)
    requires
        distinct_below(s, n),
        s.len() == n,
        0 <= i < n,
    ensures
        s.contains(i),
{
    if !s.contains(i) {
        let more = s.push(i);
        assert(distinct_below(more, n)) by {
            assert(more.no_duplicates());
        }
        lemma_not_more_than(more, n);
    }
}

proof fn lemma_not_more_than(s: Seq<int>, n: int)
    requires
        distinct_below(s, n),
        n >= 0,
    ensures
        s.len() <= n,
    decreases n,
{
    if n == 0 {
        if s.len() > 0 {
            assert(0 <= s[0] < n);
        }
    } else if s.contains(n - 1) {
        let k = choose|k: int| 0 <= k < s.len() && s[k] == n - 1;
        let t = s.remove(k);
        assert forall|j: int| 0 <= j < t.len() implies 0 <= #[trigger] t[j] < n - 1 by {
            let o = if j < k {
                j
            } else {
                j + 1
            };
            assert(t[j] == s[o]);
        }
        assert(t.no_duplicates()) by {
            assert forall|a: int, b: int| 0 <= a < t.len() && 0 <= b < t.len() && a != b implies t[a]
                != t[b] by {
                let oa = if a < k {
                    a
                } else {
                    a + 1
                };
                let ob = if b < k {
                    b
                } else {
                    b + 1
                };
                assert(t[a] == s[oa] && t[b] == s[ob]);
            }
        }
        lemma_not_more_than(t, n - 1);
    } else {
        assert forall|j: int| 0 <= j < s.len() implies 0 <= #[trigger] s[j] < n - 1 by {
            assert(s.contains(s[j]));
        }
        lemma_not_more_than(s, n - 1);
    }
}

/// What is fetched is planned: ordering drops no feature and adds none, and what
/// was fetched is removed with the plan.
pub proof fn every_fetched_feature_is_planned(
    f: Fetching,
    outcomes: Vec<Option<(FeatureMeta, String)>>,
    override_order: Vec<String>,
    plan: Plan,
    x: Resolved,
)
    requires
        call_ensures(Fetching::finish, (f, outcomes, &override_order), plan),
    ensures
        plan.resolved@.len() == fetched_spec(f.features@, outcomes@).len(),
        plan.resolved@.contains(x) <==> fetched_spec(f.features@, outcomes@).contains(x),
        plan.work.deep_view() == Some(f.work@),
{
    let rs = fetched_spec(f.features@, outcomes@);
    let n = rs.len() as int;
    let overrides = override_order.deep_view();
    let order = picks(rs, overrides, n);
    every_feature_comes_once(rs, overrides, n);
    if rs.contains(x) {
        let i = choose|i: int| 0 <= i < n && rs[i] == x;
        lemma_all_present(order, n, i);
        let k = choose|k: int| 0 <= k < order.len() && order[k] == i;
        assert(plan.resolved@[k] == x);
    }
    if plan.resolved@.contains(x) {
        let k = choose|k: int| 0 <= k < plan.resolved@.len() && plan.resolved@[k] == x;
        assert(rs[order[k]] == x);
    }
}

/// What comes next in the order of installation precedes all others that are
/// ready; where a cycle leaves none ready, it precedes all that are still to come.
pub proof fn next_feature_precedes_the_others(
    rs: Seq<Resolved>,
    overrides: Seq<Seq<char>>,
    done: Seq<int>,
    j: int,
)
    requires
        0 <= j < rs.len(),
        !done.contains(j),
    ensures
        pick(rs, overrides, done) matches Some(i) && {
            &&& 0 <= i < rs.len()
            &&& !done.contains(i)
            &&& ready(rs, done, j) ==> ready(rs, done, i) && (i == j || precedes(
                rs,
                overrides,
                i,
                j,
            ))
            &&& !ready(rs, done, i) ==> i == j || precedes(rs, overrides, i, j)
        },
{
    let n = rs.len() as int;
    lemma_least(rs, overrides, done, true, n);
    lemma_least(rs, overrides, done, false, n);
    assert(candidate(rs, done, false, j));
    lemma_least_first(rs, overrides, done, false, n, j);
    if ready(rs, done, j) {
        assert(candidate(rs, done, true, j));
        lemma_least_first(rs, overrides, done, true, n, j);
    }
    if let Some(i) = least(rs, overrides, done, true, n) {
        assert(candidate(rs, done, true, i));
    } else if let Some(i) = least(rs, overrides, done, false, n) {
        assert(!candidate(rs, done, true, i));
    }
}

/// Before a feature is installed, the user is warned about each value that is
/// none of those that its option declares, and about an entry point.
pub proof fn doubtful_settings_are_warned_about(
    docker: Docker,
    container: Seq<char>,
    r: Resolved,
    i: int,
)
    ensures
        r.meta.entrypoint is Some ==> stage_spec(docker, container, r).warnings.contains(
            "[graft] warning: feature "@ + r.reference@
                + " declares an entrypoint, which graft can't apply (the container runs `sleep infinity`); ignoring it"@,
        ),
        0 <= i < r.options@.len() && undeclared(
            r.meta.options@,
            r.options@[i].0@,
            r.options@[i].1,
        ) ==> stage_spec(docker, container, r).warnings.contains(
            "[graft] warning: feature "@ + r.reference@ + " option "@ + r.options@[i].0@ + "="@
                + r.options@[i].1.text@ + " is not one of its declared values"@,
        ),
{
    let all = stage_spec(docker, container, r).warnings;
    let own = option_warnings(r.reference@, r.meta.options@, r.options@);
    let head = match entrypoint_warning(r) {
        Some(w) => seq![w],
        None => seq![],
    };
    if r.meta.entrypoint is Some {
        assert(all[0] == entrypoint_warning(r)->0);
    }
    if 0 <= i < r.options@.len() && undeclared(
        r.meta.options@,
        r.options@[i].0@,
        r.options@[i].1,
    ) {
        lemma_warned(r.reference@, r.meta.options@, r.options@, i);
        lemma_concat_contains(
            head,
            own,
            "[graft] warning: feature "@ + r.reference@ + " option "@ + r.options@[i].0@ + "="@
                + r.options@[i].1.text@ + " is not one of its declared values"@,
        );
    }
}

proof fn lemma_warned(
    reference: Seq<char>,
    declared: Seq<(String, OptionSpec)>,
    given: Seq<(String, Json)>,
    i: int,
)
    requires
        0 <= i < given.len(),
        undeclared(declared, given[i].0@, given[i].1),
    ensures
        option_warnings(reference, declared, given).contains(
            "[graft] warning: feature "@ + reference + " option "@ + given[i].0@ + "="@
                + given[i].1.text@ + " is not one of its declared values"@,
        ),
    decreases given.len(),
{
    let line = "[graft] warning: feature "@ + reference + " option "@ + given[i].0@ + "="@
        + given[i].1.text@ + " is not one of its declared values"@;
    let rest = option_warnings(reference, declared, given.drop_last());
    let all = option_warnings(reference, declared, given);
    if i == given.len() - 1 {
        assert(all[rest.len() as int] == line);
    } else {
        lemma_warned(reference, declared, given.drop_last(), i);
        let k = choose|k: int| 0 <= k < rest.len() && rest[k] == line;
        assert(all[k] == line);
    }
}

} // verus!
