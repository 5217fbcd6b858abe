//! The configuration in `.rudiff.toml`.
//!
//! ```toml
//! [[group]]
//! name = "Auth"
//! patterns = ["server/src/main/java/com/acme/auth/**", "clients/*/src/auth/**"]
//! ```
//!
//! Patterns are gitignore-style globs on paths from the repository's root. Groups are flat: they
//! stand for slices of the domain, not for layers. A file may match several groups, and is then
//! shown under each; a file that matches none is shown under "Other".
//!
//! An optional `[explain]` table chooses the model for the `e` command:
//!
//! ```toml
//! [explain]
//! model = "sonnet"   # haiku | sonnet | opus
//! ```
use vstd::prelude::*;
use vstd::string::*;

use crate::path;
use crate::explain::ExplainModel;
use crate::path::{join_path, parent, push_path_key};

verus! {

broadcast use vstd::seq_lib::group_seq_properties;

// ---- Globs ----

/// A parsed glob pattern.
#[verifier::external_type_specification]
#[verifier::external_body]
pub struct ExGlob(globset::Glob);

/// A set of globs that are matched together.
#[verifier::external_type_specification]
#[verifier::external_body]
pub struct ExGlobSet(globset::GlobSet);

/// A set of globs being collected.
#[verifier::external_type_specification]
#[verifier::external_body]
pub struct ExGlobSetBuilder(globset::GlobSetBuilder);

/// Why a glob or a set of them was refused.
#[verifier::external_type_specification]
#[verifier::external_body]
pub struct ExGlobError(globset::Error);

/// Whether a text is a glob pattern.
pub uninterp spec fn is_glob_v(pattern: Seq<char>) -> bool;

/// Whether a text is a glob pattern when slashes are only matched by slashes.
pub uninterp spec fn is_path_glob_v(pattern: Seq<char>) -> bool;

/// Whether a glob pattern, with slashes only matched by slashes, matches a path.
pub uninterp spec fn glob_matches_v(pattern: Seq<char>, path: Seq<char>) -> bool;

/// Whether globs can be compiled into one set.
pub uninterp spec fn globs_compile_v(patterns: Seq<Seq<char>>) -> bool;

/// The pattern of a glob.
pub uninterp spec fn pattern_of(glob: globset::Glob) -> Seq<char>;

/// The patterns of the globs collected so far.
pub uninterp spec fn collected(builder: globset::GlobSetBuilder) -> Seq<Seq<char>>;

/// The patterns of the globs of a set.
pub uninterp spec fn globs_of(set: globset::GlobSet) -> Seq<Seq<char>>;

/// `globset::Glob::new`, asked only whether it accepts the pattern. Claimed of it: the answer
/// depends on the pattern alone.
#[verifier::external_body]
fn is_glob(pattern: &str) -> (r: bool)
    ensures
        r == is_glob_v(pattern@),
{
    globset::Glob::new(pattern).is_ok()
}

/// `build` of `globset::GlobBuilder` with `literal_separator(true)`: parses a pattern in which `*`
/// stops at a slash and `**` crosses directories. Claimed of it: whether it succeeds depends on
/// the pattern alone, and the glob keeps its pattern.
#[verifier::external_body]
fn path_glob(pattern: &str) -> (r: Result<globset::Glob, globset::Error>)
    ensures
        r is Ok == is_path_glob_v(pattern@),
        r matches Ok(g) ==> pattern_of(g) == pattern@,
{
    globset::GlobBuilder::new(pattern).literal_separator(true).build()
}

/// `globset::GlobSetBuilder::new`: nothing collected yet.
#[verifier::external_body]
fn builder_new() -> (r: globset::GlobSetBuilder)
    ensures
        collected(r) == Seq::<Seq<char>>::empty(),
{
    globset::GlobSetBuilder::new()
}

/// `globset::GlobSetBuilder::add`: collects one more glob.
#[verifier::external_body]
fn builder_add(builder: &mut globset::GlobSetBuilder, glob: globset::Glob)
    ensures
        collected(*final(builder)) == collected(*old(builder)).push(pattern_of(glob)),
{
    builder.add(glob);
}

/// `globset::GlobSetBuilder::build`: compiles the collected globs. Claimed of it: whether it
/// succeeds depends on the patterns alone, and the set holds them.
#[verifier::external_body]
fn builder_build(builder: &globset::GlobSetBuilder) -> (r: Result<globset::GlobSet, globset::Error>)
    ensures
        r is Ok == globs_compile_v(collected(*builder)),
        r matches Ok(s) ==> globs_of(s) == collected(*builder),
{
    builder.build()
}

/// Whether one of some glob patterns matches a path.
pub open spec fn any_matches_v(patterns: Seq<Seq<char>>, path: Seq<char>) -> bool {
    exists|i: int| 0 <= i < patterns.len() && glob_matches_v(#[trigger] patterns[i], path)
}

/// `globset::GlobSet::is_match`: whether any glob of the set matches the path.
#[verifier::external_body]
fn set_matches(set: &globset::GlobSet, path: &str) -> (r: bool)
    ensures
        r == (exists|i: int|
            0 <= i < globs_of(*set).len() && glob_matches_v(#[trigger] globs_of(*set)[i], path@)),
{
    set.is_match(path)
}

// ---- The file's contents ----

/// What the file holds.
#[derive(Debug)]
pub struct RawConfig {
    pub group: Vec<RawGroup>,
    pub explain: Option<RawExplain>,
}

/// One `[[group]]`.
#[derive(Debug)]
pub struct RawGroup {
    pub name: String,
    pub patterns: Vec<String>,
}

/// The `[explain]` table.
#[derive(Debug)]
pub struct RawExplain {
    pub model: Option<String>,
}

/// The name and the patterns of a group.
#[verifier::ext_equal]
pub ghost struct GroupPatternsV {
    pub name: Seq<char>,
    pub patterns: Seq<Seq<char>>,
}

impl DeepView for RawGroup {
    type V = GroupPatternsV;

    open spec fn deep_view(&self) -> GroupPatternsV {
        GroupPatternsV { name: self.name@, patterns: self.patterns.deep_view() }
    }
}

impl RawConfig {
    /// The name given for the model, if any.
    pub open spec fn model_name(self) -> Option<Seq<char>> {
        match self.explain {
            Some(e) => e.model.deep_view(),
            None => None,
        }
    }
}

/// A usable configuration.
pub struct Config {
    groups: Vec<GroupMatcher>,
    explain_model: Option<ExplainModel>,
}

/// A group with its compiled patterns.
struct GroupMatcher {
    name: String,
    set: globset::GlobSet,
}

/// The mathematical value of a [`Config`].
#[verifier::ext_equal]
pub ghost struct ConfigV {
    pub groups: Seq<GroupPatternsV>,
    pub explain_model: Option<ExplainModel>,
}

impl GroupMatcher {
    spec fn value(self) -> GroupPatternsV {
        GroupPatternsV { name: self.name@, patterns: globs_of(self.set) }
    }
}

impl View for Config {
    type V = ConfigV;

    closed spec fn view(&self) -> ConfigV {
        ConfigV {
            groups: self.groups@.map_values(|g: GroupMatcher| g.value()),
            explain_model: self.explain_model,
        }
    }
}

/// Why a configuration cannot be used.
#[derive(Debug)]
pub enum ConfigError {
    /// A pattern that is no glob, and the group that it stands in.
    InvalidGlob { pattern: String, group: String },
    /// A group whose patterns could not be compiled together.
    GlobSet,
}

/// The mathematical value of a [`ConfigError`].
#[verifier::ext_equal]
pub ghost enum ConfigErrorV {
    InvalidGlob { pattern: Seq<char>, group: Seq<char> },
    GlobSet,
}

impl DeepView for ConfigError {
    type V = ConfigErrorV;

    open spec fn deep_view(&self) -> ConfigErrorV {
        match self {
            ConfigError::InvalidGlob { pattern, group } => ConfigErrorV::InvalidGlob {
                pattern: pattern@,
                group: group@,
            },
            ConfigError::GlobSet => ConfigErrorV::GlobSet,
        }
    }
}

impl ConfigErrorV {
    /// The text of an error.
    pub open spec fn message(self) -> Seq<char> {
        match self {
            ConfigErrorV::InvalidGlob { pattern, group } => "invalid glob `"@ + pattern
                + "` in group `"@ + group + "`"@,
            ConfigErrorV::GlobSet => "failed to build glob set"@,
        }
    }
}

impl ConfigError {
    /// The error as it is shown.
    pub fn message(&self) -> (r: String)
        ensures
            r@ == self.deep_view().message(),
    {
        match self {
            ConfigError::InvalidGlob { pattern, group } => {
                let mut s = "invalid glob `".to_owned();
                s.append(pattern.as_str());
                s.append("` in group `");
                s.append(group.as_str());
                s.append("`");
                s
            },
            ConfigError::GlobSet => "failed to build glob set".to_owned(),
        }
    }
}

/// A pattern is accepted.
pub open spec fn accepted_v(pattern: Seq<char>) -> bool {
    is_glob_v(pattern) && is_path_glob_v(pattern)
}

/// The first of a group's patterns that is no glob, from index `i` on.
pub open spec fn bad_pattern_v(patterns: Seq<Seq<char>>, i: int) -> Option<Seq<char>>
    decreases patterns.len() - i,
{
    if i < 0 || i >= patterns.len() {
        None
    } else if !accepted_v(patterns[i]) {
        Some(patterns[i])
    } else {
        bad_pattern_v(patterns, i + 1)
    }
}

/// What is wrong with a group, if anything.
pub open spec fn group_error_v(g: GroupPatternsV) -> Option<ConfigErrorV> {
    match bad_pattern_v(g.patterns, 0) {
        Some(pattern) => Some(ConfigErrorV::InvalidGlob { pattern, group: g.name }),
        None => if globs_compile_v(g.patterns) {
            None
        } else {
            Some(ConfigErrorV::GlobSet)
        },
    }
}

/// What is wrong with the first bad group from index `i` on, if there is one.
pub open spec fn groups_error_v(groups: Seq<GroupPatternsV>, i: int) -> Option<ConfigErrorV>
    decreases groups.len() - i,
{
    if i < 0 || i >= groups.len() {
        None
    } else {
        match group_error_v(groups[i]) {
            Some(e) => Some(e),
            None => groups_error_v(groups, i + 1),
        }
    }
}

/// The model that a configuration names, where it is a known one.
pub open spec fn model_v(name: Option<Seq<char>>) -> Option<ExplainModel> {
    match name {
        Some(n) => ExplainModel::from_name_v(n),
        None => None,
    }
}

/// The directories in which to look for a configuration: `dir`, then each parent up to `root`.
pub open spec fn search_dirs_v(dir: Seq<char>, root: Seq<char>) -> Seq<Seq<char>>
    decreases dir.len(),
{
    if path::path_key_v(dir) == path::path_key_v(root) {
        seq![dir]
    } else {
        match path::parent_v(dir) {
            Some(p) => {
                proof {
                    crate::path::lemma_parent_shorter(dir);
                }
                seq![dir] + search_dirs_v(p, root)
            },
            None => seq![dir],
        }
    }
}

impl Config {
    /// The files in which to look for a configuration, in order: `.rudiff.toml` in `start`, then
    /// in each directory above it up to the repository's root. The first that exists counts.
    pub fn discover(start: &str, repo_root: &str) -> (r: Vec<String>)
        ensures
            r.deep_view() == search_dirs_v(start@, repo_root@).map_values(
                |d: Seq<char>| path::join_path_v(d, ".rudiff.toml"@),
            ),
    {
        let ghost all = search_dirs_v(start@, repo_root@);
        let ghost f = |d: Seq<char>| path::join_path_v(d, ".rudiff.toml"@);
        let mut root_key: Vec<u64> = Vec::new();
        push_path_key(&mut root_key, repo_root);
        assert(root_key@ =~= path::path_key_v(repo_root@));
        let mut out: Vec<String> = Vec::new();
        let mut dir: String = start.to_owned();
        assert(out.deep_view() =~= Seq::empty());
        assert(Seq::<Seq<char>>::empty() + all.map_values(f) =~= all.map_values(f));
        loop
            invariant
                root_key@ == path::path_key_v(repo_root@),
                out.deep_view() + search_dirs_v(dir@, repo_root@).map_values(f)
                    == all.map_values(f),
                f == |d: Seq<char>| path::join_path_v(d, ".rudiff.toml"@),
                all == search_dirs_v(start@, repo_root@),
            decreases dir@.len(),
        {
            let ghost before = out.deep_view();
            let ghost rest = search_dirs_v(dir@, repo_root@);
            let candidate = join_path(dir.as_str(), ".rudiff.toml");
            out.push(candidate);
            assert(out.deep_view() =~= before.push(candidate@));
            let mut key: Vec<u64> = Vec::new();
            push_path_key(&mut key, dir.as_str());
            assert(key@ =~= path::path_key_v(dir@));
            if same_key(&key, &root_key) {
                assert(rest.map_values(f) =~= seq![candidate@]);
                assert(out.deep_view() =~= all.map_values(f));
                return out;
            }
            let up = parent(dir.as_str());
            proof {
                crate::path::lemma_parent_shorter(dir@);
            }
            match up {
                Some(p) => {
                    assert(path::parent_v(dir@) == Some(p@));
                    let ghost tail = search_dirs_v(p@, repo_root@);
                    assert(rest =~= seq![dir@] + tail);
                    assert(rest.map_values(f) =~= seq![candidate@] + tail.map_values(f));
                    assert(out.deep_view() + tail.map_values(f) =~= all.map_values(f));
                    dir = p;
                },
                None => {
                    assert(rest.map_values(f) =~= seq![candidate@]);
                    assert(out.deep_view() =~= all.map_values(f));
                    return out;
                },
            }
        }
    }

    /// The configuration that the contents of a file give, or what is wrong with the first bad
    /// group. An unknown model is passed over, so that a slip in it does not lose the groups.
    pub fn parse(raw: RawConfig) -> (r: Result<Config, ConfigError>)
        ensures
            match r {
                Ok(c) => groups_error_v(raw.group.deep_view(), 0) is None && c@ == (ConfigV {
                    groups: raw.group.deep_view(),
                    explain_model: model_v(raw.model_name()),
                }),
                Err(e) => groups_error_v(raw.group.deep_view(), 0) == Some(e.deep_view()),
            },
    {
        let ghost gs = raw.group.deep_view();
        let mut groups: Vec<GroupMatcher> = Vec::new();
        let mut i: usize = 0;
        while i < raw.group.len()
            invariant
                i <= raw.group@.len(),
                gs == raw.group.deep_view(),
                groups_error_v(gs, 0) == groups_error_v(gs, i as int),
                groups@.map_values(|g: GroupMatcher| g.value()) =~= gs.take(i as int),
            decreases raw.group@.len() - i,
        {
            let ghost before = groups@;
            assert(gs[i as int] == raw.group@[i as int].deep_view());
            match compile_group(&raw.group[i]) {
                Ok(set) => {
                    let g = GroupMatcher { name: raw.group[i].name.clone(), set };
                    assert(g.value() =~= gs[i as int]);
                    groups.push(g);
                    assert(groups@.map_values(|g: GroupMatcher| g.value()) =~= before.map_values(
                        |g: GroupMatcher| g.value(),
                    ).push(g.value()));
                },
                Err(e) => {
                    return Err(e);
                },
            }
            i = i + 1;
        }
        assert(gs.take(gs.len() as int) =~= gs);
        let explain_model: Option<ExplainModel> = match &raw.explain {
            Some(e) => match &e.model {
                Some(m) => ExplainModel::from_name(m.as_str()),
                None => None,
            },
            None => None,
        };
        Ok(Config { groups, explain_model })
    }

    /// The configured model for the `e` command, if any.
    pub fn explain_model(&self) -> (r: Option<ExplainModel>)
        ensures
            r == self@.explain_model,
    {
        self.explain_model
    }

    /// The indices of the groups that a path belongs to, ascending; none means "Other".
    pub fn groups_for(&self, path: &str) -> (r: Vec<usize>)
        ensures
            r@ == groups_for_v(self@.groups, path@, self@.groups.len()),
    {
        let ghost gs = self@.groups;
        let mut out: Vec<usize> = Vec::new();
        let mut i: usize = 0;
        while i < self.groups.len()
            invariant
                i <= self.groups@.len(),
                gs == self@.groups,
                out@ == groups_for_v(gs, path@, i as nat),
            decreases self.groups@.len() - i,
        {
            assert(gs[i as int] == self.groups@[i as int].value());
            if set_matches(&self.groups[i].set, path) {
                out.push(i);
            }
            i = i + 1;
        }
        out
    }

    /// The names of the groups, in order.
    pub fn group_names(&self) -> (r: Vec<String>)
        ensures
            r.deep_view() == self@.groups.map_values(|g: GroupPatternsV| g.name),
    {
        let ghost want = self@.groups.map_values(|g: GroupPatternsV| g.name);
        let mut out: Vec<String> = Vec::new();
        let mut i: usize = 0;
        while i < self.groups.len()
            invariant
                i <= self.groups@.len(),
                want == self@.groups.map_values(|g: GroupPatternsV| g.name),
                out.deep_view() =~= want.take(i as int),
            decreases self.groups@.len() - i,
        {
            let ghost before = out.deep_view();
            let name = self.groups[i].name.clone();
            assert(want[i as int] == name@);
            out.push(name);
            assert(out.deep_view() =~= before.push(name@));
            i = i + 1;
        }
        assert(want.take(want.len() as int) =~= want);
        out
    }
}

/// The indices among the first `k` groups of those that a path belongs to, ascending.
pub open spec fn groups_for_v(groups: Seq<GroupPatternsV>, path: Seq<char>, k: nat) -> Seq<usize>
    decreases k,
{
    if k == 0 {
        Seq::empty()
    } else if any_matches_v(groups[k - 1].patterns, path) {
        groups_for_v(groups, path, (k - 1) as nat).push((k - 1) as usize)
    } else {
        groups_for_v(groups, path, (k - 1) as nat)
    }
}

/// Are two sort keys the same?
fn same_key(a: &Vec<u64>, b: &Vec<u64>) -> (r: bool)
    ensures
        r == (a@ == b@),
{
    if a.len() != b.len() {
        return false;
    }
    let mut i: usize = 0;
    while i < a.len()
        invariant
            i <= a@.len() == b@.len(),
            forall|j: int| 0 <= j < i ==> a@[j] == b@[j],
        decreases a@.len() - i,
    {
        if a[i] != b[i] {
            return false;
        }
        i = i + 1;
    }
    assert(a@ =~= b@);
    true
}

/// The compiled patterns of a group, or what is wrong with it.
fn compile_group(g: &RawGroup) -> (r: Result<globset::GlobSet, ConfigError>)
    ensures
        match r {
            Ok(set) => group_error_v(g.deep_view()) is None && globs_of(set)
                == g.deep_view().patterns,
            Err(e) => group_error_v(g.deep_view()) == Some(e.deep_view()),
        },
{
    let ghost ps = g.patterns.deep_view();
    let mut builder = builder_new();
    let mut i: usize = 0;
    while i < g.patterns.len()
        invariant
            i <= g.patterns@.len(),
            ps == g.patterns.deep_view(),
            bad_pattern_v(ps, 0) == bad_pattern_v(ps, i as int),
            collected(builder) =~= ps.take(i as int),
        decreases g.patterns@.len() - i,
    {
        assert(ps[i as int] == g.patterns@[i as int]@);
        let pattern = &g.patterns[i];
        let bad = ConfigError::InvalidGlob { pattern: pattern.clone(), group: g.name.clone() };
        if !is_glob(pattern.as_str()) {
            return Err(bad);
        }
        match path_glob(pattern.as_str()) {
            Ok(glob) => {
                builder_add(&mut builder, glob);
            },
            Err(_) => {
                return Err(bad);
            },
        }
        i = i + 1;
    }
    assert(ps.take(ps.len() as int) =~= ps);
    match builder_build(&builder) {
        Ok(set) => Ok(set),
        Err(_) => Err(ConfigError::GlobSet),
    }
}

// ---- Where a configuration is found, and when it is refused ----

/// A configuration is looked for from a directory upwards: in the directory, then in the parent of
/// each one before, and no further than the root.
pub proof fn law_search_dirs(dir: Seq<char>, root: Seq<char>)
    ensures
        ({
            let dirs = search_dirs_v(dir, root);
            &&& dirs.len() > 0
            &&& dirs[0] == dir
            &&& forall|i: int|
                0 <= i < dirs.len() - 1 ==> path::parent_v(#[trigger] dirs[i]) == Some(dirs[i + 1])
                    && path::path_key_v(dirs[i]) != path::path_key_v(root)
            &&& path::path_key_v(dirs.last()) == path::path_key_v(root) || path::parent_v(
                dirs.last(),
            ) is None
        }),
    decreases dir.len(),
{
    if path::path_key_v(dir) != path::path_key_v(root) {
        if let Some(p) = path::parent_v(dir) {
            path::lemma_parent_shorter(dir);
            law_search_dirs(p, root);
            let dirs = search_dirs_v(dir, root);
            let rest = search_dirs_v(p, root);
            assert(dirs =~= seq![dir] + rest);
            assert(dirs.last() == rest.last());
            assert forall|i: int| 0 <= i < dirs.len() - 1 implies path::parent_v(#[trigger] dirs[i])
                == Some(dirs[i + 1]) && path::path_key_v(dirs[i]) != path::path_key_v(root) by {
                if i > 0 {
                    assert(dirs[i] == rest[i - 1]);
                    assert(dirs[i + 1] == rest[i]);
                } else {
                    assert(dirs[1] == rest[0]);
                }
            }
        }
    }
}

proof fn lemma_bad_pattern(patterns: Seq<Seq<char>>, i: int)
    requires
        0 <= i <= patterns.len(),
    ensures
        bad_pattern_v(patterns, i) is None <==> forall|j: int|
            i <= j < patterns.len() ==> accepted_v(#[trigger] patterns[j]),
        bad_pattern_v(patterns, i) matches Some(p) ==> exists|k: int|
            i <= k < patterns.len() && #[trigger] patterns[k] == p && !accepted_v(p) && forall|
                j: int,
            |
                i <= j < k ==> accepted_v(#[trigger] patterns[j]),
    decreases patterns.len() - i,
{
    if i < patterns.len() {
        if accepted_v(patterns[i]) {
            lemma_bad_pattern(patterns, i + 1);
            if let Some(p) = bad_pattern_v(patterns, i + 1) {
                let k = choose|k: int|
                    i + 1 <= k < patterns.len() && #[trigger] patterns[k] == p && !accepted_v(p)
                        && forall|j: int|
                        i + 1 <= j < k ==> accepted_v(#[trigger] patterns[j]);
                assert(patterns[k] == p);
            }
        } else {
            assert(!accepted_v(patterns[i]));
        }
    }
}

/// A group is refused exactly where a pattern of it is not a glob or not one for paths, and then
/// for its first such pattern, or where its patterns do not compile together.
pub proof fn law_group_errors(g: GroupPatternsV)
    ensures
        group_error_v(g) is None <==> (forall|j: int|
            0 <= j < g.patterns.len() ==> accepted_v(#[trigger] g.patterns[j]))
            && globs_compile_v(g.patterns),
        group_error_v(g) matches Some(ConfigErrorV::InvalidGlob { pattern, group }) ==> group
            == g.name && exists|k: int|
            0 <= k < g.patterns.len() && #[trigger] g.patterns[k] == pattern && !accepted_v(pattern)
                && forall|j: int| 0 <= j < k ==> accepted_v(#[trigger] g.patterns[j]),
{
    lemma_bad_pattern(g.patterns, 0);
}

/// A configuration is refused for its first group that is, and accepted where none is.
pub proof fn law_config_errors(groups: Seq<GroupPatternsV>, i: int)
    requires
        0 <= i <= groups.len(),
    ensures
        groups_error_v(groups, i) is None <==> forall|j: int|
            i <= j < groups.len() ==> group_error_v(#[trigger] groups[j]) is None,
        groups_error_v(groups, i) matches Some(e) ==> exists|k: int|
            i <= k < groups.len() && group_error_v(#[trigger] groups[k]) == Some(e) && forall|
                j: int,
            |
                i <= j < k ==> group_error_v(#[trigger] groups[j]) is None,
    decreases groups.len() - i,
{
    if i < groups.len() {
        if group_error_v(groups[i]) is None {
            law_config_errors(groups, i + 1);
            if let Some(e) = groups_error_v(groups, i + 1) {
                let k = choose|k: int|
                    i + 1 <= k < groups.len() && group_error_v(#[trigger] groups[k]) == Some(e)
                        && forall|j: int|
                        i + 1 <= j < k ==> group_error_v(#[trigger] groups[j]) is None;
                assert(group_error_v(groups[k]) == Some(e));
            }
        } else {
            assert(group_error_v(groups[i]) is Some);
        }
    }
}

/// The groups of a path come in the order of the configuration, each once.
pub proof fn law_groups_in_order(groups: Seq<GroupPatternsV>, path: Seq<char>, k: nat)
    requires
        k <= groups.len() <= usize::MAX,
    ensures
        forall|i: int, j: int|
            0 <= i < j < groups_for_v(groups, path, k).len() ==> (#[trigger] groups_for_v(
                groups,
                path,
                k,
            )[i]) < (#[trigger] groups_for_v(groups, path, k)[j]),
        forall|i: int|
            0 <= i < groups_for_v(groups, path, k).len() ==> (#[trigger] groups_for_v(
                groups,
                path,
                k,
            )[i]) < k,
    decreases k,
{
    if k > 0 {
        law_groups_in_order(groups, path, (k - 1) as nat);
        let before = groups_for_v(groups, path, (k - 1) as nat);
        let all = groups_for_v(groups, path, k);
        assert forall|i: int| 0 <= i < all.len() implies (#[trigger] all[i]) < k && (i
            < before.len() ==> all[i] == before[i]) by {
            if i < before.len() {
                assert(all[i] == before[i]);
            }
        }
        assert forall|i: int, j: int| 0 <= i < j < all.len() implies (#[trigger] all[i]) < (
        #[trigger] all[j]) by {
            if j < before.len() {
                assert(all[i] == before[i] && all[j] == before[j]);
            } else {
                assert(all[i] == before[i]);
            }
        }
    }
}

} // verus!
