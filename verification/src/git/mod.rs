//! What a changeset between two git trees is, and how it is derived from tree changes and blobs.
//!
//! The repository is read outside; here are the decisions: what a range argument compares, what
//! becomes of a tree change, and what a file's diff shows.
pub mod diff;
pub mod laws;
pub mod model;

use vstd::prelude::*;
use vstd::string::*;
use vstd::utf8::*;

use crate::changes;
use crate::order;
use crate::path;
use crate::text;
use crate::changes::Tag;
use crate::git::diff::{
    build_file_diff, content_hash, count_stats, hasher_finish, hasher_new, hasher_write,
    looks_binary,
};
use crate::git::model::{
    Changeset, ChangesetV, CommitInfo, CommitV, DiffLine, FileChange, FileDiff, FileDiffV,
    FileStatus, FileV, Hunk, HunkV, LineV, ObjectId, Special,
};
use crate::order::{indices, sort_by_keys};
use crate::path::push_path_key;
use crate::text::{chars_of, find, from_utf8_lossy, slice_string, trim};

verus! {

broadcast use vstd::seq_lib::group_seq_properties;

// ---- Ranges ----

/// What a range argument compares.
#[derive(Debug)]
pub enum RangeSpec {
    /// The default branch and the current commit, from their merge base.
    Default,
    /// A ref and the current commit, from their merge base.
    Base(String),
    /// Two refs; `three_dot` takes their merge base in place of the first.
    Range { base: String, head: String, three_dot: bool },
}

/// The mathematical value of a [`RangeSpec`].
#[verifier::ext_equal]
pub ghost enum RangeV {
    Default,
    Base(Seq<char>),
    Range { base: Seq<char>, head: Seq<char>, three_dot: bool },
}

impl DeepView for RangeSpec {
    type V = RangeV;

    open spec fn deep_view(&self) -> RangeV {
        match self {
            RangeSpec::Default => RangeV::Default,
            RangeSpec::Base(b) => RangeV::Base(b@),
            RangeSpec::Range { base, head, three_dot } => RangeV::Range {
                base: base@,
                head: head@,
                three_dot: *three_dot,
            },
        }
    }
}

/// A ref without whitespace at its ends; the current commit where nothing is left.
pub open spec fn empty_to_head_v(s: Seq<char>) -> Seq<char> {
    if text::trim_v(s).len() == 0 {
        "HEAD"@
    } else {
        text::trim_v(s)
    }
}

/// What a range argument compares: `a...b` and `a..b` two refs, where a missing one is the current
/// commit; anything else is a ref by itself, and nothing is the default.
pub open spec fn parse_range_v(arg: Option<Seq<char>>) -> RangeV {
    match arg {
        None => RangeV::Default,
        Some(a) => {
            let s = text::trim_v(a);
            if s.len() == 0 {
                RangeV::Default
            } else {
                match text::find_v(s, "..."@) {
                    Some(i) => RangeV::Range {
                        base: empty_to_head_v(s.take(i)),
                        head: empty_to_head_v(s.skip(i + 3)),
                        three_dot: true,
                    },
                    None => match text::find_v(s, ".."@) {
                        Some(i) => RangeV::Range {
                            base: empty_to_head_v(s.take(i)),
                            head: empty_to_head_v(s.skip(i + 2)),
                            three_dot: false,
                        },
                        None => RangeV::Base(s),
                    },
                }
            }
        },
    }
}

fn empty_to_head(s: &str) -> (r: String)
    ensures
        r@ == empty_to_head_v(s@),
{
    let t = trim(s);
    if t.as_str().is_empty() {
        "HEAD".to_owned()
    } else {
        t
    }
}

/// The refs to both sides of a mark of `len` characters at `i`.
fn refs_around(cs: &Vec<char>, i: usize, len: usize) -> (r: (String, String))
    requires
        i + len <= cs@.len(),
    ensures
        r.0@ == empty_to_head_v(cs@.take(i as int)),
        r.1@ == empty_to_head_v(cs@.skip(i + len)),
{
    let n: usize = cs.len();
    let a = slice_string(cs, 0, i);
    let b = slice_string(cs, i + len, n);
    assert(a@ =~= cs@.take(i as int));
    assert(b@ =~= cs@.skip(i + len));
    (empty_to_head(a.as_str()), empty_to_head(b.as_str()))
}

impl RangeSpec {
    /// Reads a range argument.
    ///
    /// `A..B` compares directly; `A...B`, a ref by itself and no argument start from the merge
    /// base, as a pull request is shown.
    pub fn parse(arg: Option<&str>) -> (r: RangeSpec)
        ensures
            r.deep_view() == parse_range_v(
                match arg {
                    Some(a) => Some(a@),
                    None => None,
                },
            ),
    {
        let arg: &str = match arg {
            Some(a) => a,
            None => {
                return RangeSpec::Default;
            },
        };
        let s = trim(arg);
        if s.as_str().is_empty() {
            return RangeSpec::Default;
        }
        let cs = chars_of(s.as_str());
        proof {
            reveal_strlit("...");
            reveal_strlit("..");
        }
        let three = chars_of("...");
        let two = chars_of("..");
        match find(&cs, &three) {
            Some(i) => {
                let (base, head) = refs_around(&cs, i, 3);
                RangeSpec::Range { base, head, three_dot: true }
            },
            None => match find(&cs, &two) {
                Some(i) => {
                    let (base, head) = refs_around(&cs, i, 2);
                    RangeSpec::Range { base, head, three_dot: false }
                },
                None => RangeSpec::Base(s),
            },
        }
    }
}

/// The refs that a range is resolved to, before the repository is asked.
#[derive(Debug)]
pub struct RefPlan {
    pub base: String,
    pub head: String,
    /// Whether to compare from the merge base.
    pub three_dot: bool,
    /// The name of the head as it is shown.
    pub head_name: String,
}

/// The mathematical value of a [`RefPlan`].
#[verifier::ext_equal]
pub ghost struct RefPlanV {
    pub base: Seq<char>,
    pub head: Seq<char>,
    pub three_dot: bool,
    pub head_name: Seq<char>,
}

impl DeepView for RefPlan {
    type V = RefPlanV;

    open spec fn deep_view(&self) -> RefPlanV {
        RefPlanV {
            base: self.base@,
            head: self.head@,
            three_dot: self.three_dot,
            head_name: self.head_name@,
        }
    }
}

/// The comparison of a ref with the current commit, which is shown by its branch where it has one.
pub open spec fn with_head_v(base: Seq<char>, branch: Option<Seq<char>>) -> RefPlanV {
    RefPlanV {
        base,
        head: "HEAD"@,
        three_dot: true,
        head_name: match branch {
            Some(b) => b,
            None => "HEAD"@,
        },
    }
}

/// The refs that a range is resolved to; `None` where it asks for a default branch and there is
/// none.
pub open spec fn resolve_v(
    spec: RangeV,
    default_branch: Option<Seq<char>>,
    branch: Option<Seq<char>>,
) -> Option<RefPlanV> {
    match spec {
        RangeV::Default => match default_branch {
            Some(b) => Some(with_head_v(b, branch)),
            None => None,
        },
        RangeV::Base(b) => Some(with_head_v(b, branch)),
        RangeV::Range { base, head, three_dot } => Some(
            RefPlanV { base, head, three_dot, head_name: head },
        ),
    }
}

/// The names that the default branch may have: what the remote's head points to, then `main`, then
/// `master`. The first that resolves counts.
pub open spec fn default_candidates_v(remote_head: Option<Seq<char>>) -> Seq<Seq<char>> {
    match remote_head {
        Some(name) => seq![name, "main"@, "master"@],
        None => seq!["main"@, "master"@],
    }
}

/// Does a text hold `n` dots in a row?
pub open spec fn has_dots(s: Seq<char>, n: int) -> bool {
    exists|i: int| #[trigger] dots_at(s, i, n)
}

/// Do `n` dots stand at `i`?
pub open spec fn dots_at(s: Seq<char>, i: int, n: int) -> bool {
    0 <= i && i + n <= s.len() && forall|j: int| i <= j < i + n ==> #[trigger] s[j] == '.'
}

/// A mark made of dots starts the rest of a text exactly where those dots stand.
proof fn lemma_dots_start(s: Seq<char>, mark: Seq<char>, n: int, j: int)
    requires
        mark.len() == n,
        forall|k: int| 0 <= k < n ==> #[trigger] mark[k] == '.',
        0 <= j <= s.len(),
    ensures
        mark.is_prefix_of(s.skip(j)) <==> dots_at(s, j, n),
{
    let t = s.skip(j);
    if mark.is_prefix_of(t) {
        assert(mark =~= t.subrange(0, n));
        assert forall|k: int| j <= k < j + n implies #[trigger] s[k] == '.' by {
            assert(t.subrange(0, n)[k - j] == s[k]);
            assert(mark[k - j] == '.');
        }
    }
    if dots_at(s, j, n) {
        assert forall|k: int| 0 <= k < n implies mark[k] == #[trigger] t.subrange(0, n)[k] by {
            assert(s[j + k] == '.');
        }
        assert(mark =~= t.subrange(0, n));
    }
}

/// Dots are found where they first stand, and only where they stand.
proof fn lemma_dots_found(s: Seq<char>, mark: Seq<char>, n: int)
    requires
        mark.len() == n,
        n > 0,
        forall|k: int| 0 <= k < n ==> #[trigger] mark[k] == '.',
    ensures
        text::find_v(s, mark) is Some <==> has_dots(s, n),
        text::find_v(s, mark) matches Some(i) ==> dots_at(s, i, n) && forall|j: int|
            0 <= j < i ==> !#[trigger] dots_at(s, j, n),
{
    text::lemma_find(s, mark);
    if has_dots(s, n) {
        let j = choose|j: int| #[trigger] dots_at(s, j, n);
        lemma_dots_start(s, mark, n, j);
    }
    if let Some(i) = text::find_v(s, mark) {
        lemma_dots_start(s, mark, n, i);
        assert forall|j: int| 0 <= j < i implies !#[trigger] dots_at(s, j, n) by {
            lemma_dots_start(s, mark, n, j);
            assert(!mark.is_prefix_of(s.skip(j)));
        }
    }
}

/// What a range argument comes to. Two refs with two dots between them are compared with one
/// another; everything else is compared from the merge base, as a pull request is. An argument
/// without two dots is a ref that the current commit is compared with, and the default branch takes
/// its place where there is no argument; the current commit goes by its branch.
pub proof fn law_range_arguments(
    arg: Option<Seq<char>>,
    default_branch: Option<Seq<char>>,
    branch: Option<Seq<char>>,
)
    ensures
        ({
            let plan = resolve_v(parse_range_v(arg), default_branch, branch);
            let s = match arg {
                Some(a) => text::trim_v(a),
                None => Seq::empty(),
            };
            let shown = match branch {
                Some(b) => b,
                None => "HEAD"@,
            };
            &&& plan is None <==> s.len() == 0 && default_branch is None
            &&& plan matches Some(p) ==> (p.three_dot <==> !has_dots(s, 2) || has_dots(s, 3))
            &&& s.len() == 0 ==> (default_branch matches Some(b) ==> plan == Some(
                RefPlanV { base: b, head: "HEAD"@, three_dot: true, head_name: shown },
            ))
            &&& s.len() > 0 && !has_dots(s, 2) ==> plan == Some(
                RefPlanV { base: s, head: "HEAD"@, three_dot: true, head_name: shown },
            )
        }),
{
    reveal_strlit("...");
    reveal_strlit("..");
    let s = match arg {
        Some(a) => text::trim_v(a),
        None => Seq::empty(),
    };
    assert("..."@ =~= seq!['.', '.', '.']);
    assert(".."@ =~= seq!['.', '.']);
    lemma_dots_found(s, "..."@, 3);
    lemma_dots_found(s, ".."@, 2);
    if has_dots(s, 3) {
        let i = choose|i: int| #[trigger] dots_at(s, i, 3);
        assert(dots_at(s, i, 2));
    }
    if s.len() == 0 {
        if has_dots(s, 2) {
            let i = choose|i: int| #[trigger] dots_at(s, i, 2);
            assert(false);
        }
    }
}

/// Can a text be a ref in a range: without whitespace or a dot at its ends, and without two dots in
/// a row?
pub open spec fn is_ref(a: Seq<char>) -> bool {
    &&& a.len() > 0
    &&& !text::white(a[0]) && !text::white(a.last())
    &&& a[0] != '.' && a.last() != '.'
    &&& !has_dots(a, 2)
}

/// Where the dots stand in a range.
proof fn lemma_range_dots(a: Seq<char>, b: Seq<char>, n: int)
    requires
        a.len() == 0 || is_ref(a),
        b.len() == 0 || is_ref(b),
        n == 2 || n == 3,
    ensures
        ({
            let s = a + Seq::new(n as nat, |i: int| '.') + b;
            &&& dots_at(s, a.len() as int, n)
            &&& forall|j: int| 0 <= j < a.len() ==> !#[trigger] dots_at(s, j, 2)
            &&& n == 2 ==> !has_dots(s, 3)
        }),
{
    let mark = Seq::new(n as nat, |i: int| '.');
    let s = a + mark + b;
    let m = a.len() as int;
    assert forall|j: int| 0 <= j < m implies !#[trigger] dots_at(s, j, 2) by {
        if dots_at(s, j, 2) {
            assert(s[j] == '.' && s[j + 1] == '.');
            assert(s[j] == a[j]);
            if j + 1 < m {
                assert(s[j + 1] == a[j + 1]);
                assert(dots_at(a, j, 2));
            }
        }
    }
    if n == 2 && has_dots(s, 3) {
        let j = choose|j: int| #[trigger] dots_at(s, j, 3);
        assert(s[j] == '.' && s[j + 1] == '.' && s[j + 2] == '.');
        if j < m {
            assert(dots_at(s, j, 2));
        } else if j < m + 2 {
            assert(s[m + 2] == b[0]);
        } else {
            assert(s[j] == b[j - m - 2] && s[j + 1] == b[j - m - 1]);
            assert(dots_at(b, j - m - 2, 2));
        }
    }
}

/// A text that neither starts nor ends with whitespace is trimmed.
proof fn lemma_trimmed(s: Seq<char>)
    requires
        s.len() > 0,
        !text::white(s[0]),
        !text::white(s.last()),
    ensures
        text::trim_v(s) == s,
{
}

/// Where a range is cut.
proof fn lemma_range_cut(a: Seq<char>, b: Seq<char>, n: int)
    requires
        a.len() == 0 || is_ref(a),
        b.len() == 0 || is_ref(b),
        n == 2 || n == 3,
    ensures
        ({
            let s = a + Seq::new(n as nat, |i: int| '.') + b;
            &&& text::find_v(s, "..."@) == (if n == 3 {
                Some(a.len() as int)
            } else {
                None
            })
            &&& n == 2 ==> text::find_v(s, ".."@) == Some(a.len() as int)
        }),
{
    let s = a + Seq::new(n as nat, |i: int| '.') + b;
    let m = a.len() as int;
    lemma_range_dots(a, b, n);
    reveal_strlit("...");
    reveal_strlit("..");
    lemma_dots_found(s, "..."@, 3);
    lemma_dots_found(s, ".."@, 2);
    if n == 3 {
        assert(has_dots(s, 3));
        let i = text::find_v(s, "..."@)->0;
        if i < m {
            assert(dots_at(s, i, 2));
        }
    } else {
        assert(has_dots(s, 2));
        let i = text::find_v(s, ".."@)->0;
        if i < m {
            assert(dots_at(s, i, 2));
        }
    }
}

/// A range of refs is trimmed, and its sides are the refs.
proof fn lemma_range_sides(a: Seq<char>, b: Seq<char>, n: int)
    requires
        a.len() == 0 || is_ref(a),
        b.len() == 0 || is_ref(b),
        n == 2 || n == 3,
    ensures
        ({
            let s = a + Seq::new(n as nat, |i: int| '.') + b;
            &&& s.len() > 0
            &&& text::trim_v(s) == s
            &&& s.take(a.len() as int) == a
            &&& s.skip(a.len() as int + n) == b
            &&& text::trim_v(a) == a
            &&& text::trim_v(b) == b
        }),
{
    let s = a + Seq::new(n as nat, |i: int| '.') + b;
    let m = a.len() as int;
    assert(!text::white('.'));
    assert(s[0] == (if a.len() > 0 {
        a[0]
    } else {
        '.'
    }));
    assert(s.last() == (if b.len() > 0 {
        b.last()
    } else {
        '.'
    }));
    lemma_trimmed(s);
    assert(s.take(m) =~= a);
    assert(s.skip(m + n) =~= b);
    if a.len() > 0 {
        lemma_trimmed(a);
    }
    if b.len() > 0 {
        lemma_trimmed(b);
    }
}

/// `a..b` compares `a` with `b`, and `a...b` compares `b` with what it has in common with `a`; a
/// missing side is the current commit, and `b` is shown as it is written.
pub proof fn law_ranges_of_refs(
    a: Seq<char>,
    b: Seq<char>,
    default_branch: Option<Seq<char>>,
    branch: Option<Seq<char>>,
    n: int,
)
    requires
        a.len() == 0 || is_ref(a),
        b.len() == 0 || is_ref(b),
        n == 2 || n == 3,
    ensures
        ({
            let arg = a + Seq::new(n as nat, |i: int| '.') + b;
            let base = if a.len() == 0 {
                "HEAD"@
            } else {
                a
            };
            let head = if b.len() == 0 {
                "HEAD"@
            } else {
                b
            };
            resolve_v(parse_range_v(Some(arg)), default_branch, branch) == Some(
                RefPlanV { base, head, three_dot: n == 3, head_name: head },
            )
        }),
{
    lemma_range_sides(a, b, n);
    lemma_range_cut(a, b, n);
}

// ---- Commits ----

/// How many commits of a range are listed at most.
pub const MAX_COMMITS: usize = 10_000;

/// A text of a commit: decoded, without whitespace at its ends, empty where it is missing.
pub open spec fn commit_text_v(bytes: Option<Seq<u8>>) -> Seq<char> {
    match bytes {
        Some(b) => text::trim_v(text::lossy_v(b)),
        None => Seq::empty(),
    }
}

fn commit_text(bytes: &Option<Vec<u8>>) -> (r: String)
    ensures
        r@ == commit_text_v(
            match bytes {
                Some(b) => Some(b@),
                None => None,
            },
        ),
{
    match bytes {
        Some(b) => {
            let s = from_utf8_lossy(b.as_slice());
            trim(s.as_str())
        },
        None => String::new(),
    }
}

/// The bytes of an optional blob or text.
pub open spec fn bytes_view(bytes: &Option<Vec<u8>>) -> Option<Seq<u8>> {
    match bytes {
        Some(b) => Some(b@),
        None => None,
    }
}

/// What is kept of a commit: author and summary without whitespace at their ends, and the time at
/// which it was written (zero where it is missing).
pub fn commit_info(
    id: ObjectId,
    summary: &Option<Vec<u8>>,
    author: &Option<Vec<u8>>,
    time_secs: Option<i64>,
) -> (r: CommitInfo)
    ensures
        r.deep_view() == (CommitV {
            id: id.deep_view(),
            summary: commit_text_v(bytes_view(summary)),
            author: commit_text_v(bytes_view(author)),
            time_secs: match time_secs {
                Some(t) => t,
                None => 0,
            },
        }),
{
    CommitInfo {
        id,
        summary: commit_text(summary),
        author: commit_text(author),
        time_secs: match time_secs {
            Some(t) => t,
            None => 0,
        },
    }
}

// ---- Tree changes ----

/// What a tree entry is.
#[derive(Clone, Copy, PartialEq, Eq, Debug, Structural)]
pub enum EntryKind {
    Tree,
    Blob,
    BlobExecutable,
    Link,
    Commit,
}

/// A difference between two trees.
#[derive(Debug)]
pub enum TreeChange {
    Addition { location: String, kind: EntryKind, id: ObjectId },
    Deletion { location: String, kind: EntryKind, id: ObjectId },
    Modification { location: String, kind: EntryKind, previous_id: ObjectId, id: ObjectId },
    /// A rename, or a copy where `copy` is set.
    Rewrite {
        source_location: String,
        source_id: ObjectId,
        location: String,
        kind: EntryKind,
        id: ObjectId,
        copy: bool,
    },
}

/// What a tree change says of the file, before its contents are looked at.
#[verifier::ext_equal]
pub ghost struct EntryV {
    pub status: FileStatus,
    pub old_path: Option<Seq<char>>,
    pub path: Seq<char>,
    pub old_id: Option<Seq<u8>>,
    pub new_id: Option<Seq<u8>>,
    pub kind: EntryKind,
}

impl DeepView for TreeChange {
    type V = EntryV;

    open spec fn deep_view(&self) -> EntryV {
        match self {
            TreeChange::Addition { location, kind, id } => EntryV {
                status: FileStatus::Added,
                old_path: None,
                path: location@,
                old_id: None,
                new_id: Some(id.deep_view()),
                kind: *kind,
            },
            TreeChange::Deletion { location, kind, id } => EntryV {
                status: FileStatus::Deleted,
                old_path: None,
                path: location@,
                old_id: Some(id.deep_view()),
                new_id: None,
                kind: *kind,
            },
            TreeChange::Modification { location, kind, previous_id, id } => EntryV {
                status: FileStatus::Modified,
                old_path: None,
                path: location@,
                old_id: Some(previous_id.deep_view()),
                new_id: Some(id.deep_view()),
                kind: *kind,
            },
            TreeChange::Rewrite { source_location, source_id, location, kind, id, copy } => EntryV {
                status: if *copy {
                    FileStatus::Copied
                } else {
                    FileStatus::Renamed
                },
                old_path: Some(source_location@),
                path: location@,
                old_id: Some(source_id.deep_view()),
                new_id: Some(id.deep_view()),
                kind: *kind,
            },
        }
    }
}

/// What is read from a blob.
#[verifier::ext_equal]
pub ghost struct BlobV {
    pub text: Seq<char>,
    pub is_binary: bool,
    pub size: int,
}

/// What is read from a blob: its text where it is not binary. A missing blob reads as empty.
pub open spec fn read_blob_v(data: Option<Seq<u8>>) -> BlobV {
    match data {
        None => BlobV { text: Seq::empty(), is_binary: false, size: 0 },
        Some(b) => BlobV {
            text: if diff::looks_binary_v(b) {
                Seq::empty()
            } else {
                text::lossy_v(b)
            },
            is_binary: diff::looks_binary_v(b),
            size: b.len() as int,
        },
    }
}

/// The bytes of an optional id.
pub open spec fn id_bytes_v(id: Option<Seq<u8>>) -> Seq<u8> {
    match id {
        Some(b) => b,
        None => Seq::empty(),
    }
}

/// The hash of a file whose contents are not diffed: of its path and its ids.
pub open spec fn id_hash_v(path: Seq<char>, old_id: Option<Seq<u8>>, new_id: Option<Seq<u8>>) -> u64 {
    diff::sea_hash_v(encode_utf8(path) + id_bytes_v(old_id) + id_bytes_v(new_id))
}

fn id_hash(path: &str, old_id: &Option<ObjectId>, new_id: &Option<ObjectId>) -> (r: u64)
    ensures
        r == id_hash_v(path@, old_id.deep_view(), new_id.deep_view()),
{
    let mut h = hasher_new();
    hasher_write(&mut h, path.as_bytes());
    assert(crate::git::diff::hashed(h) =~= encode_utf8(path@));
    if let Some(id) = old_id {
        hasher_write(&mut h, id.bytes.as_slice());
    }
    assert(crate::git::diff::hashed(h) =~= encode_utf8(path@) + id_bytes_v(old_id.deep_view()));
    if let Some(id) = new_id {
        hasher_write(&mut h, id.bytes.as_slice());
    }
    assert(crate::git::diff::hashed(h) =~= encode_utf8(path@) + id_bytes_v(old_id.deep_view())
        + id_bytes_v(new_id.deep_view()));
    hasher_finish(&h)
}

/// The file change that a tree change becomes, given the contents of both sides. A directory
/// becomes none. A submodule and a binary file have no line counts, and are hashed by their ids.
pub open spec fn change_to_file_v(
    e: EntryV,
    old_data: Option<Seq<u8>>,
    new_data: Option<Seq<u8>>,
) -> Option<FileV> {
    let a = read_blob_v(old_data);
    let b = read_blob_v(new_data);
    let opaque = FileV {
        path: e.path,
        old_path: e.old_path,
        status: e.status,
        additions: 0,
        deletions: 0,
        content_hash: id_hash_v(e.path, e.old_id, e.new_id),
        special: Special::Submodule,
        old_id: e.old_id,
        new_id: e.new_id,
    };
    if e.kind == EntryKind::Tree {
        None
    } else if e.kind == EntryKind::Commit {
        Some(opaque)
    } else if a.is_binary || b.is_binary {
        Some(
            FileV {
                special: Special::Binary { old_size: a.size as u64, new_size: b.size as u64 },
                ..opaque
            },
        )
    } else {
        Some(
            FileV {
                additions: diff::count_tag(changes::line_changes_v(a.text, b.text), Tag::Insert) as usize,
                deletions: diff::count_tag(changes::line_changes_v(a.text, b.text), Tag::Delete) as usize,
                content_hash: diff::content_hash_v(e.path, a.text, b.text),
                special: if e.kind == EntryKind::Link {
                    Special::Symlink
                } else {
                    Special::Plain
                },
                ..opaque
            },
        )
    }
}

impl TreeChange {
    /// Which blobs to read for the change: those of its two sides, but none for a directory, nor
    /// for a submodule, whose ids name commits of another repository.
    pub fn blobs(&self) -> (r: (Option<ObjectId>, Option<ObjectId>))
        ensures
            ({
                let e = self.deep_view();
                if e.kind == EntryKind::Tree || e.kind == EntryKind::Commit {
                    r.0 is None && r.1 is None
                } else {
                    r.0.deep_view() == e.old_id && r.1.deep_view() == e.new_id
                }
            }),
    {
        match self {
            TreeChange::Addition { kind, id, .. } => match kind {
                EntryKind::Tree | EntryKind::Commit => (None, None),
                _ => (None, Some(id.clone())),
            },
            TreeChange::Deletion { kind, id, .. } => match kind {
                EntryKind::Tree | EntryKind::Commit => (None, None),
                _ => (Some(id.clone()), None),
            },
            TreeChange::Modification { kind, previous_id, id, .. } => match kind {
                EntryKind::Tree | EntryKind::Commit => (None, None),
                _ => (Some(previous_id.clone()), Some(id.clone())),
            },
            TreeChange::Rewrite { kind, source_id, id, .. } => match kind {
                EntryKind::Tree | EntryKind::Commit => (None, None),
                _ => (Some(source_id.clone()), Some(id.clone())),
            },
        }
    }
}

/// What became of a file of the working tree: added where the last commit lacks it, deleted where
/// the working tree does, modified where the two contents have different ids.
pub open spec fn working_change_v(
    path: Seq<char>,
    kind: EntryKind,
    old_id: Option<Seq<u8>>,
    new_id: Option<Seq<u8>>,
) -> Option<EntryV> {
    if old_id == new_id {
        None
    } else {
        Some(
            EntryV {
                status: if old_id is None {
                    FileStatus::Added
                } else if new_id is None {
                    FileStatus::Deleted
                } else {
                    FileStatus::Modified
                },
                old_path: None,
                path,
                old_id,
                new_id,
                kind,
            },
        )
    }
}

/// Do two ids name the same object?
fn same_id(a: &ObjectId, b: &ObjectId) -> (r: bool)
    ensures
        r == (a.deep_view() == b.deep_view()),
{
    if a.bytes.len() != b.bytes.len() {
        return false;
    }
    let mut i: usize = 0;
    while i < a.bytes.len()
        invariant
            i <= a.bytes@.len() == b.bytes@.len(),
            a.bytes@.take(i as int) =~= b.bytes@.take(i as int),
        decreases a.bytes@.len() - i,
    {
        if a.bytes[i] != b.bytes[i] {
            return false;
        }
        i = i + 1;
    }
    assert(a.bytes@.take(a.bytes@.len() as int) =~= a.bytes@);
    assert(b.bytes@.take(b.bytes@.len() as int) =~= b.bytes@);
    true
}

/// What became of a file of the working tree, given the ids of its contents in the last commit and
/// on disk; `None` where it is unchanged.
pub fn working_change(
    path: String,
    kind: EntryKind,
    old_id: Option<ObjectId>,
    new_id: Option<ObjectId>,
) -> (r: Option<TreeChange>)
    ensures
        r.deep_view() == working_change_v(path@, kind, old_id.deep_view(), new_id.deep_view()),
{
    match (old_id, new_id) {
        (None, None) => None,
        (None, Some(id)) => Some(TreeChange::Addition { location: path, kind, id }),
        (Some(id), None) => Some(TreeChange::Deletion { location: path, kind, id }),
        (Some(previous_id), Some(id)) => {
            if same_id(&previous_id, &id) {
                None
            } else {
                Some(TreeChange::Modification { location: path, kind, previous_id, id })
            }
        },
    }
}

// ---- Contents ----

/// The line that shows a submodule's commit.
pub open spec fn subproject_v(id: Seq<u8>) -> Seq<char> {
    "Subproject commit "@ + model::hex_bytes_v(id)
}

/// The lines of a submodule's diff.
pub open spec fn subproject_lines_v(old_id: Option<Seq<u8>>, new_id: Option<Seq<u8>>) -> Seq<LineV> {
    (match old_id {
        Some(id) => seq![LineV::Removed { old_lineno: 1, content: subproject_v(id) }],
        None => Seq::empty(),
    }) + (match new_id {
        Some(id) => seq![LineV::Added { new_lineno: 1, content: subproject_v(id) }],
        None => Seq::empty(),
    })
}

/// The diff of a submodule: its commits, in one hunk.
pub open spec fn subproject_diff_v(old_id: Option<Seq<u8>>, new_id: Option<Seq<u8>>) -> FileDiffV {
    let lines = subproject_lines_v(old_id, new_id);
    FileDiffV {
        lines,
        hunks: seq![
            HunkV {
                old_start: 1,
                old_lines: if old_id is Some {
                    1
                } else {
                    0
                },
                new_start: 1,
                new_lines: if new_id is Some {
                    1
                } else {
                    0
                },
                function_context: None,
                start: 0,
                end: lines.len() as int,
            },
        ],
    }
}

/// The diff of a file, given the contents of both sides.
pub open spec fn load_file_diff_v(
    fc: FileV,
    old_data: Option<Seq<u8>>,
    new_data: Option<Seq<u8>>,
    context: nat,
    ignore_ws: bool,
) -> FileDiffV {
    match fc.special {
        Special::Binary { .. } => FileDiffV { lines: Seq::empty(), hunks: Seq::empty() },
        Special::Submodule => subproject_diff_v(fc.old_id, fc.new_id),
        _ => diff::build_file_diff_v(
            read_blob_v(old_data).text,
            read_blob_v(new_data).text,
            context,
            ignore_ws,
        ),
    }
}

/// The line that shows a submodule's commit.
fn subproject(id: &ObjectId) -> (r: String)
    ensures
        r@ == subproject_v(id.deep_view()),
{
    let mut s = "Subproject commit ".to_owned();
    let hex = id.to_hex();
    s.append(hex.as_str());
    s
}

/// The diff of a submodule: its commits, in one hunk.
fn subproject_diff(old_id: &Option<ObjectId>, new_id: &Option<ObjectId>) -> (r: FileDiff)
    ensures
        r.deep_view() == subproject_diff_v(old_id.deep_view(), new_id.deep_view()),
{
    let mut lines: Vec<DiffLine> = Vec::new();
    let mut old_lines: usize = 0;
    let mut new_lines: usize = 0;
    if let Some(id) = old_id {
        lines.push(DiffLine::Removed { old_lineno: 1, content: subproject(id) });
        old_lines = 1;
    }
    if let Some(id) = new_id {
        lines.push(DiffLine::Added { new_lineno: 1, content: subproject(id) });
        new_lines = 1;
    }
    assert(lines.deep_view() =~= subproject_lines_v(old_id.deep_view(), new_id.deep_view()));
    let end: usize = lines.len();
    let hunk = Hunk {
        old_start: 1,
        old_lines,
        new_start: 1,
        new_lines,
        function_context: None,
        line_range: std::ops::Range { start: 0, end },
    };
    let hunks: Vec<Hunk> = vec![hunk];
    assert(hunks.deep_view() =~= seq![hunk.deep_view()]);
    FileDiff { lines, hunks }
}

/// The texts of both sides of a file; empty for a binary file and for a submodule.
pub open spec fn file_texts_v(
    fc: FileV,
    old_data: Option<Seq<u8>>,
    new_data: Option<Seq<u8>>,
) -> (Seq<char>, Seq<char>) {
    if fc.special is Binary || fc.special is Submodule {
        (Seq::empty(), Seq::empty())
    } else {
        (read_blob_v(old_data).text, read_blob_v(new_data).text)
    }
}

// ---- The changeset ----

/// The sort keys of files by path.
pub open spec fn path_keys_v(files: Seq<FileV>) -> Seq<Seq<u64>> {
    files.map_values(|f: FileV| path::path_key_v(f.path))
}

/// Files by path.
pub open spec fn sort_files_v(files: Seq<FileV>) -> Seq<FileV> {
    crate::group::pick_v(files, order::sort_v(order::upto(files.len()), path_keys_v(files)))
}

/// Files by path.
pub fn sort_files(files: &Vec<FileChange>) -> (r: Vec<FileChange>)
    ensures
        r.deep_view() == sort_files_v(files.deep_view()),
{
    let ghost fs = files.deep_view();
    let mut keys: Vec<Vec<u64>> = Vec::new();
    let mut i: usize = 0;
    while i < files.len()
        invariant
            i <= files@.len(),
            fs == files.deep_view(),
            keys@.len() == i,
            keys.deep_view() =~= path_keys_v(fs).take(i as int),
        decreases files@.len() - i,
    {
        let ghost before = keys.deep_view();
        assert(fs[i as int] == files@[i as int].deep_view());
        let mut key: Vec<u64> = Vec::new();
        push_path_key(&mut key, files[i].path.as_str());
        assert(key@ =~= path_keys_v(fs)[i as int]);
        assert(key.deep_view() =~= key@);
        keys.push(key);
        assert(keys.deep_view() =~= before.push(path_keys_v(fs)[i as int]));
        i = i + 1;
    }
    assert(path_keys_v(fs).take(fs.len() as int) =~= path_keys_v(fs));
    let items = indices(files.len());
    let order = sort_by_keys(&items, &keys);
    let mut out: Vec<FileChange> = Vec::new();
    let mut k: usize = 0;
    while k < order.len()
        invariant
            k <= order@.len(),
            fs == files.deep_view(),
            crate::order::keyed(order@, files@.len()),
            out.deep_view() =~= crate::group::pick_v(fs, order@).take(k as int),
        decreases order@.len() - k,
    {
        let ghost before = out.deep_view();
        assert(order@[k as int] < files@.len());
        let f = files[order[k]].clone();
        assert(fs[order@[k as int] as int] == files@[order@[k as int] as int].deep_view());
        out.push(f);
        assert(out.deep_view() =~= before.push(f.deep_view()));
        k = k + 1;
    }
    assert(crate::group::pick_v(fs, order@).take(order@.len() as int) =~= crate::group::pick_v(
        fs,
        order@,
    ));
    out
}

/// The first of at most `MAX_COMMITS` commits.
pub open spec fn capped_v(commits: Seq<CommitV>) -> Seq<CommitV> {
    if commits.len() > MAX_COMMITS {
        commits.take(MAX_COMMITS as int)
    } else {
        commits
    }
}

/// What is known of an open repository.
#[derive(Debug)]
pub struct Repo {
    /// The root of the working tree, at which the configuration is anchored.
    pub root: String,
    /// The git directory, in which the viewed status is kept.
    pub git_dir: String,
    /// The branch that is checked out, if any.
    pub branch: Option<String>,
}

impl Repo {
    pub fn root(&self) -> (r: &str)
        ensures
            r@ == self.root@,
    {
        self.root.as_str()
    }

    pub fn git_dir(&self) -> (r: &str)
        ensures
            r@ == self.git_dir@,
    {
        self.git_dir.as_str()
    }

    /// The short name of the branch that is checked out, if any.
    pub fn current_branch(&self) -> (r: Option<String>)
        ensures
            r.deep_view() == self.branch.deep_view(),
    {
        match &self.branch {
            Some(b) => Some(b.clone()),
            None => None,
        }
    }

    /// The refs that a range is resolved to, given the default branch and the current one.
    pub fn resolve(
        spec: &RangeSpec,
        default_branch: &Option<String>,
        branch: &Option<String>,
    ) -> (r: Option<RefPlan>)
        ensures
            r.deep_view() == resolve_v(
                spec.deep_view(),
                default_branch.deep_view(),
                branch.deep_view(),
            ),
    {
        let base: String = match spec {
            RangeSpec::Default => match default_branch {
                Some(b) => b.clone(),
                None => {
                    return None;
                },
            },
            RangeSpec::Base(b) => b.clone(),
            RangeSpec::Range { base, head, three_dot } => {
                return Some(
                    RefPlan {
                        base: base.clone(),
                        head: head.clone(),
                        three_dot: *three_dot,
                        head_name: head.clone(),
                    },
                );
            },
        };
        let head_name: String = match branch {
            Some(b) => b.clone(),
            None => "HEAD".to_owned(),
        };
        Some(RefPlan { base, head: "HEAD".to_owned(), three_dot: true, head_name })
    }

    /// The names that the default branch may have, the likeliest first.
    pub fn default_candidates(remote_head: Option<String>) -> (r: Vec<String>)
        ensures
            r.deep_view() == default_candidates_v(remote_head.deep_view()),
    {
        let ghost want = default_candidates_v(remote_head.deep_view());
        let mut out: Vec<String> = Vec::new();
        if let Some(name) = remote_head {
            out.push(name);
        }
        out.push("main".to_owned());
        out.push("master".to_owned());
        assert(out.deep_view() =~= want);
        out
    }

    /// The text of a blob, whether it is binary, and its size in bytes. A binary blob has no text; a
    /// missing (or unreadable) one reads as empty.
    pub fn read_blob(data: &Option<Vec<u8>>) -> (r: (String, bool, u64))
        ensures
            ({
                let b = read_blob_v(bytes_view(data));
                r.0@ == b.text && r.1 == b.is_binary && r.2 == b.size
            }),
    {
        match data {
            None => (String::new(), false, 0),
            Some(b) => {
                let size: u64 = b.len() as u64;
                if looks_binary(b.as_slice()) {
                    (String::new(), true, size)
                } else {
                    (from_utf8_lossy(b.as_slice()), false, size)
                }
            },
        }
    }

    /// The file change that a tree change becomes, given the contents of both sides: with its line
    /// counts and its content hash, which the overview needs. `None` for a directory.
    pub fn change_to_file(
        change: TreeChange,
        old_data: &Option<Vec<u8>>,
        new_data: &Option<Vec<u8>>,
    ) -> (r: Option<FileChange>)
        ensures
            r.deep_view() == change_to_file_v(
                change.deep_view(),
                bytes_view(old_data),
                bytes_view(new_data),
            ),
    {
        let (status, old_path, path, old_id, new_id, kind): (
            FileStatus,
            Option<String>,
            String,
            Option<ObjectId>,
            Option<ObjectId>,
            EntryKind,
        ) = match change {
            TreeChange::Addition { location, kind, id } => (
                FileStatus::Added,
                None,
                location,
                None,
                Some(id),
                kind,
            ),
            TreeChange::Deletion { location, kind, id } => (
                FileStatus::Deleted,
                None,
                location,
                Some(id),
                None,
                kind,
            ),
            TreeChange::Modification { location, kind, previous_id, id } => (
                FileStatus::Modified,
                None,
                location,
                Some(previous_id),
                Some(id),
                kind,
            ),
            TreeChange::Rewrite { source_location, source_id, location, kind, id, copy } => (
                if copy {
                    FileStatus::Copied
                } else {
                    FileStatus::Renamed
                },
                Some(source_location),
                location,
                Some(source_id),
                Some(id),
                kind,
            ),
        };
        if matches!(kind, EntryKind::Tree) {
            return None;
        }
        if matches!(kind, EntryKind::Commit) {
            let content_hash = id_hash(path.as_str(), &old_id, &new_id);
            return Some(
                FileChange {
                    path,
                    old_path,
                    status,
                    additions: 0,
                    deletions: 0,
                    content_hash,
                    special: Special::Submodule,
                    old_id,
                    new_id,
                },
            );
        }
        let (old_text, old_bin, old_size) = Repo::read_blob(old_data);
        let (new_text, new_bin, new_size) = Repo::read_blob(new_data);
        if old_bin || new_bin {
            let content_hash = id_hash(path.as_str(), &old_id, &new_id);
            return Some(
                FileChange {
                    path,
                    old_path,
                    status,
                    additions: 0,
                    deletions: 0,
                    content_hash,
                    special: Special::Binary { old_size, new_size },
                    old_id,
                    new_id,
                },
            );
        }
        let (additions, deletions) = count_stats(old_text.as_str(), new_text.as_str());
        let hash = content_hash(path.as_str(), old_text.as_str(), new_text.as_str());
        let special = if matches!(kind, EntryKind::Link) {
            Special::Symlink
        } else {
            Special::Plain
        };
        Some(
            FileChange {
                path,
                old_path,
                status,
                additions,
                deletions,
                content_hash: hash,
                special,
                old_id,
                new_id,
            },
        )
    }

    /// The diff of a file with its hunks, given the contents of both sides. `context` is the radius of
    /// the folds; with `ignore_ws` whitespace-only edits read as unchanged. A binary file has an empty
    /// diff, a submodule one of its commits.
    pub fn load_file_diff(
        fc: &FileChange,
        old_data: &Option<Vec<u8>>,
        new_data: &Option<Vec<u8>>,
        context: usize,
        ignore_ws: bool,
    ) -> (r: FileDiff)
        ensures
            r.deep_view() == load_file_diff_v(
                fc.deep_view(),
                bytes_view(old_data),
                bytes_view(new_data),
                context as nat,
                ignore_ws,
            ),
            crate::app::coverage::laid_out(r.deep_view()),
            fc.special is Plain || fc.special is Symlink ==> diff::tells(
                r.deep_view(),
                file_texts_v(fc.deep_view(), bytes_view(old_data), bytes_view(new_data)).0,
                file_texts_v(fc.deep_view(), bytes_view(old_data), bytes_view(new_data)).1,
                ignore_ws,
            ),
    {
        match fc.special {
            Special::Binary { .. } => FileDiff::default(),
            Special::Submodule => {
                let r = subproject_diff(&fc.old_id, &fc.new_id);
                proof {
                    let d = r.deep_view();
                    assert forall|j: int|
                        0 <= j < d.lines.len() && (#[trigger] d.lines[j]).is_change() implies exists|
                        k: int,
                    | 0 <= k < d.hunks.len() && #[trigger] diff::in_hunk(d.hunks[k], j) by {
                        assert(diff::in_hunk(d.hunks[0], j));
                    }
                }
                r
            },
            _ => {
                let (old_text, _, _) = Repo::read_blob(old_data);
                let (new_text, _, _) = Repo::read_blob(new_data);
                let r = build_file_diff(old_text.as_str(), new_text.as_str(), context, ignore_ws);
                proof {
                    diff::law_hunks_are_maximal_runs(r.deep_view().lines, context as nat);
                }
                r
            },
        }
    }

    /// The texts of both sides of a file, for highlighting: empty where a side is absent or the file is
    /// binary.
    pub fn file_texts(fc: &FileChange, old_data: &Option<Vec<u8>>, new_data: &Option<Vec<u8>>) -> (r: (
        String,
        String,
    ))
        ensures
            r.0@ == file_texts_v(fc.deep_view(), bytes_view(old_data), bytes_view(new_data)).0,
            r.1@ == file_texts_v(fc.deep_view(), bytes_view(old_data), bytes_view(new_data)).1,
    {
        if fc.is_binary() || matches!(fc.special, Special::Submodule) {
            return (String::new(), String::new());
        }
        let (old, _, _) = Repo::read_blob(old_data);
        let (new, _, _) = Repo::read_blob(new_data);
        (old, new)
    }

    /// The changeset of resolved endpoints: files by path, and at most as many commits as are listed.
    pub fn build_changeset(
        base: ObjectId,
        head: ObjectId,
        plan: RefPlan,
        files: &Vec<FileChange>,
        commits: Vec<CommitInfo>,
    ) -> (r: Changeset)
        ensures
            r.deep_view() == (ChangesetV {
                base: base.deep_view(),
                head: head.deep_view(),
                base_name: plan.base@,
                head_name: plan.head_name@,
                files: sort_files_v(files.deep_view()),
                commits: capped_v(commits.deep_view()),
                is_working: false,
            }),
    {
        let ghost all = commits.deep_view();
        let mut commits = commits;
        if commits.len() > MAX_COMMITS {
            commits.truncate(MAX_COMMITS);
        }
        assert(commits.deep_view() =~= capped_v(all));
        Changeset {
            base,
            head,
            base_name: plan.base,
            head_name: plan.head_name,
            files: sort_files(files),
            commits,
            is_working: false,
        }
    }

    /// The changeset of the working tree against the last commit, of which `branch` is checked out.
    pub fn build_working_changeset(head: ObjectId, branch: &Option<String>, files: &Vec<FileChange>) -> (r:
        Changeset)
        ensures
            r.deep_view() == (ChangesetV {
                base: head.deep_view(),
                head: head.deep_view(),
                base_name: match branch.deep_view() {
                    Some(b) => b,
                    None => "HEAD"@,
                },
                head_name: "working tree"@,
                files: sort_files_v(files.deep_view()),
                commits: Seq::empty(),
                is_working: true,
            }),
    {
        let base_name: String = match branch {
            Some(b) => b.clone(),
            None => "HEAD".to_owned(),
        };
        let commits: Vec<CommitInfo> = Vec::new();
        assert(commits.deep_view() =~= Seq::empty());
        Changeset {
            base: head.clone(),
            head,
            base_name,
            head_name: "working tree".to_owned(),
            files: sort_files(files),
            commits,
            is_working: true,
        }
    }
}

} // verus!
