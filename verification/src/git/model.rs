//! The data model of a changeset between two git trees.
//!
//! The overview needs only each file's stats and content hash, so a [`FileChange`] carries the
//! blob ids from which its hunks are computed when it is opened.
use vstd::prelude::*;

use crate::text::{hex, same};

verus! {

broadcast use vstd::seq_lib::group_seq_properties;

/// The id of a git object: the bytes of its hash.
#[derive(Debug)]
pub struct ObjectId {
    pub bytes: Vec<u8>,
}

impl DeepView for ObjectId {
    type V = Seq<u8>;

    open spec fn deep_view(&self) -> Seq<u8> {
        self.bytes@
    }
}

/// Bytes, each written as two hexadecimal digits.
pub open spec fn hex_bytes_v(bytes: Seq<u8>) -> Seq<char>
    decreases bytes.len(),
{
    if bytes.len() == 0 {
        Seq::empty()
    } else {
        hex_bytes_v(bytes.drop_last()) + crate::text::hex_v(bytes.last() as nat, 2)
    }
}

impl ObjectId {
    /// The id as it is shown: two hexadecimal digits for each byte.
    pub fn to_hex(&self) -> (r: String)
        ensures
            r@ == hex_bytes_v(self.deep_view()),
    {
        let mut out = String::new();
        let mut i: usize = 0;
        while i < self.bytes.len()
            invariant
                i <= self.bytes@.len(),
                out@ == hex_bytes_v(self.bytes@.take(i as int)),
            decreases self.bytes@.len() - i,
        {
            let two = hex(self.bytes[i] as u64, 2);
            out.append(two.as_str());
            assert(self.bytes@.take(i + 1).drop_last() =~= self.bytes@.take(i as int));
            i = i + 1;
        }
        assert(self.bytes@.take(self.bytes@.len() as int) =~= self.bytes@);
        out
    }
}

impl Clone for ObjectId {
    fn clone(&self) -> (r: Self)
        ensures
            r.deep_view() == self.deep_view(),
    {
        let mut bytes: Vec<u8> = Vec::new();
        bytes.extend_from_slice(self.bytes.as_slice());
        assert(bytes@ =~= self.bytes@);
        ObjectId { bytes }
    }
}

/// What happened to a file.
#[derive(Clone, Copy, PartialEq, Eq, Debug, Structural)]
pub enum FileStatus {
    Added,
    Modified,
    Deleted,
    Renamed,
    Copied,
}

impl DeepView for FileStatus {
    type V = FileStatus;

    open spec fn deep_view(&self) -> FileStatus {
        *self
    }
}

impl FileStatus {
    /// The letter for a status.
    pub open spec fn letter_v(self) -> char {
        match self {
            FileStatus::Added => 'A',
            FileStatus::Modified => 'M',
            FileStatus::Deleted => 'D',
            FileStatus::Renamed => 'R',
            FileStatus::Copied => 'C',
        }
    }

    /// The annotation for a status.
    pub open spec fn annotation_v(self) -> Option<Seq<char>> {
        match self {
            FileStatus::Added => Some("new"@),
            FileStatus::Deleted => Some("deleted"@),
            FileStatus::Renamed => Some("renamed"@),
            FileStatus::Copied => Some("copied"@),
            FileStatus::Modified => None,
        }
    }

    /// The single letter shown in the overview and in the file header.
    pub fn letter(self) -> (r: char)
        ensures
            r == self.letter_v(),
    {
        match self {
            FileStatus::Added => 'A',
            FileStatus::Modified => 'M',
            FileStatus::Deleted => 'D',
            FileStatus::Renamed => 'R',
            FileStatus::Copied => 'C',
        }
    }

    /// The word shown in the overview's right column.
    pub fn annotation(self) -> (r: Option<&'static str>)
        ensures
            match r {
                Some(s) => self.annotation_v() == Some(s@),
                None => self.annotation_v() is None,
            },
    {
        match self {
            FileStatus::Added => Some("new"),
            FileStatus::Deleted => Some("deleted"),
            FileStatus::Renamed => Some("renamed"),
            FileStatus::Copied => Some("copied"),
            FileStatus::Modified => None,
        }
    }
}

/// Whether a blob is diffed as ordinary text, and why not where it is not.
#[derive(Clone, Copy, PartialEq, Eq, Debug, Structural)]
pub enum Special {
    Plain,
    /// Binary content, with the byte sizes of both sides.
    Binary { old_size: u64, new_size: u64 },
    /// A symlink, shown as a one-line diff of its target.
    Symlink,
    /// A submodule, shown as a change of its commit id.
    Submodule,
}

impl Default for Special {
    fn default() -> (r: Self)
        ensures
            r == Special::Plain,
    {
        Special::Plain
    }
}

/// One changed file.
#[derive(Debug)]
pub struct FileChange {
    pub path: String,
    /// The source path of a rename or copy.
    pub old_path: Option<String>,
    pub status: FileStatus,
    pub additions: usize,
    pub deletions: usize,
    /// A stable hash of the whitespace-normalized diff: the key of the viewed status.
    pub content_hash: u64,
    pub special: Special,
    /// The blobs of both sides; `None` where a side is absent.
    pub old_id: Option<ObjectId>,
    pub new_id: Option<ObjectId>,
}

/// The mathematical value of a [`FileChange`].
#[verifier::ext_equal]
pub ghost struct FileV {
    pub path: Seq<char>,
    pub old_path: Option<Seq<char>>,
    pub status: FileStatus,
    pub additions: usize,
    pub deletions: usize,
    pub content_hash: u64,
    pub special: Special,
    pub old_id: Option<Seq<u8>>,
    pub new_id: Option<Seq<u8>>,
}

impl DeepView for FileChange {
    type V = FileV;

    open spec fn deep_view(&self) -> FileV {
        FileV {
            path: self.path@,
            old_path: self.old_path.deep_view(),
            status: self.status,
            additions: self.additions,
            deletions: self.deletions,
            content_hash: self.content_hash,
            special: self.special,
            old_id: self.old_id.deep_view(),
            new_id: self.new_id.deep_view(),
        }
    }
}

/// A copy of an optional text.
fn copy_text(s: &Option<String>) -> (r: Option<String>)
    ensures
        r.deep_view() == s.deep_view(),
{
    match s {
        Some(t) => Some(t.clone()),
        None => None,
    }
}

/// A copy of an optional id.
fn copy_id(id: &Option<ObjectId>) -> (r: Option<ObjectId>)
    ensures
        r.deep_view() == id.deep_view(),
{
    match id {
        Some(i) => Some(i.clone()),
        None => None,
    }
}

impl Clone for FileChange {
    fn clone(&self) -> (r: Self)
        ensures
            r.deep_view() == self.deep_view(),
    {
        FileChange {
            path: self.path.clone(),
            old_path: copy_text(&self.old_path),
            status: self.status,
            additions: self.additions,
            deletions: self.deletions,
            content_hash: self.content_hash,
            special: self.special,
            old_id: copy_id(&self.old_id),
            new_id: copy_id(&self.new_id),
        }
    }
}

impl FileChange {
    pub fn is_binary(&self) -> (r: bool)
        ensures
            r == (self.special is Binary),
    {
        matches!(self.special, Special::Binary { .. })
    }
}

/// One commit of the range.
#[derive(Debug)]
pub struct CommitInfo {
    pub id: ObjectId,
    pub summary: String,
    pub author: String,
    /// Author time, in seconds since the Unix epoch.
    pub time_secs: i64,
}

/// The mathematical value of a [`CommitInfo`].
#[verifier::ext_equal]
pub ghost struct CommitV {
    pub id: Seq<u8>,
    pub summary: Seq<char>,
    pub author: Seq<char>,
    pub time_secs: i64,
}

impl DeepView for CommitInfo {
    type V = CommitV;

    open spec fn deep_view(&self) -> CommitV {
        CommitV {
            id: self.id.deep_view(),
            summary: self.summary@,
            author: self.author@,
            time_secs: self.time_secs,
        }
    }
}

/// What changed between two commits, or between the last commit and the working tree.
#[derive(Debug)]
pub struct Changeset {
    pub base: ObjectId,
    pub head: ObjectId,
    /// The names of the endpoints as the header shows them.
    pub base_name: String,
    pub head_name: String,
    pub files: Vec<FileChange>,
    pub commits: Vec<CommitInfo>,
    /// True for uncommitted changes in the working tree.
    pub is_working: bool,
}

/// The mathematical value of a [`Changeset`].
#[verifier::ext_equal]
pub ghost struct ChangesetV {
    pub base: Seq<u8>,
    pub head: Seq<u8>,
    pub base_name: Seq<char>,
    pub head_name: Seq<char>,
    pub files: Seq<FileV>,
    pub commits: Seq<CommitV>,
    pub is_working: bool,
}

impl DeepView for Changeset {
    type V = ChangesetV;

    open spec fn deep_view(&self) -> ChangesetV {
        ChangesetV {
            base: self.base.deep_view(),
            head: self.head.deep_view(),
            base_name: self.base_name@,
            head_name: self.head_name@,
            files: self.files.deep_view(),
            commits: self.commits.deep_view(),
            is_working: self.is_working,
        }
    }
}

/// The lines added over all files.
pub open spec fn additions_v(files: Seq<FileV>) -> int
    decreases files.len(),
{
    if files.len() == 0 {
        0
    } else {
        additions_v(files.drop_last()) + files.last().additions
    }
}

/// The lines deleted over all files.
pub open spec fn deletions_v(files: Seq<FileV>) -> int
    decreases files.len(),
{
    if files.len() == 0 {
        0
    } else {
        deletions_v(files.drop_last()) + files.last().deletions
    }
}

/// The totals of a prefix are at most those of the whole.
pub proof fn lemma_totals_prefix(files: Seq<FileV>, k: int)
    requires
        0 <= k <= files.len(),
    ensures
        0 <= additions_v(files.take(k)) <= additions_v(files),
        0 <= deletions_v(files.take(k)) <= deletions_v(files),
    decreases files.len(),
{
    if k < files.len() {
        lemma_totals_prefix(files.drop_last(), k);
        assert(files.drop_last().take(k) =~= files.take(k));
    } else {
        assert(files.take(k) =~= files);
        if k > 0 {
            lemma_totals_prefix(files.drop_last(), k - 1);
            assert(files.drop_last().take(k - 1) =~= files.drop_last());
        }
    }
}

/// The author times of commits.
pub open spec fn times_v(commits: Seq<CommitV>) -> Seq<i64> {
    commits.map_values(|c: CommitV| c.time_secs)
}

/// The authors of commits.
pub open spec fn authors_v(commits: Seq<CommitV>) -> Seq<Seq<char>> {
    commits.map_values(|c: CommitV| c.author)
}

impl ChangesetV {
    /// Every sum of line counts over files fits in a machine word.
    pub open spec fn totals_fit(self) -> bool {
        additions_v(self.files) + deletions_v(self.files) <= usize::MAX
    }
}

impl Changeset {
    /// The lines added over all files.
    pub fn total_additions(&self) -> (r: usize)
        requires
            additions_v(self.deep_view().files) <= usize::MAX,
        ensures
            r == additions_v(self.deep_view().files),
    {
        let ghost files = self.files.deep_view();
        let mut sum: usize = 0;
        let mut i: usize = 0;
        while i < self.files.len()
            invariant
                i <= self.files@.len(),
                files == self.files.deep_view(),
                additions_v(files) <= usize::MAX,
                sum == additions_v(files.take(i as int)),
            decreases self.files@.len() - i,
        {
            assert(files.take(i + 1).drop_last() =~= files.take(i as int));
            proof {
                lemma_totals_prefix(files, i + 1);
            }
            sum = sum + self.files[i].additions;
            i = i + 1;
        }
        assert(files.take(files.len() as int) =~= files);
        sum
    }

    /// The lines deleted over all files.
    pub fn total_deletions(&self) -> (r: usize)
        requires
            deletions_v(self.deep_view().files) <= usize::MAX,
        ensures
            r == deletions_v(self.deep_view().files),
    {
        let ghost files = self.files.deep_view();
        let mut sum: usize = 0;
        let mut i: usize = 0;
        while i < self.files.len()
            invariant
                i <= self.files@.len(),
                files == self.files.deep_view(),
                deletions_v(files) <= usize::MAX,
                sum == deletions_v(files.take(i as int)),
            decreases self.files@.len() - i,
        {
            assert(files.take(i + 1).drop_last() =~= files.take(i as int));
            proof {
                lemma_totals_prefix(files, i + 1);
            }
            sum = sum + self.files[i].deletions;
            i = i + 1;
        }
        assert(files.take(files.len() as int) =~= files);
        sum
    }

    /// Whether every sum of line counts over the files fits in a machine word, as the functions
    /// that show totals ask.
    pub fn totals_fit(&self) -> (r: bool)
        ensures
            r == self.deep_view().totals_fit(),
    {
        let ghost files = self.files.deep_view();
        let mut sum: usize = 0;
        let mut i: usize = 0;
        while i < self.files.len()
            invariant
                i <= self.files@.len(),
                files == self.files.deep_view(),
                files == self.deep_view().files,
                sum == additions_v(files.take(i as int)) + deletions_v(files.take(i as int)),
            decreases self.files@.len() - i,
        {
            assert(files.take(i + 1).drop_last() =~= files.take(i as int));
            proof {
                lemma_totals_prefix(files, i + 1);
            }
            let adds: usize = self.files[i].additions;
            let dels: usize = self.files[i].deletions;
            if adds > usize::MAX - sum || dels > usize::MAX - sum - adds {
                return false;
            }
            sum = sum + adds + dels;
            i = i + 1;
        }
        assert(files.take(files.len() as int) =~= files);
        true
    }

    /// How many different authors the commits have.
    pub fn author_count(&self) -> (r: usize)
        ensures
            r == authors_v(self.deep_view().commits).to_set().len(),
    {
        let ghost authors = authors_v(self.deep_view().commits);
        let mut count: usize = 0;
        let mut i: usize = 0;
        assert(authors.take(0).to_set() =~= Set::<Seq<char>>::empty());
        while i < self.commits.len()
            invariant
                i <= self.commits@.len(),
                authors == authors_v(self.deep_view().commits),
                authors.len() == self.commits@.len(),
                forall|k: int| 0 <= k < authors.len() ==> #[trigger] authors[k] == self.commits@[k].author@,
                count <= i,
                count == authors.take(i as int).to_set().len(),
            decreases self.commits@.len() - i,
        {
            let mut seen: bool = false;
            let mut j: usize = 0;
            while j < i && !seen
                invariant
                    j <= i < self.commits@.len(),
                    authors.len() == self.commits@.len(),
                    forall|k: int|
                        0 <= k < authors.len() ==> #[trigger] authors[k] == self.commits@[k].author@,
                    seen ==> exists|k: int| 0 <= k < i && #[trigger] authors[k] == authors[i as int],
                    !seen ==> forall|k: int|
                        0 <= k < j ==> #[trigger] authors[k] != authors[i as int],
                decreases i - j + (if seen {
                    0int
                } else {
                    1int
                }),
            {
                if same(self.commits[j].author.as_str(), self.commits[i].author.as_str()) {
                    seen = true;
                    assert(authors[j as int] == authors[i as int]);
                } else {
                    j = j + 1;
                }
            }
            proof {
                let before = authors.take(i as int);
                let a = authors[i as int];
                assert(authors.take(i + 1) =~= before.push(a));
                before.lemma_push_to_set_commute(a);
                if seen {
                    let k = choose|k: int| 0 <= k < i && #[trigger] authors[k] == authors[i as int];
                    assert(before[k] == a);
                    assert(before.to_set().insert(a) =~= before.to_set());
                } else {
                    assert(!before.contains(a));
                }
            }
            if !seen {
                count = count + 1;
            }
            i = i + 1;
        }
        assert(authors.take(authors.len() as int) =~= authors);
        count
    }

    /// The author time of the oldest commit of the range.
    pub fn oldest_commit_secs(&self) -> (r: Option<i64>)
        ensures
            r is Some == (self.deep_view().commits.len() > 0),
            r matches Some(t) ==> times_v(self.deep_view().commits).contains(t) && (forall|k: int|
                0 <= k < times_v(self.deep_view().commits).len()
                    ==> t <= #[trigger] times_v(self.deep_view().commits)[k]),
    {
        let ghost times = times_v(self.deep_view().commits);
        assert(times.len() == self.commits@.len());
        if self.commits.len() == 0 {
            return None;
        }
        let mut best: i64 = self.commits[0].time_secs;
        assert(times[0] == best);
        let mut i: usize = 1;
        while i < self.commits.len()
            invariant
                1 <= i <= self.commits@.len(),
                times == times_v(self.deep_view().commits),
                times.len() == self.commits@.len(),
                times.contains(best),
                forall|k: int| 0 <= k < i ==> best <= #[trigger] times[k],
            decreases self.commits@.len() - i,
        {
            let t: i64 = self.commits[i].time_secs;
            assert(times[i as int] == t);
            if t < best {
                best = t;
            }
            i = i + 1;
        }
        Some(best)
    }
}

/// One line of a file's diff.
#[derive(Debug)]
pub enum DiffLine {
    Context { old_lineno: usize, new_lineno: usize, content: String },
    Removed { old_lineno: usize, content: String },
    Added { new_lineno: usize, content: String },
}

/// The mathematical value of a [`DiffLine`].
#[verifier::ext_equal]
pub ghost enum LineV {
    Context { old_lineno: int, new_lineno: int, content: Seq<char> },
    Removed { old_lineno: int, content: Seq<char> },
    Added { new_lineno: int, content: Seq<char> },
}

impl DeepView for DiffLine {
    type V = LineV;

    open spec fn deep_view(&self) -> LineV {
        match self {
            DiffLine::Context { old_lineno, new_lineno, content } => LineV::Context {
                old_lineno: *old_lineno as int,
                new_lineno: *new_lineno as int,
                content: content@,
            },
            DiffLine::Removed { old_lineno, content } => LineV::Removed {
                old_lineno: *old_lineno as int,
                content: content@,
            },
            DiffLine::Added { new_lineno, content } => LineV::Added {
                new_lineno: *new_lineno as int,
                content: content@,
            },
        }
    }
}

impl LineV {
    /// The text of the line.
    pub open spec fn content(self) -> Seq<char> {
        match self {
            LineV::Context { content, .. } => content,
            LineV::Removed { content, .. } => content,
            LineV::Added { content, .. } => content,
        }
    }

    /// Is the line removed or added?
    pub open spec fn is_change(self) -> bool {
        !(self is Context)
    }

    /// The line's number on the old side, where it stands there.
    pub open spec fn old_lineno(self) -> Option<int> {
        match self {
            LineV::Context { old_lineno, .. } => Some(old_lineno),
            LineV::Removed { old_lineno, .. } => Some(old_lineno),
            LineV::Added { .. } => None,
        }
    }

    /// The line's number on the new side, where it stands there.
    pub open spec fn new_lineno(self) -> Option<int> {
        match self {
            LineV::Context { new_lineno, .. } => Some(new_lineno),
            LineV::Added { new_lineno, .. } => Some(new_lineno),
            LineV::Removed { .. } => None,
        }
    }
}

impl DiffLine {
    pub fn content(&self) -> (r: &str)
        ensures
            r@ == self.deep_view().content(),
    {
        match self {
            DiffLine::Context { content, .. } => content.as_str(),
            DiffLine::Removed { content, .. } => content.as_str(),
            DiffLine::Added { content, .. } => content.as_str(),
        }
    }

    pub fn is_change(&self) -> (r: bool)
        ensures
            r == self.deep_view().is_change(),
    {
        !matches!(self, DiffLine::Context { .. })
    }

    /// The line number on the old side, if this line stands there.
    pub fn old_lineno(&self) -> (r: Option<usize>)
        ensures
            r.deep_view() is Some == self.deep_view().old_lineno() is Some,
            r matches Some(n) ==> self.deep_view().old_lineno() == Some(n as int),
    {
        match self {
            DiffLine::Context { old_lineno, .. } => Some(*old_lineno),
            DiffLine::Removed { old_lineno, .. } => Some(*old_lineno),
            DiffLine::Added { .. } => None,
        }
    }

    /// The line number on the new side, if this line stands there.
    pub fn new_lineno(&self) -> (r: Option<usize>)
        ensures
            r is Some == self.deep_view().new_lineno() is Some,
            r matches Some(n) ==> self.deep_view().new_lineno() == Some(n as int),
    {
        match self {
            DiffLine::Context { new_lineno, .. } => Some(*new_lineno),
            DiffLine::Added { new_lineno, .. } => Some(*new_lineno),
            DiffLine::Removed { .. } => None,
        }
    }
}

/// A cluster of changes with its surrounding context. `line_range` indexes [`FileDiff::lines`];
/// the lines outside every hunk's range are the foldable regions between hunks.
#[derive(Debug)]
pub struct Hunk {
    pub old_start: usize,
    pub old_lines: usize,
    pub new_start: usize,
    pub new_lines: usize,
    /// The enclosing function or type, filled in when the file is opened.
    pub function_context: Option<String>,
    pub line_range: std::ops::Range<usize>,
}

/// The mathematical value of a [`Hunk`].
#[verifier::ext_equal]
pub ghost struct HunkV {
    pub old_start: int,
    pub old_lines: int,
    pub new_start: int,
    pub new_lines: int,
    pub function_context: Option<Seq<char>>,
    pub start: int,
    pub end: int,
}

impl DeepView for Hunk {
    type V = HunkV;

    open spec fn deep_view(&self) -> HunkV {
        HunkV {
            old_start: self.old_start as int,
            old_lines: self.old_lines as int,
            new_start: self.new_start as int,
            new_lines: self.new_lines as int,
            function_context: self.function_context.deep_view(),
            start: self.line_range.start as int,
            end: self.line_range.end as int,
        }
    }
}

/// The diff of one file, computed when it is opened: every line, context lines too, and the
/// clusters of changes among them.
#[derive(Debug)]
pub struct FileDiff {
    pub lines: Vec<DiffLine>,
    pub hunks: Vec<Hunk>,
}

/// The mathematical value of a [`FileDiff`].
#[verifier::ext_equal]
pub ghost struct FileDiffV {
    pub lines: Seq<LineV>,
    pub hunks: Seq<HunkV>,
}

impl DeepView for FileDiff {
    type V = FileDiffV;

    open spec fn deep_view(&self) -> FileDiffV {
        FileDiffV { lines: self.lines.deep_view(), hunks: self.hunks.deep_view() }
    }
}

impl Default for FileDiff {
    fn default() -> (r: Self)
        ensures
            r.deep_view() == (FileDiffV { lines: Seq::empty(), hunks: Seq::empty() }),
    {
        FileDiff { lines: Vec::new(), hunks: Vec::new() }
    }
}

/// The index of the first changed line at or after `i` and before `end`, or `end`.
pub open spec fn first_change_v(lines: Seq<LineV>, i: int, end: int) -> int
    decreases end - i,
{
    if i >= end || lines[i].is_change() {
        i
    } else {
        first_change_v(lines, i + 1, end)
    }
}

/// One less than a line number, down to zero.
pub open spec fn row_of_v(lineno: int) -> int {
    if lineno > 0 {
        lineno - 1
    } else {
        0
    }
}

/// The row at which a hunk's function context is looked up: that of the context line right before
/// the hunk's first change; where the hunk starts with a change, that change's own new-side row;
/// else the hunk's first row.
pub open spec fn hunk_context_row_v(lines: Seq<LineV>, hunk: HunkV) -> int {
    let k = first_change_v(lines, hunk.start, hunk.end);
    if k >= hunk.end {
        row_of_v(hunk.new_start)
    } else if k > hunk.start {
        row_of_v(lines[k - 1].new_lineno()->0)
    } else {
        match lines[k].new_lineno() {
            Some(n) => row_of_v(n),
            None => row_of_v(hunk.new_start),
        }
    }
}

impl FileDiff {
    /// The 0-based row of the new file on which to look up a hunk's function context.
    pub fn hunk_context_row(&self, hunk: &Hunk) -> (r: usize)
        requires
            hunk.deep_view().end <= self.deep_view().lines.len(),
        ensures
            r == hunk_context_row_v(self.deep_view().lines, hunk.deep_view()),
    {
        let ghost lines = self.deep_view().lines;
        let ghost h = hunk.deep_view();
        let mut last_new: Option<usize> = None;
        let mut i: usize = hunk.line_range.start;
        let end: usize = hunk.line_range.end;
        while i < end
            invariant
                lines == self.deep_view().lines,
                h == hunk.deep_view(),
                h.start == hunk.line_range.start <= i,
                h.end == end <= lines.len() == self.lines@.len(),
                i > h.start ==> i <= end,
                first_change_v(lines, h.start, h.end) == first_change_v(lines, i as int, h.end),
                last_new is None <==> i == h.start,
                last_new matches Some(n) ==> lines[i - 1].new_lineno() == Some(n as int),
            decreases end - i,
        {
            let line = &self.lines[i];
            assert(lines[i as int] == line.deep_view());
            if line.is_change() {
                if let Some(n) = last_new {
                    return n.saturating_sub(1);
                }
                if let Some(n) = line.new_lineno() {
                    return n.saturating_sub(1);
                }
                return hunk.new_start.saturating_sub(1);
            }
            last_new = line.new_lineno();
            i = i + 1;
        }
        hunk.new_start.saturating_sub(1)
    }
}

} // verus!
