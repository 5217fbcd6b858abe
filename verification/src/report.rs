//! What the program prints without a terminal, and how it reads its options for that.
use vstd::prelude::*;
use vstd::string::*;

use crate::git;
use crate::git::model;
use crate::text;
use crate::app::related::{Blobs, BlobsV};
use crate::cli::Cli;
use crate::git::Repo;
use crate::git::diff::CONTEXT_RADIUS;
use crate::git::model::{Changeset, ChangesetV, FileChange, FileV, Special};
use crate::text::{
    char_text, chars_of, decimal, decimal_usize, find_char, hex, pad_right, parse, slice_string,
    trim,
};

verus! {

// ---- Options ----

/// Where the configuration comes from.
pub enum ConfigSource {
    /// There is none.
    Off,
    /// The file at a path.
    Path(String),
    /// The nearest file above the working directory.
    Search,
}

/// The mathematical value of a [`ConfigSource`].
#[verifier::ext_equal]
pub ghost enum SourceV {
    Off,
    Path(Seq<char>),
    Search,
}

impl DeepView for ConfigSource {
    type V = SourceV;

    open spec fn deep_view(&self) -> SourceV {
        match *self {
            ConfigSource::Off => SourceV::Off,
            ConfigSource::Path(p) => SourceV::Path(p@),
            ConfigSource::Search => SourceV::Search,
        }
    }
}

/// Where the configuration comes from: nowhere where it is turned off, else from the path that is
/// given, else it is searched.
pub fn config_source(cli: &Cli) -> (r: ConfigSource)
    ensures
        r.deep_view() == (if cli.no_config {
            SourceV::Off
        } else {
            match cli.config {
                Some(p) => SourceV::Path(p@),
                None => SourceV::Search,
            }
        }),
{
    if cli.no_config {
        return ConfigSource::Off;
    }
    match &cli.config {
        Some(p) => ConfigSource::Path(p.clone()),
        None => ConfigSource::Search,
    }
}

/// The width and the height that a text writes: two numbers with an `x` between.
pub open spec fn dims_v(s: Seq<char>) -> Option<(int, int)> {
    let i = text::find_char_v(s, 'x');
    if i >= s.len() {
        None
    } else {
        let w = text::parse_v(text::trim_v(s.take(i)), 10, 0xffff);
        let h = text::parse_v(text::trim_v(s.skip(i + 1)), 10, 0xffff);
        match (w, h) {
            (Some(w), Some(h)) => Some((w, h)),
            _ => None,
        }
    }
}

/// The width and the height that a text writes, as in `120x40`.
pub fn dims(s: &str) -> (r: Option<(u16, u16)>)
    ensures
        match r {
            Some((w, h)) => dims_v(s@) == Some((w as int, h as int)),
            None => dims_v(s@) is None,
        },
{
    let cs = chars_of(s);
    let i: usize = find_char(&cs, 0, 'x');
    assert(cs@.skip(0) =~= cs@);
    if i >= cs.len() {
        return None;
    }
    let a = slice_string(&cs, 0, i);
    let b = slice_string(&cs, i + 1, cs.len());
    assert(a@ =~= s@.take(i as int));
    assert(b@ =~= s@.skip(i + 1));
    let w = parse(trim(a.as_str()).as_str(), 10, 0xffff);
    let h = parse(trim(b.as_str()).as_str(), 10, 0xffff);
    match (w, h) {
        (Some(w), Some(h)) => Some((w as u16, h as u16)),
        _ => None,
    }
}

// ---- The changeset as text ----

/// What is said of a file that is no ordinary text.
pub open spec fn special_v(s: Special) -> Seq<char> {
    match s {
        Special::Binary { old_size, new_size } => "  [binary "@ + text::decimal_v(old_size as nat) + "->"@
            + text::decimal_v(new_size as nat) + "]"@,
        Special::Submodule => "  [submodule]"@,
        Special::Symlink => "  [symlink]"@,
        Special::Plain => Seq::empty(),
    }
}

/// The path that a file had.
pub open spec fn origin_v(old_path: Option<Seq<char>>) -> Seq<char> {
    match old_path {
        Some(p) => "  (from "@ + p + ")"@,
        None => Seq::empty(),
    }
}

/// The line of a file.
pub open spec fn file_line_v(f: FileV) -> Seq<char> {
    "  "@ + seq![f.status.letter_v()] + " "@ + text::pad_right_v(f.path, 30) + " +"@ + text::pad_right_v(
        text::decimal_v(f.additions as nat),
        4,
    ) + " -"@ + text::pad_right_v(text::decimal_v(f.deletions as nat), 4) + " hash="@ + text::hex_v(
        f.content_hash as nat,
        16,
    ) + origin_v(f.old_path) + special_v(f.special) + "\n"@
}

/// The lines of the first `k` files.
pub open spec fn file_lines_v(files: Seq<FileV>, k: nat) -> Seq<char>
    decreases k,
{
    if k == 0 {
        Seq::empty()
    } else {
        file_lines_v(files, (k - 1) as nat) + file_line_v(files[k - 1])
    }
}

/// The first ordinary file, from `i` on.
pub open spec fn first_plain_v(files: Seq<FileV>, i: int) -> Option<int>
    decreases files.len() - i,
{
    if i >= files.len() || i < 0 {
        None
    } else if files[i].special == Special::Plain {
        Some(i)
    } else {
        first_plain_v(files, i + 1)
    }
}

/// How many hunks the first ordinary file has.
pub open spec fn first_file_v(f: FileV, b: BlobsV) -> Seq<char> {
    let doc = git::load_file_diff_v(f, b.old, b.new, CONTEXT_RADIUS as nat, false);
    "\nfirst file `"@ + f.path + "` -> "@ + text::decimal_v(doc.hunks.len()) + " hunk(s)\n"@
}

/// A changeset as text: what is compared, the numbers, the files, and the hunks of the first
/// ordinary file, whose contents are `b`.
pub open spec fn report_v(cs: ChangesetV, b: BlobsV) -> Seq<char> {
    cs.head_name + " -> "@ + cs.base_name + "\n"@ + text::decimal_v(cs.files.len()) + " files, +"@
        + text::decimal_v(model::additions_v(cs.files) as nat) + " / -"@ + text::decimal_v(
        model::deletions_v(cs.files) as nat,
    ) + ", "@ + text::decimal_v(cs.commits.len()) + " commits, "@ + text::decimal_v(
        model::authors_v(cs.commits).to_set().len(),
    ) + " authors\n"@ + file_lines_v(cs.files, cs.files.len()) + (match first_plain_v(
        cs.files,
        0,
    ) {
        Some(i) => first_file_v(cs.files[i], b),
        None => Seq::empty(),
    })
}

/// The line of a file.
fn file_line(f: &FileChange) -> (r: String)
    ensures
        r@ == file_line_v(f.deep_view()),
{
    let mut s = "  ".to_owned();
    s.append(char_text(f.status.letter()).as_str());
    s.append(" ");
    s.append(pad_right(f.path.as_str(), 30).as_str());
    s.append(" +");
    s.append(pad_right(decimal_usize(f.additions).as_str(), 4).as_str());
    s.append(" -");
    s.append(pad_right(decimal_usize(f.deletions).as_str(), 4).as_str());
    s.append(" hash=");
    s.append(hex(f.content_hash, 16).as_str());
    if let Some(p) = &f.old_path {
        s.append("  (from ");
        s.append(p.as_str());
        s.append(")");
    }
    match f.special {
        Special::Binary { old_size, new_size } => {
            s.append("  [binary ");
            s.append(decimal(old_size).as_str());
            s.append("->");
            s.append(decimal(new_size).as_str());
            s.append("]");
        },
        Special::Submodule => {
            s.append("  [submodule]");
        },
        Special::Symlink => {
            s.append("  [symlink]");
        },
        Special::Plain => {},
    }
    s.append("\n");
    assert(s@ =~= file_line_v(f.deep_view()));
    s
}

/// The first ordinary file: the one whose contents the report needs.
pub fn first_plain(cs: &Changeset) -> (r: Option<usize>)
    ensures
        match r {
            Some(i) => i < cs.files@.len() && first_plain_v(cs.deep_view().files, 0) == Some(i as int),
            None => first_plain_v(cs.deep_view().files, 0) is None,
        },
{
    let ghost files = cs.deep_view().files;
    let mut i: usize = 0;
    while i < cs.files.len()
        invariant
            i <= cs.files@.len(),
            files == cs.deep_view().files,
            first_plain_v(files, i as int) == first_plain_v(files, 0),
        decreases cs.files@.len() - i,
    {
        assert(files[i as int] == cs.files@[i as int].deep_view());
        if matches!(cs.files[i].special, Special::Plain) {
            return Some(i);
        }
        i = i + 1;
    }
    None
}

/// A changeset as text.
pub fn report(cs: &Changeset, b: &Blobs) -> (r: String)
    requires
        cs.deep_view().totals_fit(),
    ensures
        r@ == report_v(cs.deep_view(), b.deep_view()),
{
    let ghost files = cs.deep_view().files;
    proof {
        model::lemma_totals_prefix(files, files.len() as int);
        assert(files.take(files.len() as int) =~= files);
    }
    let mut s = cs.head_name.clone();
    s.append(" -> ");
    s.append(cs.base_name.as_str());
    s.append("\n");
    s.append(decimal_usize(cs.files.len()).as_str());
    s.append(" files, +");
    s.append(decimal_usize(cs.total_additions()).as_str());
    s.append(" / -");
    s.append(decimal_usize(cs.total_deletions()).as_str());
    s.append(", ");
    s.append(decimal_usize(cs.commits.len()).as_str());
    s.append(" commits, ");
    s.append(decimal_usize(cs.author_count()).as_str());
    s.append(" authors\n");
    let ghost head = s@;
    let mut i: usize = 0;
    assert(s@ =~= head + file_lines_v(files, 0));
    while i < cs.files.len()
        invariant
            i <= cs.files@.len(),
            files == cs.deep_view().files,
            s@ =~= head + file_lines_v(files, i as nat),
        decreases cs.files@.len() - i,
    {
        assert(files[i as int] == cs.files@[i as int].deep_view());
        s.append(file_line(&cs.files[i]).as_str());
        i = i + 1;
    }
    if let Some(i) = first_plain(cs) {
        assert(files[i as int] == cs.files@[i as int].deep_view());
        let doc = Repo::load_file_diff(&cs.files[i], &b.old, &b.new, CONTEXT_RADIUS, false);
        s.append("\nfirst file `");
        s.append(cs.files[i].path.as_str());
        s.append("` -> ");
        s.append(decimal_usize(doc.hunks.len()).as_str());
        s.append(" hunk(s)\n");
    }
    assert(s@ =~= report_v(cs.deep_view(), b.deep_view()));
    s
}

// ---- Sizes and lines of a report ----

proof fn lemma_number_read(n: nat)
    requires
        n <= 0xffff,
    ensures
        text::parse_v(text::trim_v(text::decimal_v(n)), 10, 0xffff) == Some(n as int),
{
    text::law_decimal(n);
    let s = text::decimal_v(n);
    assert('0' <= s[0] <= '9');
    assert('0' <= s[s.len() - 1] <= '9');
    text::law_trim(Seq::empty(), s, Seq::empty());
    assert(Seq::<char>::empty() + s + Seq::<char>::empty() =~= s);
}

/// A size is written as its width, an `x` and its height.
pub proof fn law_dims(w: nat, h: nat)
    requires
        w <= 0xffff,
        h <= 0xffff,
    ensures
        dims_v(text::decimal_v(w) + seq!['x'] + text::decimal_v(h)) == Some((w as int, h as int)),
{
    let a = text::decimal_v(w);
    let b = text::decimal_v(h);
    let s = a + seq!['x'] + b;
    text::law_decimal(w);
    text::lemma_find_char(s, 'x');
    let i = text::find_char_v(s, 'x');
    assert(s[a.len() as int] == 'x');
    if i < a.len() {
        assert(s[i] == a[i]);
        assert('0' <= a[i] <= '9');
    }
    assert(i == a.len());
    assert(s.take(i) =~= a);
    assert(s.skip(i + 1) =~= b);
    lemma_number_read(w);
    lemma_number_read(h);
}

/// The file whose diff is told is the first that has lines to diff.
pub proof fn law_first_plain(files: Seq<FileV>, i: int)
    requires
        0 <= i <= files.len(),
    ensures
        first_plain_v(files, i) is None <==> forall|j: int|
            i <= j < files.len() ==> (#[trigger] files[j]).special != Special::Plain,
        first_plain_v(files, i) matches Some(k) ==> i <= k < files.len() && files[k].special
            == Special::Plain && forall|j: int|
            i <= j < k ==> (#[trigger] files[j]).special != Special::Plain,
    decreases files.len() - i,
{
    if i < files.len() && files[i].special != Special::Plain {
        law_first_plain(files, i + 1);
    }
}

/// A report tells its files one line after the other.
pub proof fn law_file_lines(files: Seq<FileV>, k: nat, f: FileV)
    requires
        k < files.len(),
    ensures
        file_lines_v(files, k + 1) == file_lines_v(files, k) + file_line_v(files[k as int]),
        f.special == Special::Plain && f.old_path is None ==> file_line_v(f) == "  "@
            + seq![f.status.letter_v()] + " "@ + text::pad_right_v(f.path, 30) + " +"@
            + text::pad_right_v(text::decimal_v(f.additions as nat), 4) + " -"@ + text::pad_right_v(
            text::decimal_v(f.deletions as nat),
            4,
        ) + " hash="@ + text::hex_v(f.content_hash as nat, 16) + "\n"@,
{
    if f.special == Special::Plain && f.old_path is None {
        assert(file_line_v(f) =~= "  "@ + seq![f.status.letter_v()] + " "@ + text::pad_right_v(
            f.path,
            30,
        ) + " +"@ + text::pad_right_v(text::decimal_v(f.additions as nat), 4) + " -"@
            + text::pad_right_v(text::decimal_v(f.deletions as nat), 4) + " hash="@ + text::hex_v(
            f.content_hash as nat,
            16,
        ) + "\n"@);
    }
}

/// A report notes where a file was before, and what kind of file it is unless it is a plain one.
pub proof fn law_file_kinds(p: Seq<char>, old_size: u64, new_size: u64)
    ensures
        origin_v(Some(p)) == "  (from "@ + p + ")"@,
        origin_v(None).len() == 0,
        special_v(Special::Plain).len() == 0,
        special_v(Special::Symlink) == "  [symlink]"@,
        special_v(Special::Submodule) == "  [submodule]"@,
        special_v(Special::Binary { old_size, new_size }) == "  [binary "@ + text::decimal_v(
            old_size as nat,
        ) + "->"@ + text::decimal_v(new_size as nat) + "]"@,
{
}

} // verus!
