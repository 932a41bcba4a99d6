//! The spec tree: what a `.kiro` directory holds, assembled from an
//! in-memory snapshot of its files.

use vstd::prelude::*;
use std::path::PathBuf;
use crate::order::{lex_lt, sort_strings, sorted_by, str_lt, string_views};
use crate::path::{ancestors, ancestors_of, file_name, file_name_of, join_path, joined_path};
use crate::text::{chars_of, eq_str, join, join_exec, lemma_chars_deep_view, lines, lines_of, find, find_exec, starts_with_str, strip_prefix, to_vec, trim, trim_slice, trim_start, trim_start_slice};
use self::meta::{lookup, meta_of, meta_result_view, opt_chars, str_eq, DocKindV, MetaErrorV, SpecMetaV};
use self::progress::progress_of;

pub mod fs_tree;
pub mod meta;
pub mod progress;
pub mod sort;

pub use self::fs_tree::{FsEntry, FsTree};
pub use self::meta::{parse_meta, Approval, DocKind, MetaError, SpecMeta};
pub use self::progress::{count_progress, Progress};
pub use self::sort::{sort_specs, SortKey};

verus! {

/// An in-memory copy of what `.kiro/` holds: one entry per spec directory
/// and the steering documents.
pub struct DirSnapshot {
    pub specs: Vec<SpecDirSnapshot>,
    pub steering: Vec<FileSnapshot>,
}

/// One spec directory's flat file listing.
pub struct SpecDirSnapshot {
    pub name: String,
    pub dir: PathBuf,
    pub files: Vec<FileSnapshot>,
}

/// One file's name, path and (decoded) content.
pub struct FileSnapshot {
    pub name: String,
    pub path: PathBuf,
    pub content: String,
}

pub struct FileSnapshotV {
    pub name: Seq<char>,
    pub path: PathBuf,
    pub content: Seq<char>,
}

pub struct SpecDirSnapshotV {
    pub name: Seq<char>,
    pub dir: PathBuf,
    pub files: Seq<FileSnapshotV>,
}

pub struct DirSnapshotV {
    pub specs: Seq<SpecDirSnapshotV>,
    pub steering: Seq<FileSnapshotV>,
}

impl View for FileSnapshot {
    type V = FileSnapshotV;

    open spec fn view(&self) -> FileSnapshotV {
        FileSnapshotV { name: self.name@, path: self.path, content: self.content@ }
    }
}

pub open spec fn files_view(v: Seq<FileSnapshot>) -> Seq<FileSnapshotV> {
    v.map_values(|f: FileSnapshot| f@)
}

impl View for SpecDirSnapshot {
    type V = SpecDirSnapshotV;

    open spec fn view(&self) -> SpecDirSnapshotV {
        SpecDirSnapshotV { name: self.name@, dir: self.dir, files: files_view(self.files@) }
    }
}

impl View for DirSnapshot {
    type V = DirSnapshotV;

    open spec fn view(&self) -> DirSnapshotV {
        DirSnapshotV {
            specs: self.specs@.map_values(|d: SpecDirSnapshot| d@),
            steering: files_view(self.steering@),
        }
    }
}

/// The assembled model: every spec and every steering document.
pub struct SpecRoot {
    pub specs: Vec<Spec>,
    pub steering: Vec<SteeringDoc>,
}

/// A steering document and its `inclusion` front-matter value.
pub struct SteeringDoc {
    pub name: String,
    pub path: PathBuf,
    pub inclusion: Inclusion,
}

/// The `inclusion` front-matter value of a steering document; `Always`
/// when absent or unrecognized.
#[derive(Debug, Clone, Copy, PartialEq, Eq, Structural)]
pub enum Inclusion {
    Always,
    Manual,
    FileMatch,
    Auto,
}

/// One spec directory's assembled model.
pub struct Spec {
    pub name: String,
    pub dir: PathBuf,
    pub meta: Result<SpecMeta, MetaError>,
    pub docs: Vec<DocEntry>,
    pub definition: Option<String>,
}

/// One document slot of a spec.
pub struct DocEntry {
    pub kind: DocKind,
    pub path: PathBuf,
    pub exists: bool,
    pub status: DocStatus,
    pub progress: Option<Progress>,
}

/// Approval status of a document node; `NotTracked` for documents that
/// never carry an approval.
#[derive(Debug, Clone, Copy, PartialEq, Eq, Structural)]
pub enum DocStatus {
    Missing,
    Generated,
    Approved,
    NoRecord,
    NotTracked,
}

/// Stable identifier of a tree node.
#[derive(Debug, Clone, PartialEq, Eq, Hash)]
pub enum NodeId {
    Spec(String),
    Doc(String, DocKind),
    SteeringGroup,
    Steering(String),
    Dir(PathBuf),
    File(PathBuf),
}

/// What the tree browses: a `.kiro` spec root, or a plain directory tree of
/// markdown files.
pub enum TreeSource {
    Kiro(SpecRoot),
    Files(FsTree),
}

impl TreeSource {
    /// The spec root, in `.kiro` mode only.
    pub fn as_kiro(&self) -> (r: Option<&SpecRoot>)
        ensures
            match self {
                TreeSource::Kiro(root) => r == Some(root),
                TreeSource::Files(_) => r is None,
            },
    {
        match self {
            TreeSource::Kiro(root) => Some(root),
            TreeSource::Files(_) => None,
        }
    }
}

pub struct DocEntryV {
    pub kind: DocKindV,
    pub path: PathBuf,
    pub exists: bool,
    pub status: DocStatus,
    pub progress: Option<Progress>,
}

impl View for DocEntry {
    type V = DocEntryV;

    open spec fn view(&self) -> DocEntryV {
        DocEntryV {
            kind: self.kind@,
            path: self.path,
            exists: self.exists,
            status: self.status,
            progress: self.progress,
        }
    }
}

pub struct SpecV {
    pub name: Seq<char>,
    pub dir: PathBuf,
    pub meta: Result<SpecMetaV, MetaErrorV>,
    pub docs: Seq<DocEntryV>,
    pub definition: Option<Seq<char>>,
}

impl View for Spec {
    type V = SpecV;

    open spec fn view(&self) -> SpecV {
        SpecV {
            name: self.name@,
            dir: self.dir,
            meta: meta_result_view(self.meta),
            docs: self.docs@.map_values(|d: DocEntry| d@),
            definition: opt_chars(self.definition),
        }
    }
}

pub struct SteeringDocV {
    pub name: Seq<char>,
    pub path: PathBuf,
    pub inclusion: Inclusion,
}

impl View for SteeringDoc {
    type V = SteeringDocV;

    open spec fn view(&self) -> SteeringDocV {
        SteeringDocV { name: self.name@, path: self.path, inclusion: self.inclusion }
    }
}

pub struct SpecRootV {
    pub specs: Seq<SpecV>,
    pub steering: Seq<SteeringDocV>,
}

impl View for SpecRoot {
    type V = SpecRootV;

    open spec fn view(&self) -> SpecRootV {
        SpecRootV {
            specs: self.specs@.map_values(|s: Spec| s@),
            steering: self.steering@.map_values(|d: SteeringDoc| d@),
        }
    }
}

// ------------------------------------------------------------ definition

/// Index of the first line at or after `i` that reads `## 정의` once trimmed.
pub open spec fn definition_heading(ls: Seq<Seq<char>>, i: int) -> Option<int>
    decreases ls.len() - i,
{
    if i < 0 || i >= ls.len() {
        None
    } else if trim(ls[i]) == "## 정의"@ {
        Some(i)
    } else {
        definition_heading(ls, i + 1)
    }
}

/// Index of the first h2 heading line at or after `i` (`ls.len()` if none).
pub open spec fn next_h2(ls: Seq<Seq<char>>, i: int) -> int
    decreases ls.len() - i,
{
    if i < 0 || i >= ls.len() {
        ls.len() as int
    } else if "## "@.is_prefix_of(trim_start(ls[i])) {
        i
    } else {
        next_h2(ls, i + 1)
    }
}

/// The definition body ends at the first h2 heading: the line found
/// reads `## ` once its leading white space is trimmed, and no line before
/// it from `i` on does.
pub proof fn law_section_ends_at_first_h2(ls: Seq<Seq<char>>, i: int)
    requires
        0 <= i <= ls.len(),
    ensures
        i <= next_h2(ls, i) <= ls.len(),
        next_h2(ls, i) < ls.len() ==> "## "@.is_prefix_of(trim_start(ls[next_h2(ls, i)])),
        forall|k: int| i <= k < next_h2(ls, i) ==> !"## "@.is_prefix_of(#[trigger] trim_start(ls[k])),
    decreases ls.len() - i,
{
    if i < ls.len() && !"## "@.is_prefix_of(trim_start(ls[i])) {
        law_section_ends_at_first_h2(ls, i + 1);
    }
}

/// Deeper headings (`### ...`) never end a section: they stay in the body.
pub proof fn law_subheadings_stay_in_section(ls: Seq<Seq<char>>, i: int, k: int)
    requires
        0 <= i <= k < ls.len(),
        "###"@.is_prefix_of(trim_start(ls[k])),
    ensures
        next_h2(ls, i) != k,
{
    reveal_strlit("###");
    reveal_strlit("## ");
    law_section_ends_at_first_h2(ls, i);
    let t = trim_start(ls[k]);
    assert("###"@.len() == 3 && "###"@[2] == '#');
    assert(t.subrange(0, 3) == "###"@);
    assert(t.subrange(0, 3)[2] == t[2]);
    if "## "@.is_prefix_of(t) {
        assert("## "@.len() == 3 && "## "@[2] == ' ');
        assert(t.subrange(0, 3) == "## "@);
    }
}

/// The section starts at the first line that reads `## 정의` once trimmed:
/// the line found reads so, and no line before it from `i` on does.
pub proof fn law_section_starts_at_first_heading(ls: Seq<Seq<char>>, i: int)
    requires
        0 <= i <= ls.len(),
    ensures
        definition_heading(ls, i) matches Some(s) ==> i <= s < ls.len() && trim(ls[s]) == "## 정의"@,
        forall|k: int| i <= k < ls.len() && definition_heading(ls, i) != Some(k) && (definition_heading(ls, i) is None
            || k < definition_heading(ls, i)->0) ==> #[trigger] trim(ls[k]) != "## 정의"@,
    decreases ls.len() - i,
{
    if i < ls.len() && trim(ls[i]) != "## 정의"@ {
        law_section_starts_at_first_heading(ls, i + 1);
    }
}

pub open spec fn blank(l: Seq<char>) -> bool {
    trim(l).len() == 0
}

/// First index in `s..e` of a non-blank line (`e` if none).
pub open spec fn skip_blank(ls: Seq<Seq<char>>, s: int, e: int) -> int
    decreases e - s,
{
    if s < e && blank(ls[s]) {
        skip_blank(ls, s + 1, e)
    } else {
        s
    }
}

/// End of `s..e` once its trailing blank lines are dropped.
pub open spec fn back_blank(ls: Seq<Seq<char>>, s: int, e: int) -> int
    decreases e - s,
{
    if e > s && blank(ls[e - 1]) {
        back_blank(ls, s, e - 1)
    } else {
        e
    }
}

/// The body of a document's `## 정의` section: the lines after the heading
/// up to the next h2 heading, without leading and trailing blank lines,
/// joined with `\n`; `None` when there is no such heading or the body is
/// blank.
pub open spec fn definition_of(md: Seq<char>) -> Option<Seq<char>> {
    let ls = lines(md);
    match definition_heading(ls, 0) {
        None => None,
        Some(start) => {
            let end = next_h2(ls, start + 1);
            let s = skip_blank(ls, start + 1, end);
            let e = back_blank(ls, s, end);
            if s == e {
                None
            } else {
                Some(join(ls.subrange(s, e), "\n"@))
            }
        },
    }
}

/// Extracts the body of a document's `## 정의` section.
pub fn definition(doc_md: &str) -> (r: Option<String>)
    ensures
        opt_chars(r) == definition_of(doc_md@),
{
    let chars = chars_of(doc_md);
    let ls = lines_of(chars.as_slice());
    let ghost l = ls.deep_view();
    let mut start: usize = 0;
    while start < ls.len() && !eq_str(trim_slice(ls[start].as_slice()), "## 정의")
        invariant
            start <= ls.len(),
            l == ls.deep_view(),
            definition_heading(l, 0) == definition_heading(l, start as int),
        decreases ls.len() - start,
    {
        proof {
            lemma_chars_deep_view(ls@[start as int]);
        }
        start = start + 1;
    }
    if start == ls.len() {
        return None;
    }
    proof {
        lemma_chars_deep_view(ls@[start as int]);
    }
    let mut end: usize = start + 1;
    while end < ls.len() && !starts_with_str(trim_start_slice(ls[end].as_slice()), "## ")
        invariant
            start < end <= ls.len(),
            l == ls.deep_view(),
            next_h2(l, start + 1) == next_h2(l, end as int),
        decreases ls.len() - end,
    {
        proof {
            lemma_chars_deep_view(ls@[end as int]);
        }
        end = end + 1;
    }
    proof {
        if end < ls.len() {
            lemma_chars_deep_view(ls@[end as int]);
        }
    }
    let mut s: usize = start + 1;
    while s < end && trim_slice(ls[s].as_slice()).len() == 0
        invariant
            start < s <= end <= ls.len(),
            l == ls.deep_view(),
            skip_blank(l, start + 1, end as int) == skip_blank(l, s as int, end as int),
        decreases end - s,
    {
        proof {
            lemma_chars_deep_view(ls@[s as int]);
        }
        s = s + 1;
    }
    proof {
        if s < end {
            lemma_chars_deep_view(ls@[s as int]);
        }
    }
    let mut e: usize = end;
    while e > s && trim_slice(ls[e - 1].as_slice()).len() == 0
        invariant
            s <= e <= end <= ls.len(),
            l == ls.deep_view(),
            back_blank(l, s as int, end as int) == back_blank(l, s as int, e as int),
        decreases e,
    {
        proof {
            lemma_chars_deep_view(ls@[e - 1]);
        }
        e = e - 1;
    }
    proof {
        if e > s {
            lemma_chars_deep_view(ls@[e - 1]);
        }
    }
    if s == e {
        return None;
    }
    let mut parts: Vec<Vec<char>> = Vec::new();
    let mut k: usize = s;
    while k < e
        invariant
            s <= k <= e <= ls.len(),
            l == ls.deep_view(),
            parts.deep_view() == l.subrange(s as int, k as int),
        decreases e - k,
    {
        proof {
            lemma_chars_deep_view(ls@[k as int]);
        }
        let line = to_vec(ls[k].as_slice());
        crate::text::push_chars(&mut parts, line);
        assert(l.subrange(s as int, k + 1) =~= l.subrange(s as int, k as int).push(l[k as int]));
        k = k + 1;
    }
    let nl = vec!['\n'];
    assert(nl@ =~= "\n"@) by {
        reveal_strlit("\n");
    }
    let body = join_exec(&parts, nl.as_slice());
    Some(crate::text::string_of(body.as_slice()))
}

// ------------------------------------------------------------- inclusion

/// The text between a leading `---\n` and the next `\n---`.
pub open spec fn front_matter_of(src: Seq<char>) -> Option<Seq<char>> {
    if "---\n"@.is_prefix_of(src) {
        let body = src.subrange(4, src.len() as int);
        match find(body, "\n---"@) {
            Some(pos) => Some(body.subrange(0, pos)),
            None => None,
        }
    } else {
        None
    }
}

/// Index of the first character at or after `i` that is not `c`.
pub open spec fn lead_c(s: Seq<char>, c: char, i: int) -> int
    decreases s.len() - i,
{
    if 0 <= i < s.len() && s[i] == c {
        lead_c(s, c, i + 1)
    } else {
        i
    }
}

/// End of `s[lo..j]` once its trailing `c`s are dropped.
pub open spec fn back_c(s: Seq<char>, c: char, lo: int, j: int) -> int
    decreases j - lo,
{
    if j > lo && s[j - 1] == c {
        back_c(s, c, lo, j - 1)
    } else {
        j
    }
}

/// `str::trim_matches` with a `char` pattern.
pub open spec fn trim_c(s: Seq<char>, c: char) -> Seq<char> {
    let a = lead_c(s, c, 0);
    s.subrange(a, back_c(s, c, a, s.len() as int))
}

/// The inclusion a front-matter value names.
pub open spec fn inclusion_value(v: Seq<char>) -> Inclusion {
    if v == "always"@ {
        Inclusion::Always
    } else if v == "manual"@ {
        Inclusion::Manual
    } else if v == "fileMatch"@ {
        Inclusion::FileMatch
    } else if v == "auto"@ {
        Inclusion::Auto
    } else {
        Inclusion::Always
    }
}

/// The inclusion an `inclusion: value` line sets, if the line is one.
pub open spec fn line_inclusion(l: Seq<char>) -> Option<Inclusion> {
    match strip_prefix(trim(l), "inclusion"@) {
        None => None,
        Some(rest) => match strip_prefix(trim_start(rest), seq![':']) {
            None => None,
            Some(v) => Some(inclusion_value(trim_c(trim_c(trim(v), '"'), '\''))),
        },
    }
}

/// The inclusion set by the first `inclusion:` line at or after `i`.
pub open spec fn inclusion_from(ls: Seq<Seq<char>>, i: int) -> Option<Inclusion>
    decreases ls.len() - i,
{
    if i < 0 || i >= ls.len() {
        None
    } else {
        match line_inclusion(ls[i]) {
            Some(x) => Some(x),
            None => inclusion_from(ls, i + 1),
        }
    }
}

/// The `inclusion` value of a steering document: taken from the first
/// `inclusion:` line of its front matter, `Always` when there is none.
pub open spec fn inclusion_of(md: Seq<char>) -> Inclusion {
    match front_matter_of(md) {
        Some(front) => match inclusion_from(lines(front), 0) {
            Some(x) => x,
            None => Inclusion::Always,
        },
        None => Inclusion::Always,
    }
}

/// The front-matter block of a document, if it has one.
fn front_matter_block(src: &[char]) -> (r: Option<Vec<char>>)
    ensures
        match r {
            Some(v) => front_matter_of(src@) == Some(v@),
            None => front_matter_of(src@) is None,
        },
{
    if !starts_with_str(src, "---\n") {
        return None;
    }
    proof {
        reveal_strlit("---\n");
    }
    let body = &src[4..src.len()];
    match crate::text::find_str(body, "\n---") {
        Some(pos) => {
            proof {
                crate::text::lemma_find_from_bounds(body@, "\n---"@, 0);
            }
            Some(crate::text::slice_vec(body, 0, pos))
        },
        None => None,
    }
}

/// `s.trim_matches(c)`.
fn trim_c_slice(s: &[char], c: char) -> (r: &[char])
    ensures
        r@ == trim_c(s@, c),
{
    let mut a: usize = 0;
    while a < s.len() && s[a] == c
        invariant
            a <= s.len(),
            lead_c(s@, c, 0) == lead_c(s@, c, a as int),
        decreases s.len() - a,
    {
        a = a + 1;
    }
    let mut b: usize = s.len();
    while b > a && s[b - 1] == c
        invariant
            a <= b <= s.len(),
            back_c(s@, c, a as int, s@.len() as int) == back_c(s@, c, a as int, b as int),
        decreases b,
    {
        b = b - 1;
    }
    &s[a..b]
}

fn line_inclusion_exec(l: &[char]) -> (r: Option<Inclusion>)
    ensures
        r == line_inclusion(l@),
{
    let t = trim_slice(l);
    if !starts_with_str(t, "inclusion") {
        return None;
    }
    proof {
        reveal_strlit("inclusion");
    }
    let rest = trim_start_slice(&t[9..t.len()]);
    if rest.len() == 0 || rest[0] != ':' {
        proof {
            if seq![':'].is_prefix_of(rest@) {
                assert(rest@[0] == seq![':'][0]);
            }
        }
        return None;
    }
    assert(seq![':'].is_prefix_of(rest@)) by {
        assert(rest@.subrange(0, 1) =~= seq![':']);
    }
    let v = trim_slice(&rest[1..rest.len()]);
    let v = trim_c_slice(v, '"');
    let v = trim_c_slice(v, '\'');
    let x = if eq_str(v, "always") {
        Inclusion::Always
    } else if eq_str(v, "manual") {
        Inclusion::Manual
    } else if eq_str(v, "fileMatch") {
        Inclusion::FileMatch
    } else if eq_str(v, "auto") {
        Inclusion::Auto
    } else {
        Inclusion::Always
    };
    Some(x)
}

/// Reads a steering document's `inclusion` front-matter value; `Always`
/// without front matter, without an `inclusion` key, or for an unknown
/// value.
pub fn inclusion(steering_md: &str) -> (r: Inclusion)
    ensures
        r == inclusion_of(steering_md@),
{
    let chars = chars_of(steering_md);
    match front_matter_block(chars.as_slice()) {
        None => Inclusion::Always,
        Some(front) => {
            let ls = lines_of(front.as_slice());
            let mut i: usize = 0;
            while i < ls.len()
                invariant
                    i <= ls.len(),
                    ls.deep_view() == lines(front@),
                    front_matter_of(steering_md@) == Some(front@),
                    inclusion_from(lines(front@), 0) == inclusion_from(lines(front@), i as int),
                decreases ls.len() - i,
            {
                proof {
                    lemma_chars_deep_view(ls@[i as int]);
                }
                match line_inclusion_exec(ls[i].as_slice()) {
                    Some(x) => {
                        return x;
                    },
                    None => {},
                }
                i = i + 1;
            }
            Inclusion::Always
        },
    }
}

// ----------------------------------------------------------------- build

/// The first file of a listing with the given name.
pub open spec fn find_file_of(files: Seq<FileSnapshotV>, name: Seq<char>) -> Option<FileSnapshotV>
    decreases files.len(),
{
    if files.len() == 0 {
        None
    } else if files[0].name == name {
        Some(files[0])
    } else {
        find_file_of(files.drop_first(), name)
    }
}

/// The parsed `spec.json` of a spec directory.
pub open spec fn spec_meta_of(files: Seq<FileSnapshotV>) -> Result<SpecMetaV, MetaErrorV> {
    match find_file_of(files, "spec.json"@) {
        Some(f) => meta_of(f.content),
        None => Err(MetaErrorV::InvalidJson("spec.json not found"@)),
    }
}

/// The approval status `spec.json` gives a document kind.
pub open spec fn status_of(meta: Result<SpecMetaV, MetaErrorV>, kind: DocKindV) -> DocStatus {
    match meta {
        Err(_) => DocStatus::NoRecord,
        Ok(m) => match lookup(m.approvals, kind) {
            None => DocStatus::NoRecord,
            Some(a) => if a.approved {
                DocStatus::Approved
            } else if a.generated {
                DocStatus::Generated
            } else {
                DocStatus::Missing
            },
        },
    }
}

/// The first slot is `bugfix.md` when that file exists or `spec.json`
/// records a bugfix approval, `requirements.md` otherwise.
pub open spec fn uses_bugfix(sd: SpecDirSnapshotV) -> bool {
    ||| find_file_of(sd.files, "bugfix.md"@) is Some
    ||| (spec_meta_of(sd.files) matches Ok(m) && lookup(m.approvals, DocKindV::Bugfix) is Some)
}

pub open spec fn first_file_name(sd: SpecDirSnapshotV) -> Seq<char> {
    if uses_bugfix(sd) {
        "bugfix.md"@
    } else {
        "requirements.md"@
    }
}

pub open spec fn first_kind(sd: SpecDirSnapshotV) -> DocKindV {
    if uses_bugfix(sd) {
        DocKindV::Bugfix
    } else {
        DocKindV::Requirements
    }
}

/// One of the approval-tracked slots.
pub open spec fn slot(sd: SpecDirSnapshotV, kind: DocKindV, file: Seq<char>, progress: Option<Progress>) -> DocEntryV {
    DocEntryV {
        kind,
        path: joined_path(sd.dir, file),
        exists: find_file_of(sd.files, file) is Some,
        status: status_of(spec_meta_of(sd.files), kind),
        progress,
    }
}

/// The progress of `tasks.md`, when it exists and has checkboxes.
pub open spec fn tasks_progress(sd: SpecDirSnapshotV) -> Option<Progress> {
    match find_file_of(sd.files, "tasks.md"@) {
        Some(f) => progress_of(f.content),
        None => None,
    }
}

/// The canonical slots: first slot, biz-process, design, tasks, and
/// research when `research.md` exists.
pub open spec fn fixed_docs(sd: SpecDirSnapshotV) -> Seq<DocEntryV> {
    let base = seq![
        slot(sd, first_kind(sd), first_file_name(sd), None),
        slot(sd, DocKindV::BizProcess, "biz-process.md"@, None),
        slot(sd, DocKindV::Design, "design.md"@, None),
        slot(sd, DocKindV::Tasks, "tasks.md"@, tasks_progress(sd)),
    ];
    if find_file_of(sd.files, "research.md"@) is Some {
        base.push(
            DocEntryV {
                kind: DocKindV::Research,
                path: joined_path(sd.dir, "research.md"@),
                exists: true,
                status: DocStatus::NotTracked,
                progress: None,
            },
        )
    } else {
        base
    }
}

/// The file names with a slot rule of their own.
pub open spec fn is_standard(name: Seq<char>) -> bool {
    ||| name == "spec.json"@
    ||| name == "requirements.md"@
    ||| name == "bugfix.md"@
    ||| name == "biz-process.md"@
    ||| name == "design.md"@
    ||| name == "tasks.md"@
    ||| name == "research.md"@
}

/// The names of the other files, in listing order.
pub open spec fn other_names(files: Seq<FileSnapshotV>) -> Seq<Seq<char>>
    decreases files.len(),
{
    if files.len() == 0 {
        Seq::empty()
    } else {
        let rest = other_names(files.drop_last());
        if is_standard(files.last().name) {
            rest
        } else {
            rest.push(files.last().name)
        }
    }
}

/// The slot of any other file.
pub open spec fn other_entry(dir: PathBuf, name: Seq<char>) -> DocEntryV {
    DocEntryV {
        kind: DocKindV::Other(name),
        path: joined_path(dir, name),
        exists: true,
        status: DocStatus::NotTracked,
        progress: None,
    }
}

pub open spec fn other_name(k: DocKindV) -> Seq<char> {
    match k {
        DocKindV::Other(n) => n,
        _ => Seq::empty(),
    }
}

/// `tail` holds one slot per other file, sorted by file name.
pub open spec fn others_ok(sd: SpecDirSnapshotV, tail: Seq<DocEntryV>) -> bool {
    let names = tail.map_values(|e: DocEntryV| other_name(e.kind));
    &&& forall|i: int| 0 <= i < tail.len() ==> #[trigger] tail[i] == other_entry(sd.dir, names[i])
    &&& sorted_by(names, str_lt())
    &&& names.to_multiset() == other_names(sd.files).to_multiset()
}

/// The `## 정의` body of the first slot's document.
pub open spec fn spec_definition_of(sd: SpecDirSnapshotV) -> Option<Seq<char>> {
    match find_file_of(sd.files, first_file_name(sd)) {
        Some(f) => definition_of(f.content),
        None => None,
    }
}

/// `r` is the spec assembled from `sd`.
pub open spec fn built_spec(sd: SpecDirSnapshotV, r: SpecV) -> bool {
    let k = fixed_docs(sd).len() as int;
    &&& r.name == sd.name
    &&& r.dir == sd.dir
    &&& r.meta == spec_meta_of(sd.files)
    &&& r.definition == spec_definition_of(sd)
    &&& k <= r.docs.len()
    &&& r.docs.subrange(0, k) == fixed_docs(sd)
    &&& others_ok(sd, r.docs.subrange(k, r.docs.len() as int))
}

/// Every file of the listing has a content short enough to count.
pub open spec fn countable(files: Seq<FileSnapshotV>) -> bool {
    forall|i: int| 0 <= i < files.len() ==> #[trigger] files[i].content.len() <= u32::MAX
}

fn find_file<'a>(files: &'a Vec<FileSnapshot>, name: &str) -> (r: Option<&'a FileSnapshot>)
    ensures
        match r {
            Some(f) => find_file_of(files_view(files@), name@) == Some(f@) && files_view(files@).contains(f@),
            None => find_file_of(files_view(files@), name@) is None,
        },
{
    let ghost fv = files_view(files@);
    let mut i: usize = 0;
    assert(fv.subrange(0, fv.len() as int) =~= fv);
    while i < files.len()
        invariant
            i <= files.len(),
            fv == files_view(files@),
            find_file_of(fv, name@) == find_file_of(fv.subrange(i as int, fv.len() as int), name@),
        decreases files.len() - i,
    {
        let ghost rest = fv.subrange(i as int, fv.len() as int);
        assert(rest.drop_first() =~= fv.subrange(i + 1, fv.len() as int));
        if str_eq(files[i].name.as_str(), name) {
            assert(fv[i as int] == files@[i as int]@);
            return Some(&files[i]);
        }
        i = i + 1;
    }
    None
}

fn doc_status(meta: &Result<SpecMeta, MetaError>, kind: &DocKind) -> (r: DocStatus)
    ensures
        r == status_of(meta_result_view(*meta), kind@),
{
    match meta {
        Err(_) => DocStatus::NoRecord,
        Ok(m) => match m.approval(kind) {
            None => DocStatus::NoRecord,
            Some(a) => if a.approved {
                DocStatus::Approved
            } else if a.generated {
                DocStatus::Generated
            } else {
                DocStatus::Missing
            },
        },
    }
}

fn is_standard_exec(name: &str) -> (r: bool)
    ensures
        r == is_standard(name@),
{
    str_eq(name, "spec.json") || str_eq(name, "requirements.md") || str_eq(name, "bugfix.md")
        || str_eq(name, "biz-process.md") || str_eq(name, "design.md") || str_eq(name, "tasks.md")
        || str_eq(name, "research.md")
}

fn slot_entry(sd: &SpecDirSnapshot, meta: &Result<SpecMeta, MetaError>, kind: DocKind, file: &str, progress: Option<Progress>) -> (r: DocEntry)
    requires
        meta_result_view(*meta) == spec_meta_of(sd@.files),
    ensures
        r@ == slot(sd@, kind@, file@, progress),
{
    let status = doc_status(meta, &kind);
    let exists = find_file(&sd.files, file).is_some();
    DocEntry { kind, path: join_path(&sd.dir, file), exists, status, progress }
}

/// Assembles one spec from its directory listing: the canonical slots,
/// then every other file sorted by name.
fn build_spec(sd: &SpecDirSnapshot) -> (r: Spec)
    requires
        countable(sd@.files),
    ensures
        built_spec(sd@, r@),
{
    let meta = match find_file(&sd.files, "spec.json") {
        Some(f) => parse_meta(f.content.as_str()),
        None => Err(MetaError::InvalidJson("spec.json not found".to_owned())),
    };
    let mut docs: Vec<DocEntry> = Vec::new();
    let bugfix_file = find_file(&sd.files, "bugfix.md");
    let has_bugfix_approval = match &meta {
        Ok(m) => m.has_approval(&DocKind::Bugfix),
        Err(_) => false,
    };
    let use_bugfix = bugfix_file.is_some() || has_bugfix_approval;
    let first_name = if use_bugfix { "bugfix.md" } else { "requirements.md" };
    let first_kind = if use_bugfix { DocKind::Bugfix } else { DocKind::Requirements };
    let first_file = find_file(&sd.files, first_name);
    docs.push(slot_entry(sd, &meta, first_kind, first_name, None));
    let definition = match first_file {
        Some(f) => definition(f.content.as_str()),
        None => None,
    };
    docs.push(slot_entry(sd, &meta, DocKind::BizProcess, "biz-process.md", None));
    docs.push(slot_entry(sd, &meta, DocKind::Design, "design.md", None));
    let tasks_progress = match find_file(&sd.files, "tasks.md") {
        Some(f) => {
            proof {
                let j = choose|j: int| 0 <= j < files_view(sd.files@).len() && files_view(sd.files@)[j] == f@;
                assert(files_view(sd.files@)[j].content.len() <= u32::MAX);
            }
            count_progress(f.content.as_str())
        },
        None => None,
    };
    docs.push(slot_entry(sd, &meta, DocKind::Tasks, "tasks.md", tasks_progress));
    if find_file(&sd.files, "research.md").is_some() {
        docs.push(
            DocEntry {
                kind: DocKind::Research,
                path: join_path(&sd.dir, "research.md"),
                exists: true,
                status: DocStatus::NotTracked,
                progress: None,
            },
        );
    }
    let ghost fixed = docs@.map_values(|d: DocEntry| d@);
    assert(fixed =~= fixed_docs(sd@));
    let mut names: Vec<String> = Vec::new();
    let ghost fv = files_view(sd.files@);
    let mut i: usize = 0;
    while i < sd.files.len()
        invariant
            i <= sd.files.len(),
            fv == files_view(sd.files@),
            string_views(names@) == other_names(fv.take(i as int)),
        decreases sd.files.len() - i,
    {
        assert(fv.take(i + 1).drop_last() =~= fv.take(i as int));
        assert(fv.take(i + 1).last() == sd.files@[i as int]@);
        if !is_standard_exec(sd.files[i].name.as_str()) {
            names.push(sd.files[i].name.clone());
            assert(string_views(names@) =~= other_names(fv.take(i as int)).push(sd.files@[i as int].name@));
        }
        i = i + 1;
    }
    assert(fv.take(sd.files.len() as int) =~= fv);
    let ghost unsorted = string_views(names@);
    sort_strings(&mut names);
    let ghost sorted = string_views(names@);
    let k = docs.len();
    let mut j: usize = 0;
    while j < names.len()
        invariant
            j <= names.len(),
            docs@.len() == k + j,
            string_views(names@) == sorted,
            docs@.map_values(|d: DocEntry| d@).subrange(0, k as int) == fixed,
            forall|t: int| 0 <= t < j ==> #[trigger] docs@[k + t]@ == other_entry(sd.dir, sorted[t]),
        decreases names.len() - j,
    {
        let entry = DocEntry {
            kind: DocKind::Other(names[j].clone()),
            path: join_path(&sd.dir, names[j].as_str()),
            exists: true,
            status: DocStatus::NotTracked,
            progress: None,
        };
        docs.push(entry);
        assert(docs@.map_values(|d: DocEntry| d@).subrange(0, k as int) =~= fixed);
        j = j + 1;
    }
    let r = Spec { name: sd.name.clone(), dir: sd.dir.clone(), meta, docs, definition };
    proof {
        let dv = r@.docs;
        let tail = dv.subrange(k as int, dv.len() as int);
        let tn = tail.map_values(|e: DocEntryV| other_name(e.kind));
        assert forall|t: int| 0 <= t < tail.len() implies tn[t] == sorted[t] by {
            assert(tail[t] == docs@[k + t]@);
        }
        assert(tn =~= sorted);
        assert(dv.subrange(0, k as int) =~= fixed);
        assert forall|t: int| 0 <= t < tail.len() implies #[trigger] tail[t] == other_entry(sd@.dir, tn[t]) by {
            assert(tail[t] == docs@[k + t]@);
        }
    }
    r
}

/// Assembles a [`SpecRoot`] from a snapshot, keeping the listing order of
/// specs and steering documents. Each spec's documents come in canonical
/// order (first slot, biz-process, design, tasks, research if present),
/// followed by its other files sorted by name.
pub fn build(snapshot: &DirSnapshot) -> (r: SpecRoot)
    requires
        forall|i: int| 0 <= i < snapshot@.specs.len() ==> countable(#[trigger] snapshot@.specs[i].files),
    ensures
        r@.specs.len() == snapshot@.specs.len(),
        forall|i: int| 0 <= i < r@.specs.len() ==> built_spec(snapshot@.specs[i], #[trigger] r@.specs[i]),
        r@.steering.len() == snapshot@.steering.len(),
        forall|i: int| 0 <= i < r@.steering.len() ==> #[trigger] r@.steering[i] == (SteeringDocV {
            name: snapshot@.steering[i].name,
            path: snapshot@.steering[i].path,
            inclusion: inclusion_of(snapshot@.steering[i].content),
        }),
{
    let mut specs: Vec<Spec> = Vec::new();
    let mut i: usize = 0;
    while i < snapshot.specs.len()
        invariant
            i <= snapshot.specs.len(),
            specs@.len() == i,
            forall|j: int| 0 <= j < snapshot@.specs.len() ==> countable(#[trigger] snapshot@.specs[j].files),
            forall|j: int| 0 <= j < i ==> built_spec(snapshot@.specs[j], #[trigger] specs@[j]@),
        decreases snapshot.specs.len() - i,
    {
        assert(snapshot@.specs[i as int] == snapshot.specs@[i as int]@);
        let s = build_spec(&snapshot.specs[i]);
        specs.push(s);
        i = i + 1;
    }
    let mut steering: Vec<SteeringDoc> = Vec::new();
    let mut j: usize = 0;
    while j < snapshot.steering.len()
        invariant
            j <= snapshot.steering.len(),
            steering@.len() == j,
            forall|t: int| 0 <= t < j ==> #[trigger] steering@[t]@ == (SteeringDocV {
                name: snapshot@.steering[t].name,
                path: snapshot@.steering[t].path,
                inclusion: inclusion_of(snapshot@.steering[t].content),
            }),
        decreases snapshot.steering.len() - j,
    {
        let f = &snapshot.steering[j];
        steering.push(SteeringDoc { name: f.name.clone(), path: f.path.clone(), inclusion: inclusion(f.content.as_str()) });
        j = j + 1;
    }
    let r = SpecRoot { specs, steering };
    proof {
        assert forall|t: int| 0 <= t < r@.specs.len() implies built_spec(snapshot@.specs[t], #[trigger] r@.specs[t]) by {
            assert(r@.specs[t] == specs@[t]@);
        }
        assert forall|t: int| 0 <= t < r@.steering.len() implies #[trigger] r@.steering[t] == (SteeringDocV {
            name: snapshot@.steering[t].name,
            path: snapshot@.steering[t].path,
            inclusion: inclusion_of(snapshot@.steering[t].content),
        }) by {
            assert(r@.steering[t] == steering@[t]@);
        }
    }
    r
}

// ------------------------------------------------------------- find_root

/// Where a `.kiro` root is looked for from `start`, in order: `start/.kiro`;
/// `start` itself when it is named `.kiro`; then `.kiro` inside each
/// ancestor of `start`, nearest first.
pub open spec fn root_candidates(start: PathBuf) -> Seq<PathBuf> {
    let own = if file_name_of(start) == Some(".kiro"@) { seq![start] } else { Seq::empty() };
    let ups = ancestors_of(start);
    let above = if ups.len() > 0 { ups.drop_first() } else { ups };
    seq![joined_path(start, ".kiro"@)] + own + above.map_values(|a: PathBuf| joined_path(a, ".kiro"@))
}

/// The first candidate whose answer is `true`.
pub open spec fn first_answered(cands: Seq<PathBuf>, answers: Seq<bool>) -> Option<PathBuf>
    decreases cands.len(),
{
    if cands.len() == 0 || answers.len() == 0 {
        None
    } else if answers[0] {
        Some(cands[0])
    } else {
        first_answered(cands.drop_first(), answers.drop_first())
    }
}

/// The candidates of [`root_candidates`], in order.
pub fn root_candidate_list(start: &PathBuf) -> (r: Vec<PathBuf>)
    ensures
        r@ == root_candidates(*start),
{
    let ghost cands = root_candidates(*start);
    let mut out: Vec<PathBuf> = Vec::new();
    out.push(join_path(start, ".kiro"));
    let own = match file_name(start) {
        Some(n) => str_eq(n.as_str(), ".kiro"),
        None => false,
    };
    if own {
        out.push(start.clone());
    }
    let ghost head = out@;
    proof {
        let own_s = if file_name_of(*start) == Some(".kiro"@) { seq![*start] } else { Seq::<PathBuf>::empty() };
        assert(head =~= seq![joined_path(*start, ".kiro"@)] + own_s);
    }
    let ups = ancestors(start);
    let ghost above = if ups@.len() > 0 { ups@.drop_first() } else { ups@ };
    let ghost mapped = above.map_values(|a: PathBuf| joined_path(a, ".kiro"@));
    let mut i: usize = 1;
    if ups.len() == 0 {
        assert(mapped =~= Seq::<PathBuf>::empty());
        assert(out@ =~= head + mapped);
        return out;
    }
    while i < ups.len()
        invariant
            1 <= i <= ups@.len(),
            ups@ == ancestors_of(*start),
            above == ups@.drop_first(),
            mapped == above.map_values(|a: PathBuf| joined_path(a, ".kiro"@)),
            out@ == head + mapped.take(i - 1),
        decreases ups.len() - i,
    {
        let candidate = join_path(&ups[i], ".kiro");
        assert(above[i - 1] == ups@[i as int]);
        out.push(candidate);
        assert(out@ =~= head + mapped.take(i as int));
        i = i + 1;
    }
    assert(mapped.take(i - 1) =~= mapped);
    out
}

/// The `.kiro` root among the candidates: the first one answered `true`,
/// `None` when none is; `answers[k]` says whether `cands[k]` is a
/// directory.
pub fn first_root(cands: &Vec<PathBuf>, answers: &Vec<bool>) -> (r: Option<PathBuf>)
    requires
        cands@.len() == answers@.len(),
    ensures
        r == first_answered(cands@, answers@),
        r matches Some(p) ==> cands@.contains(p),
{
    proof {
        lemma_first_answered_in(cands@, answers@);
    }
    let mut i: usize = 0;
    assert(cands@.skip(0) =~= cands@);
    assert(answers@.skip(0) =~= answers@);
    while i < cands.len()
        invariant
            i <= cands@.len(),
            cands@.len() == answers@.len(),
            first_answered(cands@, answers@) == first_answered(cands@.skip(i as int), answers@.skip(i as int)),
        decreases cands.len() - i,
    {
        assert(cands@.skip(i as int).drop_first() =~= cands@.skip(i + 1));
        assert(answers@.skip(i as int).drop_first() =~= answers@.skip(i + 1));
        if answers[i] {
            return Some(cands[i].clone());
        }
        i = i + 1;
    }
    None
}

proof fn lemma_first_answered_in(cands: Seq<PathBuf>, answers: Seq<bool>)
    ensures
        first_answered(cands, answers) matches Some(p) ==> cands.contains(p),
    decreases cands.len(),
{
    if cands.len() > 0 && answers.len() > 0 && !answers[0] {
        lemma_first_answered_in(cands.drop_first(), answers.drop_first());
        if first_answered(cands, answers) is Some {
            let p = first_answered(cands, answers)->0;
            let k = choose|k: int| 0 <= k < cands.drop_first().len() && cands.drop_first()[k] == p;
            assert(cands[k + 1] == p);
        }
    } else if cands.len() > 0 && answers.len() > 0 {
        assert(cands[0] == cands[0]);
    }
}

} // verus!
