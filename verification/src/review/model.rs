//! Frozen review data: ranges, trees, and the manifests that identify them.
use crate::canonical::{
    json_string, push_digest, push_json_string, push_quoted, quoted,
};
use crate::digest::{digest_of_text, Digest};
use crate::split::{parts, parts_of, shown};
use crate::text::{
    byte_len, chars_of, decimal, lower_chars, lowered, push_decimal, same_text, string_of,
};
use crate::text_map::{value_of, Entry, TextMap};
use vstd::prelude::*;
use vstd::utf8::encode_utf8;

verus! {

/// What a review compares.
#[allow(inconsistent_fields)]
#[derive(Debug, PartialEq, Eq)]
pub enum ReviewRange {
    Snapshots { before: Digest, after: Digest },
    WorkingTree { base: Option<String> },
    Staged { base: Option<String> },
    Commit { revision: String },
    Between { base: String, head: String },
}

/// What a review may read.
#[derive(Clone, Copy, Debug, PartialEq, Eq, Structural)]
pub struct ReviewLimits {
    pub max_files: usize,
    pub max_file_bytes: usize,
    pub max_snapshot_bytes: usize,
    pub max_output_bytes: usize,
    pub max_metadata_bytes: usize,
    pub timeout_ns: u128,
}

impl Default for ReviewLimits {
    fn default() -> (r: Self)
        ensures
            r == (ReviewLimits {
                max_files: 10000,
                max_file_bytes: 16777216,
                max_snapshot_bytes: 67108864,
                max_output_bytes: 33554432,
                max_metadata_bytes: 4194304,
                timeout_ns: 30_000_000_000,
            }),
    {
        ReviewLimits {
            max_files: 10000,
            max_file_bytes: 16777216,
            max_snapshot_bytes: 67108864,
            max_output_bytes: 33554432,
            max_metadata_bytes: 4194304,
            timeout_ns: 30_000_000_000,
        }
    }
}

/// Why a review is refused.
#[derive(Debug, PartialEq, Eq)]
pub enum ReviewError {
    Unavailable,
    Range,
    Limits,
    Limit(&'static str),
    Unsupported(&'static str),
    Path,
    Protocol,
    Git(String),
    Changed,
    Cancelled,
    TimedOut,
    Unknown,
    Corrupt,
}

/// Whether limits are bounds that a review can keep.
pub open spec fn review_limits_valid(limits: ReviewLimits) -> bool {
    &&& 0 < limits.max_files <= 100000
    &&& 0 < limits.max_file_bytes <= 67108864
    &&& 0 < limits.max_snapshot_bytes <= 268435456
    &&& 0 < limits.max_output_bytes <= 67108864
    &&& 0 < limits.max_metadata_bytes <= 16777216
    &&& 0 < limits.timeout_ns <= 120_000_000_000
}

/// Checks that limits are bounds that a review can keep.
pub fn validate_limits(limits: &ReviewLimits) -> (r: Result<(), ReviewError>)
    ensures
        r == if review_limits_valid(*limits) {
            Ok::<(), ReviewError>(())
        } else {
            Err(ReviewError::Limits)
        },
{
    if limits.max_files == 0 || limits.max_files > 100000 || limits.max_file_bytes == 0
        || limits.max_file_bytes > 67108864 || limits.max_snapshot_bytes == 0
        || limits.max_snapshot_bytes > 268435456 || limits.max_output_bytes == 0
        || limits.max_output_bytes > 67108864 || limits.max_metadata_bytes == 0
        || limits.max_metadata_bytes > 16777216 || limits.timeout_ns == 0 || limits.timeout_ns
        > 120_000_000_000 {
        Err(ReviewError::Limits)
    } else {
        Ok(())
    }
}

/// What a frozen path holds.
#[derive(Clone, Copy, Debug, PartialEq, Eq, Structural)]
pub enum FileKind {
    Directory,
    File,
    Symlink,
    Gitlink,
}

impl FileKind {
    pub open spec fn spec_name(self) -> Seq<char> {
        match self {
            FileKind::Directory => "directory"@,
            FileKind::File => "file"@,
            FileKind::Symlink => "symlink"@,
            FileKind::Gitlink => "gitlink"@,
        }
    }

    pub fn name(self) -> (r: &'static str)
        ensures
            r@ == self.spec_name(),
    {
        match self {
            FileKind::Directory => "directory",
            FileKind::File => "file",
            FileKind::Symlink => "symlink",
            FileKind::Gitlink => "gitlink",
        }
    }
}

/// The mode of a plain file.
pub const PLAIN_MODE: u32 = 33188;

/// The mode of an executable file.
pub const EXECUTABLE_MODE: u32 = 33261;

/// The mode of a link.
pub const LINK_MODE: u32 = 40960;

/// The mode of a commit of another repository.
pub const GITLINK_MODE: u32 = 57344;

/// The mode of a directory.
pub const DIRECTORY_MODE: u32 = 16384;

/// The greatest permissions.
pub const MAX_PERMISSIONS: u32 = 4095;

/// A frozen path.
#[derive(Debug, PartialEq, Eq)]
pub struct FrozenFile {
    pub kind: FileKind,
    pub mode: u32,
    pub permissions: Option<u32>,
    pub content: Digest,
    pub bytes: usize,
    pub git_object: Option<String>,
}

impl FrozenFile {
    pub fn copy(&self) -> (r: FrozenFile)
        ensures
            r == *self,
    {
        FrozenFile {
            kind: self.kind,
            mode: self.mode,
            permissions: self.permissions,
            content: self.content,
            bytes: self.bytes,
            git_object: match &self.git_object {
                Some(object) => Some(object.clone()),
                None => None,
            },
        }
    }
}

/// What paths hold, in the order of the paths.
pub struct FrozenTree {
    pub version: u32,
    pub files: TextMap<FrozenFile>,
}

/// What identifies a review, and what it consists of.
#[derive(Debug, PartialEq, Eq)]
pub struct ReviewManifest {
    pub version: u32,
    pub source_identity: Digest,
    pub repository: String,
    pub range: ReviewRange,
    pub base_revision: Option<String>,
    pub head_revision: Option<String>,
    pub before: Digest,
    pub after: Digest,
    pub patch: Digest,
    pub git_executable: Digest,
    pub metadata_changes: Vec<String>,
}

/// What a review answers with.
#[derive(Debug, PartialEq, Eq)]
pub struct ReviewInspection {
    pub manifest: Digest,
    pub source_identity: Digest,
    pub patch: Digest,
    pub before: Digest,
    pub after: Digest,
    pub files: usize,
    pub metadata_changes: Vec<String>,
    pub base_revision: Option<String>,
    pub head_revision: Option<String>,
}

/// The canonical JSON of an optional name.
pub open spec fn optional_name_json(v: Option<String>) -> Seq<char> {
    match v {
        Some(value) => ""@ + json_string(value@),
        None => "null"@,
    }
}

fn optional_name_text(v: &Option<String>) -> (r: String)
    ensures
        r@ == optional_name_json(*v),
{
    match v {
        Some(value) => {
            let mut json = "".to_owned();
            push_json_string(&mut json, value.as_str());
            json
        },
        None => "null".to_owned(),
    }
}

/// The canonical JSON of optional permissions.
pub open spec fn optional_mode_json(v: Option<u32>) -> Seq<char> {
    match v {
        Some(value) => ""@ + decimal(value as nat),
        None => "null"@,
    }
}

fn optional_mode_text(v: &Option<u32>) -> (r: String)
    ensures
        r@ == optional_mode_json(*v),
{
    match v {
        Some(value) => {
            let mut json = "".to_owned();
            push_decimal(&mut json, *value as u64);
            json
        },
        None => "null".to_owned(),
    }
}

/// The canonical JSON of a range.
pub open spec fn range_json(v: ReviewRange) -> Seq<char> {
    match v {
        ReviewRange::Snapshots { before, after } => "{\"kind\":\"snapshots\",\"before\":"@ + quoted(before.text()) + ",\"after\":"@ + quoted(after.text()) + "}"@,
        ReviewRange::WorkingTree { base } => "{\"kind\":\"working_tree\",\"base\":"@ + optional_name_json(base) + "}"@,
        ReviewRange::Staged { base } => "{\"kind\":\"staged\",\"base\":"@ + optional_name_json(base) + "}"@,
        ReviewRange::Commit { revision } => "{\"kind\":\"commit\",\"revision\":"@ + json_string(revision@) + "}"@,
        ReviewRange::Between { base, head } => "{\"kind\":\"between\",\"base\":"@ + json_string(base@) + ",\"head\":"@ + json_string(head@) + "}"@,
    }
}

fn range_text(v: &ReviewRange) -> (r: String)
    ensures
        r@ == range_json(*v),
{
    match v {
        ReviewRange::Snapshots { before, after } => {
            let mut json = "{\"kind\":\"snapshots\",\"before\":".to_owned();
            push_digest(&mut json, before);
            json.push_str(",\"after\":");
            push_digest(&mut json, after);
            json.push_str("}");
            json
        },
        ReviewRange::WorkingTree { base } => {
            let mut json = "{\"kind\":\"working_tree\",\"base\":".to_owned();
            json.push_str(optional_name_text(base).as_str());
            json.push_str("}");
            json
        },
        ReviewRange::Staged { base } => {
            let mut json = "{\"kind\":\"staged\",\"base\":".to_owned();
            json.push_str(optional_name_text(base).as_str());
            json.push_str("}");
            json
        },
        ReviewRange::Commit { revision } => {
            let mut json = "{\"kind\":\"commit\",\"revision\":".to_owned();
            push_json_string(&mut json, revision.as_str());
            json.push_str("}");
            json
        },
        ReviewRange::Between { base, head } => {
            let mut json = "{\"kind\":\"between\",\"base\":".to_owned();
            push_json_string(&mut json, base.as_str());
            json.push_str(",\"head\":");
            push_json_string(&mut json, head.as_str());
            json.push_str("}");
            json
        },
    }
}

/// The canonical JSON of a frozen path.
pub open spec fn frozen_json(v: FrozenFile) -> Seq<char> {
    "{\"kind\":"@ + quoted(v.kind.spec_name()) + ",\"mode\":"@ + decimal(v.mode as nat) + ",\"permissions\":"@ + optional_mode_json(v.permissions) + ",\"content\":"@ + quoted(v.content.text()) + ",\"bytes\":"@ + decimal(v.bytes as nat) + ",\"git_object\":"@ + optional_name_json(v.git_object) + "}"@
}

fn frozen_text(v: &FrozenFile) -> (r: String)
    ensures
        r@ == frozen_json(*v),
{
    let mut json = "{\"kind\":".to_owned();
    push_quoted(&mut json, v.kind.name());
    json.push_str(",\"mode\":");
    push_decimal(&mut json, v.mode as u64);
    json.push_str(",\"permissions\":");
    json.push_str(optional_mode_text(&v.permissions).as_str());
    json.push_str(",\"content\":");
    push_digest(&mut json, &v.content);
    json.push_str(",\"bytes\":");
    push_decimal(&mut json, v.bytes as u64);
    json.push_str(",\"git_object\":");
    json.push_str(optional_name_text(&v.git_object).as_str());
    json.push_str("}");
    json
}

/// The canonical JSON of the first `n` paths of a tree, separated by commas.
pub open spec fn entries_json(entries: Seq<Entry<FrozenFile>>, n: int) -> Seq<char>
    decreases n,
{
    if n <= 0 {
        ""@
    } else if n == 1 {
        ""@ + json_string(entries[0].key@) + ":"@ + frozen_json(entries[0].value)
    } else {
        entries_json(entries, n - 1) + ","@ + json_string(entries[n - 1].key@) + ":"@ + frozen_json(
            entries[n - 1].value,
        )
    }
}

/// The canonical JSON of a tree.
pub open spec fn tree_json(tree: FrozenTree) -> Seq<char> {
    "{\"version\":"@ + decimal(tree.version as nat) + ",\"files\":{"@ + entries_json(
        tree.files@,
        tree.files@.len() as int,
    ) + "}}"@
}

fn entries_text(files: &TextMap<FrozenFile>) -> (r: String)
    ensures
        r@ == entries_json(files@, files@.len() as int),
{
    let mut json = "".to_owned();
    let mut i: usize = 0;
    while i < files.len()
        invariant
            i <= files@.len(),
            json@ == entries_json(files@, i as int),
        decreases files@.len() - i,
    {
        if i > 0 {
            json.push_str(",");
        }
        push_json_string(&mut json, files.key(i));
        json.push_str(":");
        json.push_str(frozen_text(files.value(i)).as_str());
        i += 1;
    }
    json
}

/// The text of a tree.
pub fn tree_text(tree: &FrozenTree) -> (r: String)
    ensures
        r@ == tree_json(*tree),
{
    let mut json = "{\"version\":".to_owned();
    push_decimal(&mut json, tree.version as u64);
    json.push_str(",\"files\":{");
    json.push_str(entries_text(&tree.files).as_str());
    json.push_str("}}");
    json
}

/// What identifies the source of a review: its range, the revisions, and what it compares.
pub open spec fn identity_json(
    range: ReviewRange,
    base: Option<String>,
    head: Option<String>,
    before: Digest,
    after: Digest,
    patch: Digest,
) -> Seq<char> {
    "[1,"@ + range_json(range) + ","@ + optional_name_json(base) + ","@ + optional_name_json(head)
        + ","@ + quoted(before.text()) + ","@ + quoted(after.text()) + ","@ + quoted(patch.text())
        + "]"@
}

/// The identity of the source of a review.
pub fn source_identity(
    range: &ReviewRange,
    base: &Option<String>,
    head: &Option<String>,
    before: Digest,
    after: Digest,
    patch: Digest,
) -> (r: Digest)
    ensures
        r == digest_of_text(identity_json(*range, *base, *head, before, after, patch)),
{
    let mut json = "[1,".to_owned();
    json.push_str(range_text(range).as_str());
    json.push_str(",");
    json.push_str(optional_name_text(base).as_str());
    json.push_str(",");
    json.push_str(optional_name_text(head).as_str());
    json.push_str(",");
    push_digest(&mut json, &before);
    json.push_str(",");
    push_digest(&mut json, &after);
    json.push_str(",");
    push_digest(&mut json, &patch);
    json.push_str("]");
    Digest::of_text(json.as_str())
}

/// The canonical JSON of the first `n` changed paths, separated by commas.
pub open spec fn changes_json(items: Seq<String>, n: int) -> Seq<char>
    decreases n,
{
    if n <= 0 {
        ""@
    } else if n == 1 {
        ""@ + json_string(items[0]@)
    } else {
        changes_json(items, n - 1) + ","@ + json_string(items[n - 1]@)
    }
}

fn changes_text(items: &Vec<String>) -> (r: String)
    ensures
        r@ == changes_json(items@, items.len() as int),
{
    let mut json = "".to_owned();
    let mut i: usize = 0;
    while i < items.len()
        invariant
            i <= items.len(),
            json@ == changes_json(items@, i as int),
        decreases items.len() - i,
    {
        if i > 0 {
            json.push_str(",");
        }
        push_json_string(&mut json, items[i].as_str());
        i += 1;
    }
    json
}

/// The canonical JSON of a manifest.
pub open spec fn manifest_json(v: ReviewManifest) -> Seq<char> {
    "{\"version\":"@ + decimal(v.version as nat) + ",\"source_identity\":"@ + quoted(v.source_identity.text()) + ",\"repository\":"@ + json_string(v.repository@) + ",\"range\":"@ + range_json(v.range) + ",\"base_revision\":"@ + optional_name_json(v.base_revision) + ",\"head_revision\":"@ + optional_name_json(v.head_revision) + ",\"before\":"@ + quoted(v.before.text()) + ",\"after\":"@ + quoted(v.after.text()) + ",\"patch\":"@ + quoted(v.patch.text()) + ",\"git_executable\":"@ + quoted(v.git_executable.text()) + ",\"metadata_changes\":["@ + changes_json(v.metadata_changes@, v.metadata_changes@.len() as int) + "]}"@
}

fn manifest_text(v: &ReviewManifest) -> (r: String)
    ensures
        r@ == manifest_json(*v),
{
    let mut json = "{\"version\":".to_owned();
    push_decimal(&mut json, v.version as u64);
    json.push_str(",\"source_identity\":");
    push_digest(&mut json, &v.source_identity);
    json.push_str(",\"repository\":");
    push_json_string(&mut json, v.repository.as_str());
    json.push_str(",\"range\":");
    json.push_str(range_text(&v.range).as_str());
    json.push_str(",\"base_revision\":");
    json.push_str(optional_name_text(&v.base_revision).as_str());
    json.push_str(",\"head_revision\":");
    json.push_str(optional_name_text(&v.head_revision).as_str());
    json.push_str(",\"before\":");
    push_digest(&mut json, &v.before);
    json.push_str(",\"after\":");
    push_digest(&mut json, &v.after);
    json.push_str(",\"patch\":");
    push_digest(&mut json, &v.patch);
    json.push_str(",\"git_executable\":");
    push_digest(&mut json, &v.git_executable);
    json.push_str(",\"metadata_changes\":[");
    json.push_str(changes_text(&v.metadata_changes).as_str());
    json.push_str("]}");
    json
}

/// Whether a manifest that was read back identifies what it names.
pub open spec fn manifest_sound(manifest: ReviewManifest) -> bool {
    manifest.version == 1 && manifest.source_identity == digest_of_text(
        identity_json(
            manifest.range,
            manifest.base_revision,
            manifest.head_revision,
            manifest.before,
            manifest.after,
            manifest.patch,
        ),
    )
}

/// Checks a manifest that was read back.
pub fn check_manifest(manifest: &ReviewManifest) -> (r: Result<(), ReviewError>)
    ensures
        r == if manifest_sound(*manifest) {
            Ok::<(), ReviewError>(())
        } else {
            Err(ReviewError::Corrupt)
        },
{
    if manifest.version != 1 || manifest.source_identity != source_identity(
        &manifest.range,
        &manifest.base_revision,
        &manifest.head_revision,
        manifest.before,
        manifest.after,
        manifest.patch,
    ) {
        Err(ReviewError::Corrupt)
    } else {
        Ok(())
    }
}

/// Whether a part of a path names something below the part before it, outside of the
/// directory of the repository itself.
pub open spec fn safe_part(part: Seq<char>) -> bool {
    part.len() > 0 && part != "."@ && part != ".."@ && lowered(part) != ".git"@
}

/// Whether a path stays within its root.
pub open spec fn safe_path(path: Seq<char>) -> bool {
    &&& path.len() > 0
    &&& encode_utf8(path).len() <= 4096
    &&& !path.contains('\0')
    &&& forall|i: int|
        0 <= i < parts_of(path, '/').len() ==> safe_part(#[trigger] parts_of(path, '/')[i])
}

fn is_safe_part(part: &str) -> (r: bool)
    ensures
        r == safe_part(part@),
{
    let chars = chars_of(part);
    if chars.len() == 0 || same_text(part, ".") || same_text(part, "..") {
        return false;
    }
    let low = lower_chars(&chars);
    let text = string_of(&low, 0, low.len());
    assert(text@ =~= lowered(part@));
    !same_text(text.as_str(), ".git")
}

pub(crate) fn holds_nul(path: &str) -> (r: bool)
    ensures
        r == path@.contains('\0'),
{
    let chars = chars_of(path);
    let mut i: usize = 0;
    while i < chars.len()
        invariant
            i <= chars.len(),
            chars@ == path@,
            forall|j: int| 0 <= j < i ==> chars@[j] != '\0',
        decreases chars.len() - i,
    {
        if chars[i] == '\0' {
            assert(path@[i as int] == '\0');
            return true;
        }
        i += 1;
    }
    false
}

/// Whether a path stays within its root.
pub fn safe(path: &str) -> (r: bool)
    ensures
        r == safe_path(path@),
{
    if path.is_empty() || byte_len(path) > 4096 || holds_nul(path) {
        return false;
    }
    let list = parts(path, '/');
    let ghost all = parts_of(path@, '/');
    assert(all == shown(list@));
    let mut i: usize = 0;
    while i < list.len()
        invariant
            i <= list.len(),
            all == shown(list@),
            all == parts_of(path@, '/'),
            forall|j: int| 0 <= j < i ==> safe_part(#[trigger] all[j]),
        decreases list.len() - i,
    {
        assert(all[i as int] == list@[i as int]@);
        if !is_safe_part(list[i].as_str()) {
            assert(!safe_part(parts_of(path@, '/')[i as int]));
            return false;
        }
        i += 1;
    }
    true
}

/// Whether the kind and the mode of a path agree.
pub open spec fn mode_agrees(kind: FileKind, mode: u32) -> bool {
    match kind {
        FileKind::Directory => mode == DIRECTORY_MODE,
        FileKind::File => mode == PLAIN_MODE || mode == EXECUTABLE_MODE,
        FileKind::Symlink => mode == LINK_MODE,
        FileKind::Gitlink => mode == GITLINK_MODE,
    }
}

/// Whether a path of a tree that was read back can have been frozen.
pub open spec fn entry_sound(entry: Entry<FrozenFile>) -> bool {
    &&& safe_path(entry.key@)
    &&& mode_agrees(entry.value.kind, entry.value.mode)
    &&& entry.value.permissions is Some ==> entry.value.permissions->0 <= MAX_PERMISSIONS
    &&& entry.value.bytes <= 67108864
}

/// The bytes of the first `n` paths.
pub open spec fn tree_bytes(entries: Seq<Entry<FrozenFile>>, n: int) -> int
    decreases n,
{
    if n <= 0 {
        0
    } else {
        tree_bytes(entries, n - 1) + entries[n - 1].value.bytes
    }
}

/// Whether a tree that was read back can have been frozen.
pub open spec fn tree_sound(tree: FrozenTree) -> bool {
    &&& tree.version == 1
    &&& tree.files@.len() <= 100000
    &&& forall|i: int| 0 <= i < tree.files@.len() ==> entry_sound(#[trigger] tree.files@[i])
    &&& tree_bytes(tree.files@, tree.files@.len() as int) <= 268435456
}

proof fn lemma_tree_bytes_grow(entries: Seq<Entry<FrozenFile>>, a: int, b: int)
    requires
        0 <= a <= b,
    ensures
        0 <= tree_bytes(entries, a) <= tree_bytes(entries, b),
    decreases b,
{
    if a < b {
        lemma_tree_bytes_grow(entries, a, b - 1);
    } else if a > 0 {
        lemma_tree_bytes_grow(entries, a - 1, b - 1);
    }
}

fn kind_allows(kind: FileKind, mode: u32) -> (r: bool)
    ensures
        r == mode_agrees(kind, mode),
{
    match kind {
        FileKind::Directory => mode == DIRECTORY_MODE,
        FileKind::File => mode == PLAIN_MODE || mode == EXECUTABLE_MODE,
        FileKind::Symlink => mode == LINK_MODE,
        FileKind::Gitlink => mode == GITLINK_MODE,
    }
}

/// Checks a tree that was read back.
pub fn check_tree(tree: &FrozenTree) -> (r: Result<(), ReviewError>)
    ensures
        r == if tree_sound(*tree) {
            Ok::<(), ReviewError>(())
        } else {
            Err(ReviewError::Corrupt)
        },
{
    if tree.version != 1 || tree.files.len() > 100000 {
        return Err(ReviewError::Corrupt);
    }
    let mut total: usize = 0;
    let mut i: usize = 0;
    while i < tree.files.len()
        invariant
            i <= tree.files@.len() <= 100000,
            tree.version == 1,
            total == tree_bytes(tree.files@, i as int),
            total <= 268435456,
            forall|j: int| 0 <= j < i ==> entry_sound(#[trigger] tree.files@[j]),
        decreases tree.files@.len() - i,
    {
        let file = tree.files.value(i);
        let permitted = match file.permissions {
            Some(mode) => mode <= MAX_PERMISSIONS,
            None => true,
        };
        if !safe(tree.files.key(i)) || !kind_allows(file.kind, file.mode) || !permitted
            || file.bytes > 67108864 {
            assert(!entry_sound(tree.files@[i as int]));
            return Err(ReviewError::Corrupt);
        }
        total = total + file.bytes;
        if total > 268435456 {
            proof {
                lemma_tree_bytes_grow(tree.files@, i + 1, tree.files@.len() as int);
            }
            return Err(ReviewError::Corrupt);
        }
        i += 1;
    }
    Ok(())
}

/// A side of a review.
#[derive(Clone, Copy, Debug, PartialEq, Eq, Structural)]
pub enum ReviewSide {
    Before,
    After,
}

impl ReviewSide {
    pub open spec fn spec_name(self) -> Seq<char> {
        match self {
            ReviewSide::Before => "before"@,
            ReviewSide::After => "after"@,
        }
    }

    pub fn name(self) -> (r: &'static str)
        ensures
            r@ == self.spec_name(),
    {
        match self {
            ReviewSide::Before => "before",
            ReviewSide::After => "after",
        }
    }
}

impl ReviewManifest {
    /// The tree of a side.
    pub fn tree(&self, side: ReviewSide) -> (r: Digest)
        ensures
            r == match side {
                ReviewSide::Before => self.before,
                ReviewSide::After => self.after,
            },
    {
        match side {
            ReviewSide::Before => self.before,
            ReviewSide::After => self.after,
        }
    }
}

/// A path with what it holds.
#[derive(Debug, PartialEq, Eq)]
pub struct PagedFile {
    pub path: String,
    pub file: FrozenFile,
}

/// A page of the paths of a tree.
#[derive(Debug, PartialEq, Eq)]
pub struct ReviewFilePage {
    pub files: Vec<PagedFile>,
    pub total: usize,
    pub next_offset: Option<usize>,
}

/// What a path of a tree holds. The content stays an artifact of its own.
pub fn file(tree: &FrozenTree, path: &str) -> (r: Result<Option<FrozenFile>, ReviewError>)
    ensures
        r == if safe_path(path@) {
            Ok::<Option<FrozenFile>, ReviewError>(value_of(tree.files@, path@))
        } else {
            Err(ReviewError::Path)
        },
{
    if !safe(path) {
        return Err(ReviewError::Path);
    }
    match tree.files.get(path) {
        Some(file) => Ok(Some(file.copy())),
        None => Ok(None),
    }
}

/// The end of a page.
pub open spec fn page_end(total: int, offset: int, limit: int) -> int {
    if offset + limit < total {
        offset + limit
    } else {
        total
    }
}

/// A page of the paths of a tree, from an offset on.
pub fn page(tree: &FrozenTree, offset: usize, limit: usize) -> (r: Result<
    ReviewFilePage,
    ReviewError,
>)
    ensures
        match r {
            Ok(page) => {
                let total = tree.files@.len() as int;
                let end = page_end(total, offset as int, limit as int);
                &&& 0 < limit <= 128
                &&& offset <= total
                &&& page.total == total
                &&& page.files@.len() == end - offset
                &&& forall|i: int|
                    0 <= i < page.files@.len() ==> (#[trigger] page.files@[i]).path@
                        == tree.files@[offset + i].key@ && page.files@[i].file
                        == tree.files@[offset + i].value
                &&& page.next_offset == if end < total {
                    Some(end as usize)
                } else {
                    None
                }
            },
            Err(error) => if limit == 0 || limit > 128 {
                error == ReviewError::Limits
            } else {
                offset > tree.files@.len() && error == ReviewError::Range
            },
        },
{
    if limit == 0 || limit > 128 {
        return Err(ReviewError::Limits);
    }
    let total = tree.files.len();
    if offset > total {
        return Err(ReviewError::Range);
    }
    let end: usize = if total - offset > limit {
        offset + limit
    } else {
        total
    };
    let mut files: Vec<PagedFile> = Vec::new();
    let mut i: usize = offset;
    while i < end
        invariant
            offset <= i <= end <= tree.files@.len(),
            files@.len() == i - offset,
            forall|j: int|
                0 <= j < files@.len() ==> (#[trigger] files@[j]).path@ == tree.files@[offset
                    + j].key@ && files@[j].file == tree.files@[offset + j].value,
        decreases end - i,
    {
        files.push(
            PagedFile { path: tree.files.key(i).to_owned(), file: tree.files.value(i).copy() },
        );
        i += 1;
    }
    let next_offset: Option<usize> = if end < total {
        Some(end)
    } else {
        None
    };
    Ok(ReviewFilePage { files, total, next_offset })
}

/// Pages that are read one after another leave no path out and show none twice: each begins
/// where the one before it ended, and they end with the last path.
pub proof fn law_pages_cover_the_tree(total: int, limit: int, i: int)
    requires
        0 < limit <= 128,
        0 <= i < total,
    ensures
        ({
            let offset = (i / limit) * limit;
            &&& 0 <= offset <= i < page_end(total, offset, limit) <= total
            &&& page_end(total, offset, limit) < total ==> page_end(total, offset, limit) == (i
                / limit + 1) * limit
        }),
{
    vstd::arithmetic::div_mod::lemma_fundamental_div_mod(i, limit);
    let k = i / limit;
    assert(limit * k == k * limit) by (nonlinear_arith);
    assert((k + 1) * limit == k * limit + limit) by (nonlinear_arith);
    assert(0 <= i % limit < limit);
    assert(0 <= k * limit) by (nonlinear_arith)
        requires
            0 <= k,
            0 < limit,
    ;
}

/// The texts of a review that are stored: the trees of both sides and the manifest.
#[derive(Debug)]
pub struct ReviewTexts {
    pub before: String,
    pub after: String,
    pub manifest: String,
}

fn copy_optional(text: &Option<String>) -> (r: Option<String>)
    ensures
        r == *text,
{
    match text {
        Some(text) => Some(text.clone()),
        None => None,
    }
}

fn copy_texts(texts: &Vec<String>) -> (r: Vec<String>)
    ensures
        r@ == texts@,
{
    let mut copy: Vec<String> = Vec::new();
    let mut i: usize = 0;
    while i < texts.len()
        invariant
            i <= texts.len(),
            copy@ == texts@.subrange(0, i as int),
        decreases texts.len() - i,
    {
        copy.push(texts[i].clone());
        assert(copy@ =~= texts@.subrange(0, i + 1));
        i += 1;
    }
    assert(copy@ =~= texts@);
    copy
}

/// Whether the answer and the manifest of a review say the same, and name what was stored.
pub open spec fn inspection_of(
    inspection: ReviewInspection,
    manifest: ReviewManifest,
    files: int,
) -> bool {
    &&& manifest_sound(manifest)
    &&& inspection.manifest == digest_of_text(manifest_json(manifest))
    &&& inspection.source_identity == manifest.source_identity
    &&& inspection.patch == manifest.patch
    &&& inspection.before == manifest.before
    &&& inspection.after == manifest.after
    &&& inspection.files == files
    &&& inspection.metadata_changes@ == manifest.metadata_changes@
    &&& inspection.base_revision == manifest.base_revision
    &&& inspection.head_revision == manifest.head_revision
}

/// Puts a review together: the trees of both sides, the patch between them, and where they
/// come from.
pub fn assemble(
    range: ReviewRange,
    repository: String,
    base: Option<String>,
    head: Option<String>,
    before: &FrozenTree,
    after: &FrozenTree,
    patch: Digest,
    git_executable: Digest,
    metadata_changes: Vec<String>,
    limits: &ReviewLimits,
) -> (r: Result<(ReviewInspection, ReviewManifest, ReviewTexts), ReviewError>)
    ensures
        match r {
            Ok((inspection, manifest, texts)) => {
                &&& texts.before@ == tree_json(*before)
                &&& texts.after@ == tree_json(*after)
                &&& texts.manifest@ == manifest_json(manifest)
                &&& encode_utf8(texts.before@).len() <= limits.max_metadata_bytes
                &&& encode_utf8(texts.after@).len() <= limits.max_metadata_bytes
                &&& encode_utf8(texts.manifest@).len() <= limits.max_metadata_bytes
                &&& inspection_of(inspection, manifest, after.files@.len() as int)
                &&& manifest.range == range
                &&& manifest.repository == repository
                &&& manifest.base_revision == base
                &&& manifest.head_revision == head
                &&& manifest.before == digest_of_text(tree_json(*before))
                &&& manifest.after == digest_of_text(tree_json(*after))
                &&& manifest.patch == patch
                &&& manifest.git_executable == git_executable
                &&& manifest.metadata_changes@ == metadata_changes@
            },
            Err(error) => error == ReviewError::Limit("manifest bytes") && {
                ||| encode_utf8(tree_json(*before)).len() > limits.max_metadata_bytes
                ||| encode_utf8(tree_json(*after)).len() > limits.max_metadata_bytes
                ||| exists|manifest: ReviewManifest|
                    {
                        &&& manifest_sound(manifest)
                        &&& manifest.range == range
                        &&& manifest.repository == repository
                        &&& manifest.base_revision == base
                        &&& manifest.head_revision == head
                        &&& manifest.before == digest_of_text(tree_json(*before))
                        &&& manifest.after == digest_of_text(tree_json(*after))
                        &&& manifest.patch == patch
                        &&& manifest.git_executable == git_executable
                        &&& manifest.metadata_changes == metadata_changes
                        &&& encode_utf8(#[trigger] manifest_json(manifest)).len()
                            > limits.max_metadata_bytes
                    }
            },
        },
{
    let before_text = tree_text(before);
    if byte_len(before_text.as_str()) > limits.max_metadata_bytes {
        return Err(ReviewError::Limit("manifest bytes"));
    }
    let after_text = tree_text(after);
    if byte_len(after_text.as_str()) > limits.max_metadata_bytes {
        return Err(ReviewError::Limit("manifest bytes"));
    }
    let before_id = Digest::of_text(before_text.as_str());
    let after_id = Digest::of_text(after_text.as_str());
    let identity = source_identity(&range, &base, &head, before_id, after_id, patch);
    let inspected = copy_texts(&metadata_changes);
    let base_copy = copy_optional(&base);
    let head_copy = copy_optional(&head);
    let manifest = ReviewManifest {
        version: 1,
        source_identity: identity,
        repository,
        range,
        base_revision: base,
        head_revision: head,
        before: before_id,
        after: after_id,
        patch,
        git_executable,
        metadata_changes,
    };
    let text = manifest_text(&manifest);
    if byte_len(text.as_str()) > limits.max_metadata_bytes {
        assert(encode_utf8(manifest_json(manifest)).len() > limits.max_metadata_bytes);
        return Err(ReviewError::Limit("manifest bytes"));
    }
    let inspection = ReviewInspection {
        manifest: Digest::of_text(text.as_str()),
        source_identity: identity,
        patch,
        before: before_id,
        after: after_id,
        files: after.files.len(),
        metadata_changes: inspected,
        base_revision: base_copy,
        head_revision: head_copy,
    };
    Ok((inspection, manifest, ReviewTexts { before: before_text, after: after_text, manifest: text }))
}

} // verus!
