//! What an inspection reads of a repository, and when its source moved meanwhile.
use crate::canonical::{json_string, push_json_string};
use crate::digest::{digest_of_text, Digest};
use crate::import::archive::capped_sum;
use crate::review::freeze::{same_tree, same_trees};
use crate::review::git::{answer_text, is_oid, oid_valid, trim};
use crate::review::model::{
    FileKind, FrozenFile, FrozenTree, ReviewError, ReviewLimits, ReviewRange, LINK_MODE,
};
use crate::review::snapshots::{file_mode, mode_for, SnapshotBounds};
use crate::text::{
    begins_with, chars_of, content_end, decimal, find_content_end, has_prefix, push_decimal,
    same_text, string_of, trimmed,
};
use crate::text_map::{has_key, value_of, Entry, TextMap};
use vstd::prelude::*;
use vstd::utf8::{decode_utf8, valid_utf8};

verus! {

/// Where the later side of a range is read.
#[derive(Clone, Copy, Debug, PartialEq, Eq, Structural)]
pub enum AfterSource {
    WorkingTree,
    Index,
    Commit,
}

/// What a range names: a base, which is the parent of the head where none is given, a head
/// where a commit is the later side, and where that side is read.
#[derive(Debug, PartialEq, Eq)]
pub struct InspectionPlan {
    pub base: Option<String>,
    pub head: Option<String>,
    pub after: AfterSource,
}

#[verifier::ext_equal]
pub struct PlanModel {
    pub base: Option<Seq<char>>,
    pub head: Option<Seq<char>>,
    pub after: AfterSource,
}

impl View for InspectionPlan {
    type V = PlanModel;

    open spec fn view(&self) -> PlanModel {
        PlanModel {
            base: match self.base {
                Some(base) => Some(base@),
                None => None,
            },
            head: match self.head {
                Some(head) => Some(head@),
                None => None,
            },
            after: self.after,
        }
    }
}

/// The base that is named, or the head.
pub open spec fn base_or_head(base: Option<String>) -> Seq<char> {
    match base {
        Some(base) => base@,
        None => "HEAD"@,
    }
}

/// What a range names. Task snapshots are not of a repository.
pub open spec fn planned(range: ReviewRange) -> Option<PlanModel> {
    match range {
        ReviewRange::Snapshots { .. } => None,
        ReviewRange::WorkingTree { base } => Some(
            PlanModel {
                base: Some(base_or_head(base)),
                head: None,
                after: AfterSource::WorkingTree,
            },
        ),
        ReviewRange::Staged { base } => Some(
            PlanModel { base: Some(base_or_head(base)), head: None, after: AfterSource::Index },
        ),
        ReviewRange::Between { base, head } => Some(
            PlanModel { base: Some(base@), head: Some(head@), after: AfterSource::Commit },
        ),
        ReviewRange::Commit { revision } => Some(
            PlanModel { base: None, head: Some(revision@), after: AfterSource::Commit },
        ),
    }
}

fn named_base(base: &Option<String>) -> (r: String)
    ensures
        r@ == base_or_head(*base),
{
    match base {
        Some(base) => base.clone(),
        None => "HEAD".to_string(),
    }
}

/// Decides what an inspection of a range reads.
pub fn plan(range: &ReviewRange) -> (r: Result<InspectionPlan, ReviewError>)
    ensures
        match r {
            Ok(plan) => planned(*range) == Some(plan@),
            Err(error) => planned(*range) is None && error == ReviewError::Range,
        },
{
    match range {
        ReviewRange::Snapshots { .. } => Err(ReviewError::Range),
        ReviewRange::WorkingTree { base } => Ok(
            InspectionPlan {
                base: Some(named_base(base)),
                head: None,
                after: AfterSource::WorkingTree,
            },
        ),
        ReviewRange::Staged { base } => Ok(
            InspectionPlan { base: Some(named_base(base)), head: None, after: AfterSource::Index },
        ),
        ReviewRange::Between { base, head } => Ok(
            InspectionPlan {
                base: Some(base.clone()),
                head: Some(head.clone()),
                after: AfterSource::Commit,
            },
        ),
        ReviewRange::Commit { revision } => Ok(
            InspectionPlan { base: None, head: Some(revision.clone()), after: AfterSource::Commit },
        ),
    }
}

/// What was seen of a source: where its head points, what its index holds where that was
/// read, and its working tree where that was.
pub struct SourceState<'a> {
    pub head: &'a str,
    pub index: Option<Digest>,
    pub tree: Option<&'a FrozenTree>,
}

/// Whether two sights of a source show the same.
pub open spec fn unmoved(first: SourceState, second: SourceState) -> bool {
    &&& first.head@ == second.head@
    &&& first.index == second.index
    &&& match (first.tree, second.tree) {
        (Some(a), Some(b)) => same_trees(*a, *b),
        (None, None) => true,
        _ => false,
    }
}

/// Refuses a source that moved between two sights of it.
pub fn check_unmoved(first: &SourceState, second: &SourceState) -> (r: Result<(), ReviewError>)
    ensures
        r == if unmoved(*first, *second) {
            Ok::<(), ReviewError>(())
        } else {
            Err(ReviewError::Changed)
        },
{
    let indexes = match (first.index, second.index) {
        (Some(a), Some(b)) => a == b,
        (None, None) => true,
        _ => false,
    };
    let trees = match (first.tree, second.tree) {
        (Some(a), Some(b)) => same_tree(a, b),
        (None, None) => true,
        _ => false,
    };
    if same_text(first.head, second.head) && indexes && trees {
        Ok(())
    } else {
        Err(ReviewError::Changed)
    }
}

/// Decides whether a review goes on: it may be cancelled or out of time.
pub fn check_time(cancelled: bool, out_of_time: bool) -> (r: Result<(), ReviewError>)
    ensures
        r == if cancelled {
            Err::<(), ReviewError>(ReviewError::Cancelled)
        } else if out_of_time {
            Err(ReviewError::TimedOut)
        } else {
            Ok(())
        },
{
    if cancelled {
        Err(ReviewError::Cancelled)
    } else if out_of_time {
        Err(ReviewError::TimedOut)
    } else {
        Ok(())
    }
}

/// Whether objects of a format can be read.
pub open spec fn known_format(format: Seq<char>) -> bool {
    format == "sha1"@ || format == "sha256"@
}

/// The format of objects that an answer names.
pub fn object_format(bytes: &[u8]) -> (r: Result<String, ReviewError>)
    ensures
        match r {
            Ok(format) => valid_utf8(bytes@) && format@ == trimmed(decode_utf8(bytes@))
                && known_format(format@),
            Err(error) => error == if !valid_utf8(bytes@) {
                ReviewError::Protocol
            } else {
                ReviewError::Unsupported("Git object format")
            } && (valid_utf8(bytes@) ==> !known_format(trimmed(decode_utf8(bytes@)))),
        },
{
    let text = match answer_text(bytes) {
        Err(error) => return Err(error),
        Ok(text) => text,
    };
    let format = trim(text.as_str());
    if same_text(format.as_str(), "sha1") || same_text(format.as_str(), "sha256") {
        Ok(format)
    } else {
        Err(ReviewError::Unsupported("Git object format"))
    }
}

/// A text without the white space at its end.
pub open spec fn ended(text: Seq<char>) -> Seq<char> {
    text.subrange(0, content_end(text))
}

/// What a text holds behind a prefix, if it begins with it.
pub open spec fn behind(text: Seq<char>, prefix: Seq<char>) -> Option<Seq<char>> {
    if begins_with(text, prefix) {
        Some(text.subrange(prefix.len() as int, text.len() as int))
    } else {
        None
    }
}

fn after_prefix(text: &str, prefix: &str) -> (r: Option<String>)
    ensures
        match r {
            Some(rest) => behind(text@, prefix@) == Some(rest@),
            None => behind(text@, prefix@) is None,
        },
{
    if !has_prefix(text, prefix) {
        return None;
    }
    let chars = chars_of(text);
    let part = chars_of(prefix);
    Some(string_of(&chars, part.len(), chars.len()))
}

/// The line that an answer consists of.
pub fn answer_line(bytes: &[u8]) -> (r: Result<String, ReviewError>)
    ensures
        match r {
            Ok(line) => valid_utf8(bytes@) && line@ == ended(decode_utf8(bytes@)),
            Err(error) => !valid_utf8(bytes@) && error == ReviewError::Protocol,
        },
{
    let text = match answer_text(bytes) {
        Err(error) => return Err(error),
        Ok(text) => text,
    };
    let chars = chars_of(text.as_str());
    let end = find_content_end(&chars);
    Ok(string_of(&chars, 0, end))
}

/// The directory that the marker of a linked worktree names.
pub open spec fn linked_directory(bytes: Seq<u8>) -> Option<Seq<char>> {
    if valid_utf8(bytes) {
        behind(ended(decode_utf8(bytes)), "gitdir: "@)
    } else {
        None
    }
}

/// Reads the directory that the marker of a linked worktree names.
pub fn read_link(bytes: &[u8]) -> (r: Result<String, ReviewError>)
    ensures
        match r {
            Ok(target) => linked_directory(bytes@) == Some(target@),
            Err(error) => linked_directory(bytes@) is None && error == ReviewError::Protocol,
        },
{
    let line = match answer_line(bytes) {
        Err(error) => return Err(error),
        Ok(line) => line,
    };
    match after_prefix(line.as_str(), "gitdir: ") {
        Some(target) => Ok(target),
        None => Err(ReviewError::Protocol),
    }
}

/// Refuses snapshots that were taken under different bounds.
pub fn check_policies(before: &SnapshotBounds, after: &SnapshotBounds) -> (r: Result<
    (),
    ReviewError,
>)
    ensures
        r == if before.max_files == after.max_files && before.max_bytes == after.max_bytes {
            Ok::<(), ReviewError>(())
        } else {
            Err(ReviewError::Unsupported("snapshot policies differ"))
        },
{
    if before.max_files == after.max_files && before.max_bytes == after.max_bytes {
        Ok(())
    } else {
        Err(ReviewError::Unsupported("snapshot policies differ"))
    }
}

/// What the system tells of a file: where it is, how long, when it was changed, its mode.
#[derive(Clone, Copy, Debug, PartialEq, Eq, Structural)]
pub struct FileStamp {
    pub device: u64,
    pub inode: u64,
    pub size: u64,
    pub modified: i64,
    pub modified_nanos: i64,
    pub changed: i64,
    pub changed_nanos: i64,
    pub mode: u32,
}

/// Refuses to read what is not a file within a bound.
pub fn check_opened(regular: bool, size: u64, limit: usize) -> (r: Result<(), ReviewError>)
    ensures
        r == if regular && size <= limit {
            Ok::<(), ReviewError>(())
        } else {
            Err(ReviewError::Limit("file bytes or type"))
        },
{
    if !regular || size > limit as u64 {
        return Err(ReviewError::Limit("file bytes or type"));
    }
    Ok(())
}

/// Refuses what was read of a file that passes a bound, or that changed meanwhile.
pub fn check_read(before: &FileStamp, after: &FileStamp, bytes: usize, limit: usize) -> (r: Result<
    (),
    ReviewError,
>)
    ensures
        r == if bytes > limit {
            Err::<(), ReviewError>(ReviewError::Limit("file bytes"))
        } else if *before != *after || bytes != after.size {
            Err(ReviewError::Changed)
        } else {
            Ok(())
        },
{
    if bytes > limit {
        return Err(ReviewError::Limit("file bytes"));
    }
    if *before != *after || bytes as u64 != after.size {
        return Err(ReviewError::Changed);
    }
    Ok(())
}

/// Refuses an opened file that is not the one that was found, or that is not on the device of
/// the working tree.
pub fn check_found(found: &FileStamp, opened: &FileStamp, device: u64) -> (r: Result<
    (),
    ReviewError,
>)
    ensures
        r == if opened.inode != found.inode || opened.device != found.device {
            Err::<(), ReviewError>(ReviewError::Changed)
        } else if opened.device != device {
            Err(ReviewError::Unsupported("cross-filesystem source file"))
        } else {
            Ok(())
        },
{
    if opened.inode != found.inode || opened.device != found.device {
        return Err(ReviewError::Changed);
    }
    if opened.device != device {
        return Err(ReviewError::Unsupported("cross-filesystem source file"));
    }
    Ok(())
}

/// What stands at a path of a working tree.
#[derive(Clone, Copy, Debug, PartialEq, Eq, Structural)]
pub enum PathKind {
    Link,
    Directory,
    File,
    Other,
}

/// What a path of a working tree is frozen to: nothing for a directory.
pub open spec fn captured(kind: PathKind, mode: u32, data: Seq<u8>) -> Result<
    Option<(FileKind, u32, u32, Digest, nat)>,
    ReviewError,
> {
    match kind {
        PathKind::Link => if data.len() > 4096 {
            Err(ReviewError::Limit("link target"))
        } else {
            Ok(
                Some(
                    (
                        FileKind::Symlink,
                        LINK_MODE,
                        mode & 4095,
                        crate::digest::digest_of(data),
                        data.len(),
                    ),
                ),
            )
        },
        PathKind::Directory => Ok(None),
        PathKind::File => Ok(
            Some(
                (
                    FileKind::File,
                    mode_for(mode),
                    mode & 4095,
                    crate::digest::digest_of(data),
                    data.len(),
                ),
            ),
        ),
        PathKind::Other => Err(ReviewError::Unsupported("special working-tree file")),
    }
}

/// Freezes what stands at a path of a working tree: the target of a link, or the content of a
/// file.
pub fn capture(kind: PathKind, mode: u32, data: &Vec<u8>) -> (r: Result<
    Option<FrozenFile>,
    ReviewError,
>)
    ensures
        match (r, captured(kind, mode, data@)) {
            (Ok(Some(file)), Ok(Some(expected))) => {
                &&& file.kind == expected.0
                &&& file.mode == expected.1
                &&& file.permissions == Some(expected.2)
                &&& file.content == expected.3
                &&& file.bytes == expected.4
                &&& file.git_object is None
            },
            (Ok(None), Ok(None)) => true,
            (Err(error), Err(expected)) => error == expected,
            _ => false,
        },
{
    match kind {
        PathKind::Link => {
            if data.len() > 4096 {
                return Err(ReviewError::Limit("link target"));
            }
            Ok(
                Some(
                    FrozenFile {
                        kind: FileKind::Symlink,
                        mode: LINK_MODE,
                        permissions: Some(mode & 4095),
                        content: Digest::of(data.as_slice()),
                        bytes: data.len(),
                        git_object: None,
                    },
                ),
            )
        },
        PathKind::Directory => Ok(None),
        PathKind::File => Ok(
            Some(
                FrozenFile {
                    kind: FileKind::File,
                    mode: file_mode(mode),
                    permissions: Some(mode & 4095),
                    content: Digest::of(data.as_slice()),
                    bytes: data.len(),
                    git_object: None,
                },
            ),
        ),
        PathKind::Other => Err(ReviewError::Unsupported("special working-tree file")),
    }
}

/// How many entries the directory of an index may have.
pub const MAX_INDEX_ENTRIES: usize = 4096;

/// How many shared indexes an index may rest on.
pub const MAX_SHARED_INDEXES: usize = 16;

/// An index and the shared indexes beside it, while its directory is walked.
pub struct IndexScan {
    pub bytes: Vec<u8>,
    pub shared: TextMap<Vec<u8>>,
    pub entries: usize,
    pub total: usize,
}

/// Whether the next entry of the directory is a shared index, or why it is refused. An entry
/// whose name is not text is passed over.
pub open spec fn next_entry(
    entries: nat,
    shared: nat,
    name: Option<Seq<char>>,
    format: Seq<char>,
) -> Result<bool, ReviewError> {
    if entries >= MAX_INDEX_ENTRIES {
        Err(ReviewError::Limit("Git directory entries"))
    } else {
        match name {
            None => Ok(false),
            Some(name) => match behind(name, "sharedindex."@) {
                None => Ok(false),
                Some(oid) => if !is_oid(oid, format) {
                    Err(ReviewError::Protocol)
                } else if shared >= MAX_SHARED_INDEXES {
                    Err(ReviewError::Limit("shared indexes"))
                } else {
                    Ok(true)
                },
            },
        }
    }
}

impl IndexScan {
    pub fn new(bytes: Vec<u8>) -> (r: Self)
        ensures
            r.bytes@ == bytes@,
            r.shared@ == Seq::<Entry<Vec<u8>>>::empty(),
            r.entries == 0,
            r.total == bytes@.len(),
    {
        let total = bytes.len();
        IndexScan { bytes, shared: TextMap::new(), entries: 0, total }
    }

    /// Takes the next entry of the directory, and tells whether it is a shared index.
    pub fn entry(&mut self, name: Option<&str>, format: &str) -> (r: Result<bool, ReviewError>)
        ensures
            final(self).bytes == old(self).bytes,
            final(self).shared == old(self).shared,
            final(self).total == old(self).total,
            r == next_entry(
                old(self).entries as nat,
                old(self).shared@.len(),
                match name {
                    Some(name) => Some(name@),
                    None => None,
                },
                format@,
            ),
            final(self).entries == old(self).entries + if old(self).entries >= MAX_INDEX_ENTRIES {
                0int
            } else {
                1int
            },
    {
        if self.entries >= MAX_INDEX_ENTRIES {
            return Err(ReviewError::Limit("Git directory entries"));
        }
        self.entries = self.entries + 1;
        let oid = match name {
            None => return Ok(false),
            Some(name) => match after_prefix(name, "sharedindex.") {
                None => return Ok(false),
                Some(oid) => oid,
            },
        };
        if !oid_valid(oid.as_str(), format) {
            return Err(ReviewError::Protocol);
        }
        if self.shared.len() >= MAX_SHARED_INDEXES {
            return Err(ReviewError::Limit("shared indexes"));
        }
        Ok(true)
    }

    /// Takes the content of a shared index, unless the indexes pass their bound.
    pub fn take(&mut self, name: String, content: Vec<u8>, limits: &ReviewLimits) -> (r: Result<
        (),
        ReviewError,
    >)
        ensures
            final(self).bytes == old(self).bytes,
            final(self).entries == old(self).entries,
            final(self).total == capped_sum(old(self).total, content.len()),
            if final(self).total > limits.max_metadata_bytes {
                &&& r == Err::<(), ReviewError>(ReviewError::Limit("index bytes"))
                &&& final(self).shared == old(self).shared
            } else {
                &&& r is Ok
                &&& value_of(final(self).shared@, name@) == Some(content)
                &&& forall|other: Seq<char>|
                    other != name@ ==> #[trigger] value_of(final(self).shared@, other) == value_of(
                        old(self).shared@,
                        other,
                    )
                &&& final(self).shared@.len() == old(self).shared@.len() + if has_key(
                    old(self).shared@,
                    name@,
                ) {
                    0int
                } else {
                    1int
                }
            },
    {
        self.total = self.total.saturating_add(content.len());
        if self.total > limits.max_metadata_bytes {
            return Err(ReviewError::Limit("index bytes"));
        }
        self.shared.insert(name, content);
        Ok(())
    }

    /// What identifies an index and the shared indexes that it rests on.
    pub fn identity(&self) -> (r: Digest)
        ensures
            r == digest_of_text(index_text(self.bytes@, self.shared@)),
    {
        let mut text = "[".to_string();
        push_byte_list(&mut text, &self.bytes);
        text.push_str(",{");
        let mut i: usize = 0;
        let ghost start = text@;
        while i < self.shared.len()
            invariant
                i <= self.shared@.len(),
                text@ == start + shared_text(self.shared@, i as int),
            decreases self.shared@.len() - i,
        {
            if i > 0 {
                text.push(',');
            }
            push_json_string(&mut text, self.shared.key(i));
            text.push(':');
            push_byte_list(&mut text, self.shared.value(i));
            i += 1;
        }
        text.push_str("}]");
        proof {
            reveal_strlit("[");
            assert(text@ =~= index_text(self.bytes@, self.shared@));
        }
        Digest::of_text(text.as_str())
    }
}

/// The first numbers of a list of bytes.
pub open spec fn byte_items(bytes: Seq<u8>, n: int) -> Seq<char>
    decreases n,
{
    if n <= 0 {
        Seq::<char>::empty()
    } else {
        byte_items(bytes, n - 1) + (if n > 1 {
            seq![',']
        } else {
            Seq::<char>::empty()
        }) + decimal(bytes[n - 1] as nat)
    }
}

/// Bytes as a list of numbers.
pub open spec fn byte_list(bytes: Seq<u8>) -> Seq<char> {
    seq!['['] + byte_items(bytes, bytes.len() as int) + seq![']']
}

fn push_byte_list(text: &mut String, bytes: &Vec<u8>)
    ensures
        final(text)@ == old(text)@ + byte_list(bytes@),
{
    let ghost before = text@;
    text.push('[');
    let mut i: usize = 0;
    while i < bytes.len()
        invariant
            i <= bytes.len(),
            text@ == before + seq!['['] + byte_items(bytes@, i as int),
        decreases bytes.len() - i,
    {
        if i > 0 {
            text.push(',');
        }
        push_decimal(text, bytes[i] as u64);
        i += 1;
        assert(text@ =~= before + seq!['['] + byte_items(bytes@, i as int));
    }
    text.push(']');
    assert(text@ =~= before + byte_list(bytes@));
}

/// The first shared indexes: each name and its content.
pub open spec fn shared_text(shared: Seq<Entry<Vec<u8>>>, n: int) -> Seq<char>
    decreases n,
{
    if n <= 0 {
        Seq::<char>::empty()
    } else {
        shared_text(shared, n - 1) + (if n > 1 {
            seq![',']
        } else {
            Seq::<char>::empty()
        }) + json_string(shared[n - 1].key@) + seq![':'] + byte_list(shared[n - 1].value@)
    }
}

/// An index and the shared indexes that it rests on.
pub open spec fn index_text(bytes: Seq<u8>, shared: Seq<Entry<Vec<u8>>>) -> Seq<char> {
    seq!['['] + byte_list(bytes) + ",{"@ + shared_text(shared, shared.len() as int) + "}]"@
}

} // verus!
