//! Reviews of task snapshots, without a live repository.
use crate::digest::{digest_of, digest_of_text, Digest};
use crate::import::archive::capped_sum;
use crate::review::freeze::{alike, same_file};
use crate::review::model::{
    safe, safe_path, FileKind, FrozenFile, FrozenTree, ReviewError, ReviewLimits, DIRECTORY_MODE,
    EXECUTABLE_MODE, LINK_MODE, MAX_PERMISSIONS, PLAIN_MODE,
};
use crate::split::{push_shown, shown};
use crate::text::{byte_len, text_precedes};
use crate::text_map::{has_key, key_at, value_of, Entry, TextMap};
use vstd::prelude::*;
use vstd::utf8::encode_utf8;

verus! {

/// What a path of a snapshot holds.
#[allow(inconsistent_fields)]
#[derive(Debug, PartialEq, Eq)]
pub enum SnapshotEntry {
    File { content: Digest, mode: u32 },
    Directory { mode: u32 },
    Symlink { target: String },
}

/// The bounds that a snapshot was taken under.
#[derive(Clone, Copy, Debug, PartialEq, Eq, Structural)]
pub struct SnapshotBounds {
    pub version: u32,
    pub max_files: usize,
    pub max_bytes: u64,
}

/// Checks that a snapshot of so many paths can be reviewed.
pub fn check_bounds(bounds: &SnapshotBounds, entries: usize, limits: &ReviewLimits) -> (r: Result<
    (),
    ReviewError,
>)
    ensures
        r == if bounds.version != 1 || bounds.max_files == 0 || bounds.max_bytes == 0 {
            Err::<(), ReviewError>(ReviewError::Unsupported("snapshot version or policy"))
        } else if entries > limits.max_files || entries > bounds.max_files {
            Err(ReviewError::Limit("snapshot entries"))
        } else {
            Ok(())
        },
{
    if bounds.version != 1 || bounds.max_files == 0 || bounds.max_bytes == 0 {
        return Err(ReviewError::Unsupported("snapshot version or policy"));
    }
    if entries > limits.max_files || entries > bounds.max_files {
        return Err(ReviewError::Limit("snapshot entries"));
    }
    Ok(())
}

/// Why a path of a snapshot cannot be reviewed; none where it can.
pub open spec fn entry_refusal(path: Seq<char>, entry: SnapshotEntry) -> Option<ReviewError> {
    if !safe_path(path) {
        Some(ReviewError::Path)
    } else {
        match entry {
            SnapshotEntry::File { content: _, mode } => if mode > MAX_PERMISSIONS {
                Some(ReviewError::Unsupported("file permissions"))
            } else {
                None
            },
            SnapshotEntry::Directory { mode } => if mode > MAX_PERMISSIONS {
                Some(ReviewError::Unsupported("directory permissions"))
            } else {
                None
            },
            SnapshotEntry::Symlink { target } => if encode_utf8(target@).len() > 4096 {
                Some(ReviewError::Limit("link target"))
            } else {
                None
            },
        }
    }
}

/// Checks a path of a snapshot before its content is read.
pub fn check_entry(path: &str, entry: &SnapshotEntry) -> (r: Result<(), ReviewError>)
    ensures
        match r {
            Ok(()) => entry_refusal(path@, *entry) is None,
            Err(error) => entry_refusal(path@, *entry) == Some(error),
        },
{
    if !safe(path) {
        return Err(ReviewError::Path);
    }
    match entry {
        SnapshotEntry::File { content: _, mode } => if *mode > MAX_PERMISSIONS {
            Err(ReviewError::Unsupported("file permissions"))
        } else {
            Ok(())
        },
        SnapshotEntry::Directory { mode } => if *mode > MAX_PERMISSIONS {
            Err(ReviewError::Unsupported("directory permissions"))
        } else {
            Ok(())
        },
        SnapshotEntry::Symlink { target } => if byte_len(target.as_str()) > 4096 {
            Err(ReviewError::Limit("link target"))
        } else {
            Ok(())
        },
    }
}

/// The mode that the permissions of a file stand for.
pub open spec fn mode_for(permissions: u32) -> u32 {
    if permissions & 73 == 0 {
        PLAIN_MODE
    } else {
        EXECUTABLE_MODE
    }
}

/// The mode that the permissions of a file stand for.
pub fn file_mode(permissions: u32) -> (r: u32)
    ensures
        r == mode_for(permissions),
{
    if permissions & 73 == 0 {
        PLAIN_MODE
    } else {
        EXECUTABLE_MODE
    }
}

/// What a path of a snapshot is frozen to, given the content of a file.
pub open spec fn snapshot_file(entry: SnapshotEntry, data: Seq<u8>) -> FrozenFile {
    match entry {
        SnapshotEntry::File { content, mode } => FrozenFile {
            kind: FileKind::File,
            mode: mode_for(mode),
            permissions: Some(mode),
            content,
            bytes: data.len() as usize,
            git_object: None,
        },
        SnapshotEntry::Directory { mode } => FrozenFile {
            kind: FileKind::Directory,
            mode: DIRECTORY_MODE,
            permissions: Some(mode),
            content: digest_of(Seq::empty()),
            bytes: 0,
            git_object: None,
        },
        SnapshotEntry::Symlink { target } => FrozenFile {
            kind: FileKind::Symlink,
            mode: LINK_MODE,
            permissions: None,
            content: digest_of_text(target@),
            bytes: encode_utf8(target@).len() as usize,
            git_object: None,
        },
    }
}

/// The frozen paths of a snapshot.
pub struct SnapshotScan {
    pub files: TextMap<FrozenFile>,
    pub total: usize,
}

impl SnapshotScan {
    pub fn new() -> (r: Self)
        ensures
            r.files@ == Seq::<Entry<FrozenFile>>::empty(),
            r.total == 0,
    {
        SnapshotScan { files: TextMap::new(), total: 0 }
    }

    /// Takes a path that was checked, with the content of a file.
    pub fn take(
        &mut self,
        path: &str,
        entry: &SnapshotEntry,
        data: &Vec<u8>,
        bounds: &SnapshotBounds,
        limits: &ReviewLimits,
    ) -> (r: Result<(), ReviewError>)
        requires
            entry_refusal(path@, *entry) is None,
        ensures
            ({
                let file = snapshot_file(*entry, data@);
                let total = capped_sum(old(self).total, file.bytes);
                if entry is File && digest_of(data@) != file.content {
                    &&& r == Err::<(), ReviewError>(ReviewError::Corrupt)
                    &&& *final(self) == *old(self)
                } else if total > limits.max_snapshot_bytes || total > bounds.max_bytes {
                    &&& r == Err::<(), ReviewError>(ReviewError::Limit("snapshot bytes"))
                    &&& final(self).files == old(self).files
                } else {
                    &&& r == Ok::<(), ReviewError>(())
                    &&& final(self).total == total
                    &&& value_of(final(self).files@, path@) == Some(file)
                    &&& forall|other: Seq<char>|
                        other != path@ ==> #[trigger] value_of(final(self).files@, other)
                            == value_of(old(self).files@, other)
                }
            }),
    {
        let file = match entry {
            SnapshotEntry::File { content, mode } => {
                if Digest::of(data.as_slice()) != *content {
                    return Err(ReviewError::Corrupt);
                }
                FrozenFile {
                    kind: FileKind::File,
                    mode: file_mode(*mode),
                    permissions: Some(*mode),
                    content: *content,
                    bytes: data.len(),
                    git_object: None,
                }
            },
            SnapshotEntry::Directory { mode } => {
                let nothing: Vec<u8> = Vec::new();
                assert(nothing@ =~= Seq::<u8>::empty());
                FrozenFile {
                    kind: FileKind::Directory,
                    mode: DIRECTORY_MODE,
                    permissions: Some(*mode),
                    content: Digest::of(nothing.as_slice()),
                    bytes: 0,
                    git_object: None,
                }
            },
            SnapshotEntry::Symlink { target } => FrozenFile {
                kind: FileKind::Symlink,
                mode: LINK_MODE,
                permissions: None,
                content: Digest::of_text(target.as_str()),
                bytes: byte_len(target.as_str()),
                git_object: None,
            },
        };
        assert(file == snapshot_file(*entry, data@));
        self.total = self.total.saturating_add(file.bytes);
        if self.total > limits.max_snapshot_bytes || self.total as u64 > bounds.max_bytes {
            return Err(ReviewError::Limit("snapshot bytes"));
        }
        self.files.insert(path.to_owned(), file);
        Ok(())
    }
}

/// Whether the permissions of a file say more than its mode.
pub open spec fn noncanonical(file: FrozenFile) -> bool {
    file.kind == FileKind::File && file.permissions != Some(file.mode & 511)
}

/// Whether a path changed in a way that a patch does not show: a directory came, went or
/// changed, or permissions that a mode does not tell of.
pub open spec fn metadata_changed(left: Option<FrozenFile>, right: Option<FrozenFile>) -> bool {
    match (left, right) {
        (None, None) => false,
        (Some(left), None) => left.kind == FileKind::Directory,
        (None, Some(right)) => right.kind == FileKind::Directory || noncanonical(right),
        (Some(left), Some(right)) => if alike(left, right) {
            false
        } else if left.kind == FileKind::Directory || right.kind == FileKind::Directory {
            true
        } else if left.kind == FileKind::File && right.kind == FileKind::File {
            left.permissions != right.permissions && (noncanonical(left) || noncanonical(right))
        } else {
            noncanonical(right)
        },
    }
}

fn is_noncanonical(file: &FrozenFile) -> (r: bool)
    ensures
        r == noncanonical(*file),
{
    file.kind == FileKind::File && file.permissions != Some(file.mode & 511)
}

fn is_changed(left: Option<&FrozenFile>, right: Option<&FrozenFile>) -> (r: bool)
    ensures
        r == metadata_changed(
            match left {
                Some(left) => Some(*left),
                None => None,
            },
            match right {
                Some(right) => Some(*right),
                None => None,
            },
        ),
{
    match (left, right) {
        (None, None) => false,
        (Some(left), None) => left.kind == FileKind::Directory,
        (None, Some(right)) => right.kind == FileKind::Directory || is_noncanonical(right),
        (Some(left), Some(right)) => {
            if same_file(left, right) {
                false
            } else if left.kind == FileKind::Directory || right.kind == FileKind::Directory {
                true
            } else if left.kind == FileKind::File && right.kind == FileKind::File {
                left.permissions != right.permissions && (is_noncanonical(left) || is_noncanonical(
                    right,
                ))
            } else {
                is_noncanonical(right)
            }
        },
    }
}

/// Texts in strictly ascending order.
pub open spec fn ascending(texts: Seq<Seq<char>>) -> bool {
    forall|i: int, j: int|
        0 <= i < j < texts.len() ==> text_precedes(#[trigger] texts[i], #[trigger] texts[j])
}

/// Whether a path of one of two trees is to be listed as changed.
pub open spec fn listed(
    before: Seq<Entry<FrozenFile>>,
    after: Seq<Entry<FrozenFile>>,
    path: Seq<char>,
) -> bool {
    metadata_changed(value_of(before, path), value_of(after, path))
}

fn collect(
    found: &mut TextMap<bool>,
    paths: &FrozenTree,
    before: &FrozenTree,
    after: &FrozenTree,
)
    requires
        forall|path: Seq<char>|
            #[trigger] has_key(old(found)@, path) ==> listed(before.files@, after.files@, path),
    ensures
        forall|path: Seq<char>|
            #[trigger] has_key(final(found)@, path) ==> listed(before.files@, after.files@, path),
        forall|path: Seq<char>| has_key(old(found)@, path) ==> #[trigger] has_key(final(found)@, path),
        forall|path: Seq<char>|
            has_key(paths.files@, path) && listed(before.files@, after.files@, path)
                ==> #[trigger] has_key(final(found)@, path),
{
    let ghost start = found@;
    let mut i: usize = 0;
    while i < paths.files.len()
        invariant
            i <= paths.files@.len(),
            forall|path: Seq<char>|
                #[trigger] has_key(found@, path) ==> listed(before.files@, after.files@, path),
            forall|path: Seq<char>| has_key(start, path) ==> #[trigger] has_key(found@, path),
            forall|j: int|
                0 <= j < i && listed(
                    before.files@,
                    after.files@,
                    (#[trigger] paths.files@[j]).key@,
                ) ==> has_key(found@, paths.files@[j].key@),
        decreases paths.files@.len() - i,
    {
        let path = paths.files.key(i);
        if is_changed(before.files.get(path), after.files.get(path)) {
            let ghost held = found@;
            found.insert(path.to_owned(), true);
            proof {
                assert forall|other: Seq<char>| has_key(held, other) implies #[trigger] has_key(
                    found@,
                    other,
                ) by {
                    if other != path@ {
                        assert(value_of(found@, other) == value_of(held, other));
                    }
                    assert(value_of(found@, path@) is Some);
                }
                assert forall|other: Seq<char>| #[trigger] has_key(found@, other) implies listed(
                    before.files@,
                    after.files@,
                    other,
                ) by {
                    if other != path@ {
                        assert(value_of(found@, other) == value_of(held, other));
                        assert(has_key(held, other));
                    }
                }
                assert(value_of(found@, path@) is Some);
                assert(has_key(found@, path@));
            }
        }
        i += 1;
    }
    proof {
        assert forall|path: Seq<char>|
            has_key(paths.files@, path) && listed(before.files@, after.files@, path) implies
            #[trigger] has_key(found@, path) by {
            let j = choose|j: int| key_at(paths.files@, path, j);
            assert(paths.files@[j].key@ == path);
        }
    }
}

/// The paths of two trees that changed in a way which a patch does not show, in order.
pub fn metadata_changes(before: &FrozenTree, after: &FrozenTree) -> (r: Vec<String>)
    ensures
        ascending(shown(r@)),
        forall|path: Seq<char>|
            #[trigger] shown(r@).contains(path) <==> listed(before.files@, after.files@, path),
{
    let mut found: TextMap<bool> = TextMap::new();
    proof {
        assert forall|path: Seq<char>| #[trigger] has_key(found@, path) implies listed(
            before.files@,
            after.files@,
            path,
        ) by {
            let k = choose|k: int| key_at(found@, path, k);
        }
    }
    collect(&mut found, before, before, after);
    collect(&mut found, after, before, after);
    let mut list: Vec<String> = Vec::new();
    let mut i: usize = 0;
    let count = found.len();
    assert(shown(list@) =~= Seq::<Seq<char>>::empty());
    while i < count
        invariant
            i <= count == found@.len(),
            shown(list@).len() == i,
            forall|j: int| 0 <= j < i ==> #[trigger] shown(list@)[j] == found@[j].key@,
        decreases count - i,
    {
        push_shown(&mut list, found.key(i).to_owned());
        i += 1;
    }
    proof {
        let all = shown(list@);
        assert forall|a: int, b: int| 0 <= a < b < all.len() implies text_precedes(
            #[trigger] all[a],
            #[trigger] all[b],
        ) by {
            assert(all[a] == found@[a].key@ && all[b] == found@[b].key@);
        }
        assert forall|path: Seq<char>| #[trigger] all.contains(path) <==> listed(
            before.files@,
            after.files@,
            path,
        ) by {
            if all.contains(path) {
                let j = choose|j: int| 0 <= j < all.len() && all[j] == path;
                assert(all[j] == found@[j].key@);
                assert(key_at(found@, path, j));
                assert(has_key(found@, path));
            }
            if listed(before.files@, after.files@, path) {
                assert(has_key(before.files@, path) || has_key(after.files@, path));
                assert(has_key(found@, path));
                let j = choose|j: int| key_at(found@, path, j);
                assert(all[j] == found@[j].key@);
            }
        }
    }
    list
}

/// Paths that did not change are not listed.
pub proof fn law_unchanged_paths_are_not_listed(
    before: Seq<Entry<FrozenFile>>,
    after: Seq<Entry<FrozenFile>>,
    path: Seq<char>,
)
    requires
        value_of(before, path) == value_of(after, path),
    ensures
        !listed(before, after, path),
{
}

} // verus!
