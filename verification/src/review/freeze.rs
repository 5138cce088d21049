//! Freezing: trees out of the contents that Git hands out, and back into an index.
use crate::digest::{digest_of, Digest};
use crate::review::git::answer_text;
use crate::review::model::{
    FileKind, FrozenFile, FrozenTree, ReviewError, ReviewLimits, EXECUTABLE_MODE, GITLINK_MODE,
    LINK_MODE, PLAIN_MODE,
};
use crate::review::objects::{
    blob_name, byte_at, find_byte, verify_object, Object,
};
use crate::split::{number_of, parse_number, shown, words, words_of};
use crate::text::same_text;
use crate::text_map::{has_key, key_at, value_of, Entry, TextMap};
use vstd::prelude::*;
use vstd::slice::slice_subrange;
use vstd::utf8::{decode_utf8, encode_utf8, valid_utf8};

verus! {

/// A content in an answer, and where the answer goes on.
#[verifier::ext_equal]
pub struct Content {
    pub data: Seq<u8>,
    pub next: int,
}

/// The size that the header of a content notes, if it is the header of an object.
pub open spec fn header_size(header: Seq<u8>, oid: Seq<char>) -> Option<int> {
    if !valid_utf8(header) {
        None
    } else {
        let fields = words_of(decode_utf8(header));
        if fields.len() != 3 || fields[0] != oid || fields[1] != "blob"@ {
            None
        } else {
            match number_of(fields[2], 10) {
                Some(size) => if size <= usize::MAX {
                    Some(size)
                } else {
                    None
                },
                None => None,
            }
        }
    }
}

fn read_header(header: &[u8], oid: &str) -> (r: Option<usize>)
    ensures
        match r {
            Some(size) => header_size(header@, oid@) == Some(size as int),
            None => header_size(header@, oid@) is None,
        },
{
    let line = match answer_text(header) {
        Err(_) => return None,
        Ok(line) => line,
    };
    let fields = words(line.as_str());
    let ghost all = words_of(line@);
    assert(all == shown(fields@));
    if fields.len() != 3 {
        return None;
    }
    assert(all[0] == fields@[0]@ && all[1] == fields@[1]@ && all[2] == fields@[2]@);
    if !same_text(fields[0].as_str(), oid) || !same_text(fields[1].as_str(), "blob") {
        return None;
    }
    match parse_number(fields[2].as_str(), 10, usize::MAX as u64) {
        Some(size) => Some(size as usize),
        None => None,
    }
}

/// The content of an object that stands at a place of an answer: a header on a line, the
/// content, and a line end.
pub open spec fn content_at(bytes: Seq<u8>, at: int, oid: Seq<char>) -> Option<Content> {
    let end = byte_at(bytes, 10, at);
    if end >= bytes.len() {
        None
    } else {
        match header_size(bytes.subrange(at, end), oid) {
            None => None,
            Some(size) => if end + 1 + size >= bytes.len() || bytes[end + 1 + size] != 10 {
                None
            } else {
                Some(
                    Content {
                        data: bytes.subrange(end + 1, end + 1 + size),
                        next: end + 1 + size + 1,
                    },
                )
            },
        }
    }
}

fn copy_bytes(bytes: &[u8], from: usize, to: usize) -> (r: Vec<u8>)
    requires
        from <= to <= bytes@.len(),
    ensures
        r@ == bytes@.subrange(from as int, to as int),
{
    let mut copy: Vec<u8> = Vec::new();
    let mut i: usize = from;
    while i < to
        invariant
            from <= i <= to <= bytes@.len(),
            copy@ == bytes@.subrange(from as int, i as int),
        decreases to - i,
    {
        copy.push(bytes[i]);
        assert(copy@ =~= bytes@.subrange(from as int, i + 1));
        i += 1;
    }
    copy
}

fn read_content(bytes: &[u8], at: usize, oid: &str) -> (r: Option<(Vec<u8>, usize)>)
    requires
        at <= bytes@.len(),
    ensures
        match (r, content_at(bytes@, at as int, oid@)) {
            (Some((data, next)), Some(content)) => data@ == content.data && next == content.next
                && next <= bytes@.len(),
            (None, None) => true,
            _ => false,
        },
{
    let end = find_byte(bytes, 10, at);
    if end >= bytes.len() {
        return None;
    }
    let size: usize = match read_header(slice_subrange(bytes, at, end), oid) {
        Some(size) => size,
        None => return None,
    };
    let start = end + 1;
    if size >= bytes.len() - start {
        return None;
    }
    if bytes[start + size] != 10 {
        return None;
    }
    Some((copy_bytes(bytes, start, start + size), start + size + 1))
}

/// What a gitlink holds.
pub open spec fn gitlink_bytes(oid: Seq<char>) -> Seq<u8> {
    encode_utf8("Subproject commit "@ + oid + "\n"@)
}

/// What an object is frozen from.
#[verifier::ext_equal]
pub struct Part {
    pub kind: FileKind,
    pub data: Seq<u8>,
    pub next: int,
}

/// What an object is frozen from, at a place of an answer. A content that is not the one
/// that its name stands for is refused.
pub open spec fn part_at(object: Object, bytes: Seq<u8>, at: int, format: Seq<char>) -> Result<
    Part,
    ReviewError,
> {
    if object.mode == GITLINK_MODE {
        Ok(Part { kind: FileKind::Gitlink, data: gitlink_bytes(object.oid@), next: at })
    } else {
        match content_at(bytes, at, object.oid@) {
            None => Err(ReviewError::Protocol),
            Some(content) => if blob_name(content.data, format) != object.oid@ {
                Err(ReviewError::Corrupt)
            } else if object.mode == PLAIN_MODE || object.mode == EXECUTABLE_MODE {
                Ok(Part { kind: FileKind::File, data: content.data, next: content.next })
            } else if object.mode == LINK_MODE {
                Ok(Part { kind: FileKind::Symlink, data: content.data, next: content.next })
            } else {
                Err(ReviewError::Unsupported("index mode"))
            },
        }
    }
}

fn text_bytes_of(text: &str) -> (r: Vec<u8>)
    ensures
        r@ == encode_utf8(text@),
{
    let bytes = text.as_bytes();
    let copy = copy_bytes(bytes, 0, bytes.len());
    assert(copy@ =~= encode_utf8(text@));
    copy
}

fn read_part(object: &Object, bytes: &[u8], at: usize, format: &str) -> (r: Result<
    (FileKind, Vec<u8>, usize),
    ReviewError,
>)
    requires
        at <= bytes@.len(),
    ensures
        match (r, part_at(*object, bytes@, at as int, format@)) {
            (Ok((kind, data, next)), Ok(part)) => kind == part.kind && data@ == part.data && next
                == part.next && next <= bytes@.len(),
            (Err(error), Err(expected)) => error == expected,
            _ => false,
        },
{
    if object.mode == GITLINK_MODE {
        let mut text = "Subproject commit ".to_owned();
        text.push_str(object.oid.as_str());
        text.push_str("\n");
        return Ok((FileKind::Gitlink, text_bytes_of(text.as_str()), at));
    }
    let (data, next) = match read_content(bytes, at, object.oid.as_str()) {
        Some(content) => content,
        None => return Err(ReviewError::Protocol),
    };
    match verify_object(data.as_slice(), object.oid.as_str(), format) {
        Err(error) => return Err(error),
        Ok(()) => {},
    }
    if object.mode == PLAIN_MODE || object.mode == EXECUTABLE_MODE {
        Ok((FileKind::File, data, next))
    } else if object.mode == LINK_MODE {
        Ok((FileKind::Symlink, data, next))
    } else {
        Err(ReviewError::Unsupported("index mode"))
    }
}

/// Whether a path occurs among the first `n` objects.
pub open spec fn path_before(objects: Seq<Object>, path: Seq<char>, n: int) -> bool {
    exists|j: int| 0 <= j < n && (#[trigger] objects[j]).path@ == path
}

/// What the objects from one on are frozen from, at a place of an answer, when so many
/// bytes came before.
pub open spec fn frozen_from(
    objects: Seq<Object>,
    i: int,
    bytes: Seq<u8>,
    at: int,
    total: int,
    format: Seq<char>,
    limits: ReviewLimits,
) -> Result<Seq<Part>, ReviewError>
    decreases objects.len() - i,
{
    if i < 0 || i >= objects.len() {
        if at != bytes.len() {
            Err(ReviewError::Protocol)
        } else {
            Ok(Seq::empty())
        }
    } else {
        match part_at(objects[i], bytes, at, format) {
            Err(error) => Err(error),
            Ok(part) => if part.data.len() > limits.max_file_bytes || total + part.data.len()
                > limits.max_snapshot_bytes {
                Err(ReviewError::Limit("snapshot bytes"))
            } else if path_before(objects, objects[i].path@, i) {
                Err(ReviewError::Protocol)
            } else {
                match frozen_from(
                    objects,
                    i + 1,
                    bytes,
                    part.next,
                    total + part.data.len(),
                    format,
                    limits,
                ) {
                    Err(error) => Err(error),
                    Ok(rest) => Ok(Seq::empty().push(part) + rest),
                }
            },
        }
    }
}

/// What parts come to behind those that came before.
pub open spec fn parts_behind(before: Seq<Part>, rest: Result<Seq<Part>, ReviewError>) -> Result<
    Seq<Part>,
    ReviewError,
> {
    match rest {
        Err(error) => Err(error),
        Ok(rest) => Ok(before + rest),
    }
}

/// The file that an object is frozen to.
pub open spec fn frozen_file(object: Object, part: Part) -> FrozenFile {
    FrozenFile {
        kind: part.kind,
        mode: object.mode,
        permissions: None,
        content: digest_of(part.data),
        bytes: part.data.len() as usize,
        git_object: Some(object.oid),
    }
}

/// Whether a tree holds the first `n` objects and nothing else.
pub open spec fn tree_holds(
    files: Seq<Entry<FrozenFile>>,
    objects: Seq<Object>,
    parts: Seq<Part>,
    n: int,
) -> bool {
    &&& files.len() == n
    &&& forall|j: int|
        0 <= j < n ==> value_of(files, (#[trigger] objects[j]).path@) == Some(
            frozen_file(objects[j], parts[j]),
        )
    &&& forall|key: Seq<char>| #[trigger] has_key(files, key) ==> path_before(objects, key, n)
}

/// Freezes objects, given what Git answers when it is asked for their contents. Hands out
/// the contents as well, one for each object.
pub fn freeze_objects(objects: &Vec<Object>, bytes: &[u8], format: &str, limits: &ReviewLimits) -> (r:
    Result<(FrozenTree, Vec<Vec<u8>>), ReviewError>)
    ensures
        match (r, frozen_from(objects@, 0, bytes@, 0, 0, format@, *limits)) {
            (Ok((tree, contents)), Ok(parts)) => {
                &&& tree.version == 1
                &&& parts.len() == objects@.len()
                &&& tree_holds(tree.files@, objects@, parts, objects@.len() as int)
                &&& contents@.len() == parts.len()
                &&& forall|i: int|
                    0 <= i < parts.len() ==> (#[trigger] contents@[i])@ == parts[i].data
            },
            (Err(error), Err(expected)) => error == expected,
            _ => false,
        },
{
    let ghost whole = frozen_from(objects@, 0, bytes@, 0, 0, format@, *limits);
    let ghost mut done: Seq<Part> = Seq::empty();
    let mut files: TextMap<FrozenFile> = TextMap::new();
    let mut contents: Vec<Vec<u8>> = Vec::new();
    let mut at: usize = 0;
    let mut total: usize = 0;
    let mut i: usize = 0;
    proof {
        if whole is Ok {
            assert(done + whole->Ok_0 =~= whole->Ok_0);
        }
        assert forall|key: Seq<char>| #[trigger] has_key(files@, key) implies path_before(
            objects@,
            key,
            0,
        ) by {
            let k = choose|k: int| key_at(files@, key, k);
        }
    }
    while i < objects.len()
        invariant
            i <= objects.len(),
            at <= bytes@.len(),
            total <= limits.max_snapshot_bytes,
            done.len() == i,
            whole == frozen_from(objects@, 0, bytes@, 0, 0, format@, *limits),
            whole == parts_behind(
                done,
                frozen_from(
                    objects@,
                    i as int,
                    bytes@,
                    at as int,
                    total as int,
                    format@,
                    *limits,
                ),
            ),
            tree_holds(files@, objects@, done, i as int),
            contents@.len() == i,
            forall|j: int| 0 <= j < i ==> (#[trigger] contents@[j])@ == done[j].data,
        decreases objects.len() - i,
    {
        let object = &objects[i];
        let (kind, data, next) = match read_part(object, bytes, at, format) {
            Err(error) => return Err(error),
            Ok(part) => part,
        };
        if data.len() > limits.max_file_bytes || data.len() > limits.max_snapshot_bytes - total {
            return Err(ReviewError::Limit("snapshot bytes"));
        }
        if files.contains_key(object.path.as_str()) {
            return Err(ReviewError::Protocol);
        }
        proof {
            if path_before(objects@, object.path@, i as int) {
                let j = choose|j: int| 0 <= j < i && (#[trigger] objects@[j]).path@ == object.path@;
                assert(value_of(files@, objects@[j].path@) is Some);
            }
        }
        let ghost part = Part { kind, data: data@, next: next as int };
        let ghost before = files@;
        let ghost held = done;
        let file = FrozenFile {
            kind,
            mode: object.mode,
            permissions: None,
            content: Digest::of(data.as_slice()),
            bytes: data.len(),
            git_object: Some(object.oid.clone()),
        };
        assert(file == frozen_file(*object, part));
        let ghost rest = frozen_from(
            objects@,
            i + 1,
            bytes@,
            next as int,
            total + data@.len(),
            format@,
            *limits,
        );
        files.insert(object.path.clone(), file);
        proof {
            done = done.push(part);
            assert forall|j: int| 0 <= j < i + 1 implies value_of(
                files@,
                (#[trigger] objects@[j]).path@,
            ) == Some(frozen_file(objects@[j], done[j])) by {
                if j < i {
                    assert(objects@[j].path@ != object.path@);
                    assert(value_of(before, objects@[j].path@) == Some(
                        frozen_file(objects@[j], held[j]),
                    ));
                }
            }
            assert forall|key: Seq<char>| #[trigger] has_key(files@, key) implies path_before(
                objects@,
                key,
                i + 1,
            ) by {
                if key == object.path@ {
                    assert(objects@[i as int].path@ == key);
                } else {
                    assert(value_of(files@, key) == value_of(before, key));
                    assert(has_key(before, key));
                    let j = choose|j: int| 0 <= j < i && (#[trigger] objects@[j]).path@ == key;
                    assert(objects@[j].path@ == key);
                }
            }
            if rest is Ok {
                assert(held + (Seq::empty().push(part) + rest->Ok_0) =~= done + rest->Ok_0);
            }
        }
        total = total + data.len();
        at = next;
        contents.push(data);
        i += 1;
    }
    if at != bytes.len() {
        return Err(ReviewError::Protocol);
    }
    proof {
        assert(done + Seq::<Part>::empty() =~= done);
    }
    Ok((FrozenTree { version: 1, files }, contents))
}

/// Whether a tree holds a commit of another repository.
pub open spec fn holds_gitlink(files: Seq<Entry<FrozenFile>>) -> bool {
    exists|i: int| 0 <= i < files.len() && (#[trigger] files[i]).value.kind == FileKind::Gitlink
}

/// Checks that a working tree can be captured.
pub fn check_working(tree: &FrozenTree) -> (r: Result<(), ReviewError>)
    ensures
        r == if holds_gitlink(tree.files@) {
            Err::<(), ReviewError>(
                ReviewError::Unsupported("working-tree submodules; inspect the submodule separately"),
            )
        } else {
            Ok(())
        },
{
    let mut i: usize = 0;
    while i < tree.files.len()
        invariant
            i <= tree.files@.len(),
            forall|j: int|
                0 <= j < i ==> (#[trigger] tree.files@[j]).value.kind != FileKind::Gitlink,
        decreases tree.files@.len() - i,
    {
        if tree.files.value(i).kind == FileKind::Gitlink {
            assert(tree.files@[i as int].value.kind == FileKind::Gitlink);
            return Err(
                ReviewError::Unsupported("working-tree submodules; inspect the submodule separately"),
            );
        }
        i += 1;
    }
    Ok(())
}

/// The captured files of a working tree.
pub struct WorkingScan {
    pub files: TextMap<FrozenFile>,
    pub total: usize,
}

impl WorkingScan {
    pub fn new() -> (r: Self)
        ensures
            r.files@ == Seq::<Entry<FrozenFile>>::empty(),
            r.total == 0,
    {
        WorkingScan { files: TextMap::new(), total: 0 }
    }

    /// Whether a path was captured already.
    pub fn has(&self, path: &str) -> (r: bool)
        ensures
            r == has_key(self.files@, path@),
    {
        self.files.contains_key(path)
    }

    /// Takes what a path holds, unless the working tree passes its bounds.
    pub fn take(&mut self, path: String, file: FrozenFile, limits: &ReviewLimits) -> (r: Result<
        (),
        ReviewError,
    >)
        ensures
            ({
                let total = crate::import::archive::capped_sum(old(self).total, file.bytes);
                &&& final(self).total == total
                &&& if total > limits.max_snapshot_bytes {
                    &&& r == Err::<(), ReviewError>(ReviewError::Limit("snapshot bytes"))
                    &&& final(self).files == old(self).files
                } else {
                    &&& value_of(final(self).files@, path@) == Some(file)
                    &&& forall|other: Seq<char>|
                        other != path@ ==> #[trigger] value_of(final(self).files@, other)
                            == value_of(old(self).files@, other)
                    &&& final(self).files@.len() == old(self).files@.len() + if has_key(
                        old(self).files@,
                        path@,
                    ) {
                        0int
                    } else {
                        1int
                    }
                    &&& r == if final(self).files@.len() > limits.max_files {
                        Err::<(), ReviewError>(ReviewError::Limit("file count"))
                    } else {
                        Ok(())
                    }
                }
            }),
    {
        self.total = self.total.saturating_add(file.bytes);
        if self.total > limits.max_snapshot_bytes {
            return Err(ReviewError::Limit("snapshot bytes"));
        }
        self.files.insert(path, file);
        if self.files.len() > limits.max_files {
            return Err(ReviewError::Limit("file count"));
        }
        Ok(())
    }
}

/// Whether two frozen files are the same.
pub fn same_file(a: &FrozenFile, b: &FrozenFile) -> (r: bool)
    ensures
        r == alike(*a, *b),
{
    let objects = match (&a.git_object, &b.git_object) {
        (Some(x), Some(y)) => same_text(x.as_str(), y.as_str()),
        (None, None) => true,
        _ => false,
    };
    a.kind == b.kind && a.mode == b.mode && a.permissions == b.permissions && a.content == b.content
        && a.bytes == b.bytes && objects
}

/// Whether two frozen files are the same.
pub open spec fn alike(a: FrozenFile, b: FrozenFile) -> bool {
    &&& a.kind == b.kind
    &&& a.mode == b.mode
    &&& a.permissions == b.permissions
    &&& a.content == b.content
    &&& a.bytes == b.bytes
    &&& match (a.git_object, b.git_object) {
        (Some(x), Some(y)) => x@ == y@,
        (None, None) => true,
        _ => false,
    }
}

/// Whether two trees are the same.
pub open spec fn same_trees(a: FrozenTree, b: FrozenTree) -> bool {
    &&& a.version == b.version
    &&& a.files@.len() == b.files@.len()
    &&& forall|i: int|
        0 <= i < a.files@.len() ==> (#[trigger] a.files@[i]).key@ == b.files@[i].key@ && alike(
            a.files@[i].value,
            b.files@[i].value,
        )
}

/// Whether two trees are the same: a source that changed while it was captured shows here.
pub fn same_tree(a: &FrozenTree, b: &FrozenTree) -> (r: bool)
    ensures
        r == same_trees(*a, *b),
{
    if a.version != b.version || a.files.len() != b.files.len() {
        return false;
    }
    let mut i: usize = 0;
    while i < a.files.len()
        invariant
            i <= a.files@.len() == b.files@.len(),
            forall|j: int|
                0 <= j < i ==> (#[trigger] a.files@[j]).key@ == b.files@[j].key@ && alike(
                    a.files@[j].value,
                    b.files@[j].value,
                ),
        decreases a.files@.len() - i,
    {
        if !same_text(a.files.key(i), b.files.key(i)) || !same_file(
            a.files.value(i),
            b.files.value(i),
        ) {
            assert(a.files@[i as int].key@ != b.files@[i as int].key@ || !alike(
                a.files@[i as int].value,
                b.files@[i as int].value,
            ));
            return false;
        }
        i += 1;
    }
    true
}

/// Whether an object was frozen to what it names: a commit of another repository to its name,
/// and anything else to a content whose blob has the name of the object.
pub open spec fn is_frozen(object: Object, part: Part, format: Seq<char>) -> bool {
    match part.kind {
        FileKind::Gitlink => object.mode == 0xe000 && part.data == encode_utf8(
            "Subproject commit "@ + object.oid@ + "\n"@,
        ),
        FileKind::Symlink => object.mode == 0xa000 && blob_name(part.data, format) == object.oid@,
        FileKind::File => (object.mode == 0x81a4 || object.mode == 0x81ed) && blob_name(
            part.data,
            format,
        ) == object.oid@,
        FileKind::Directory => false,
    }
}

/// How many bytes parts hold.
pub open spec fn parts_size(parts: Seq<Part>) -> int
    decreases parts.len(),
{
    if parts.len() == 0 {
        0
    } else {
        parts[0].data.len() + parts_size(parts.skip(1))
    }
}

proof fn lemma_frozen_from(
    objects: Seq<Object>,
    i: int,
    bytes: Seq<u8>,
    at: int,
    total: int,
    format: Seq<char>,
    limits: ReviewLimits,
)
    requires
        0 <= i <= objects.len(),
        frozen_from(objects, i, bytes, at, total, format, limits) is Ok,
    ensures
        ({
            let parts = frozen_from(objects, i, bytes, at, total, format, limits)->Ok_0;
            &&& parts.len() == objects.len() - i
            &&& forall|k: int|
                0 <= k < parts.len() ==> is_frozen(objects[i + k], #[trigger] parts[k], format)
                    && parts[k].data.len() <= limits.max_file_bytes
            &&& i < objects.len() ==> total + parts_size(parts) <= limits.max_snapshot_bytes
            &&& i == objects.len() ==> parts_size(parts) == 0
            &&& forall|j: int, k: int|
                0 <= j < k < objects.len() && i <= k ==> (#[trigger] objects[j]).path@ != (
                #[trigger] objects[k]).path@
        }),
    decreases objects.len() - i,
{
    if i < objects.len() {
        let part = part_at(objects[i], bytes, at, format)->Ok_0;
        let more = total + part.data.len();
        lemma_frozen_from(objects, i + 1, bytes, part.next, more, format, limits);
        let rest = frozen_from(objects, i + 1, bytes, part.next, more, format, limits)->Ok_0;
        let parts = frozen_from(objects, i, bytes, at, total, format, limits)->Ok_0;
        assert(parts =~= Seq::empty().push(part) + rest);
        assert(parts.skip(1) =~= rest);
        assert(parts[0] == part);
        assert forall|k: int| 0 <= k < parts.len() implies is_frozen(
            objects[i + k],
            #[trigger] parts[k],
            format,
        ) && parts[k].data.len() <= limits.max_file_bytes by {
            if k > 0 {
                assert(parts[k] == rest[k - 1]);
                assert(objects[i + 1 + (k - 1)] == objects[i + k]);
            }
        }
        assert(!path_before(objects, objects[i].path@, i));
        assert forall|j: int, k: int| 0 <= j < k < objects.len() && i <= k implies (
        #[trigger] objects[j]).path@ != (#[trigger] objects[k]).path@ by {}
    }
}

/// A snapshot holds exactly what its objects name: each content is the one that the name of the
/// object stands for, of the kind that its mode tells, within the bounds of a file and of the
/// snapshot, and no path occurs twice.
pub proof fn law_snapshots_hold_what_their_objects_name(
    objects: Seq<Object>,
    bytes: Seq<u8>,
    format: Seq<char>,
    limits: ReviewLimits,
    parts: Seq<Part>,
)
    requires
        frozen_from(objects, 0, bytes, 0, 0, format, limits) == Ok::<Seq<Part>, ReviewError>(parts),
    ensures
        parts.len() == objects.len(),
        forall|k: int|
            0 <= k < parts.len() ==> is_frozen(objects[k], #[trigger] parts[k], format)
                && parts[k].data.len() <= limits.max_file_bytes,
        parts_size(parts) <= limits.max_snapshot_bytes,
        forall|j: int, k: int|
            0 <= j < k < objects.len() ==> (#[trigger] objects[j]).path@ != (
            #[trigger] objects[k]).path@,
{
    lemma_frozen_from(objects, 0, bytes, 0, 0, format, limits);
    assert forall|k: int| 0 <= k < parts.len() implies is_frozen(
        objects[k],
        #[trigger] parts[k],
        format,
    ) by {
        assert(objects[0 + k] == objects[k]);
    }
}

} // verus!
