//! The objects of a tree: how listings name them, and how their contents are frozen.
use crate::digest::{sha256, sha256_of, Digest};
use crate::review::git::{answer_text, is_oid, oid_valid};
use crate::review::model::{
    safe, safe_path, ReviewError, ReviewLimits, EXECUTABLE_MODE, GITLINK_MODE, LINK_MODE,
    PLAIN_MODE,
};
use crate::split::{lines, lines_of, number_of, parse_number, shown, words, words_of};
use crate::text::{decimal, hex, push_decimal, push_hex, same_text};
use vstd::prelude::*;
use vstd::slice::slice_subrange;
use vstd::utf8::{decode_utf8, encode_utf8, valid_utf8};

verus! {

/// An object that a listing names.
#[derive(Debug, PartialEq, Eq)]
pub struct Object {
    pub path: String,
    pub mode: u32,
    pub oid: String,
}

#[verifier::ext_equal]
pub struct ObjectModel {
    pub path: Seq<char>,
    pub mode: u32,
    pub oid: Seq<char>,
}

impl View for Object {
    type V = ObjectModel;

    open spec fn view(&self) -> ObjectModel {
        ObjectModel { path: self.path@, mode: self.mode, oid: self.oid@ }
    }
}

/// What objects say.
pub open spec fn object_models(objects: Seq<Object>) -> Seq<ObjectModel> {
    objects.map_values(|object: Object| object@)
}

/// Where a listing comes from.
#[derive(Clone, Copy, Debug, PartialEq, Eq, Structural)]
pub enum Listing {
    /// A tree of a commit: mode, type and object.
    Tree,
    /// An index: mode, object and stage.
    Index,
}

/// The first place of a byte at or after an index, or the end.
pub open spec fn byte_at(bytes: Seq<u8>, byte: u8, from: int) -> int
    decreases bytes.len() - from,
{
    if 0 <= from < bytes.len() && bytes[from] != byte {
        byte_at(bytes, byte, from + 1)
    } else {
        from
    }
}

pub(crate) fn find_byte(bytes: &[u8], byte: u8, from: usize) -> (r: usize)
    requires
        from <= bytes@.len(),
    ensures
        r == byte_at(bytes@, byte, from as int),
        from <= r <= bytes@.len(),
{
    let mut i: usize = from;
    while i < bytes.len()
        invariant_except_break
            from <= i <= bytes@.len(),
            byte_at(bytes@, byte, from as int) == byte_at(bytes@, byte, i as int),
        ensures
            i == byte_at(bytes@, byte, from as int),
            from <= i <= bytes@.len(),
        decreases bytes@.len() - i,
    {
        if bytes[i] == byte {
            break;
        }
        i += 1;
    }
    i
}

/// Whether an entry of a tree can be frozen.
pub open spec fn tree_entry_supported(mode: u32, kind: Seq<char>) -> bool {
    ||| (mode == PLAIN_MODE || mode == EXECUTABLE_MODE || mode == LINK_MODE) && kind == "blob"@
    ||| mode == GITLINK_MODE && kind == "commit"@
}

/// The mode that a word spells in octal.
pub open spec fn mode_of(word: Seq<char>) -> Option<u32> {
    match number_of(word, 8) {
        Some(mode) => if mode <= u32::MAX {
            Some(mode as u32)
        } else {
            None
        },
        None => None,
    }
}

fn parse_mode(word: &str) -> (r: Option<u32>)
    ensures
        r == mode_of(word@),
{
    match parse_number(word, 8, u32::MAX as u64) {
        Some(mode) => Some(mode as u32),
        None => None,
    }
}

/// What an entry of a listing says: words, and a path behind a tab.
pub open spec fn entry_of(entry: Seq<u8>, listing: Listing) -> Result<ObjectModel, ReviewError> {
    let tab = byte_at(entry, 9, 0);
    let head = entry.subrange(0, tab);
    let tail = entry.subrange(tab + 1, entry.len() as int);
    if tab >= entry.len() || !valid_utf8(head) {
        Err(ReviewError::Protocol)
    } else {
        let fields = words_of(decode_utf8(head));
        match listing {
            Listing::Tree => if fields.len() != 3 || mode_of(fields[0]) is None || !valid_utf8(
                tail,
            ) {
                Err(ReviewError::Protocol)
            } else if !safe_path(decode_utf8(tail)) {
                Err(ReviewError::Path)
            } else if !tree_entry_supported(mode_of(fields[0])->0, fields[1]) {
                Err(ReviewError::Unsupported("Git tree entry"))
            } else {
                Ok(
                    ObjectModel {
                        path: decode_utf8(tail),
                        mode: mode_of(fields[0])->0,
                        oid: fields[2],
                    },
                )
            },
            Listing::Index => if fields.len() != 3 || fields[2] != "0"@ {
                Err(ReviewError::Unsupported("unmerged index"))
            } else if !valid_utf8(tail) {
                Err(ReviewError::Protocol)
            } else if !safe_path(decode_utf8(tail)) {
                Err(ReviewError::Path)
            } else if mode_of(fields[0]) is None {
                Err(ReviewError::Protocol)
            } else {
                Ok(
                    ObjectModel {
                        path: decode_utf8(tail),
                        mode: mode_of(fields[0])->0,
                        oid: fields[1],
                    },
                )
            },
        }
    }
}

fn read_entry(entry: &[u8], listing: Listing) -> (r: Result<Object, ReviewError>)
    ensures
        match (r, entry_of(entry@, listing)) {
            (Ok(object), Ok(expected)) => object@ == expected,
            (Err(error), Err(expected)) => error == expected,
            _ => false,
        },
{
    let tab = find_byte(entry, 9, 0);
    if tab >= entry.len() {
        return Err(ReviewError::Protocol);
    }
    let head = match answer_text(slice_subrange(entry, 0, tab)) {
        Err(error) => return Err(error),
        Ok(head) => head,
    };
    let fields = words(head.as_str());
    let ghost all = words_of(head@);
    assert(all == shown(fields@));
    let tail = slice_subrange(entry, tab + 1, entry.len());
    match listing {
        Listing::Tree => {
            if fields.len() != 3 {
                return Err(ReviewError::Protocol);
            }
            assert(all[0] == fields@[0]@ && all[1] == fields@[1]@ && all[2] == fields@[2]@);
            let mode: u32 = match parse_mode(fields[0].as_str()) {
                Some(mode) => mode,
                None => return Err(ReviewError::Protocol),
            };
            let path = match answer_text(tail) {
                Err(error) => return Err(error),
                Ok(path) => path,
            };
            if !safe(path.as_str()) {
                return Err(ReviewError::Path);
            }
            let blob = (mode == PLAIN_MODE || mode == EXECUTABLE_MODE || mode == LINK_MODE)
                && same_text(fields[1].as_str(), "blob");
            let link = mode == GITLINK_MODE && same_text(fields[1].as_str(), "commit");
            if !blob && !link {
                return Err(ReviewError::Unsupported("Git tree entry"));
            }
            Ok(Object { path, mode, oid: fields[2].clone() })
        },
        Listing::Index => {
            if fields.len() != 3 {
                return Err(ReviewError::Unsupported("unmerged index"));
            }
            assert(all[0] == fields@[0]@ && all[1] == fields@[1]@ && all[2] == fields@[2]@);
            if !same_text(fields[2].as_str(), "0") {
                return Err(ReviewError::Unsupported("unmerged index"));
            }
            let path = match answer_text(tail) {
                Err(error) => return Err(error),
                Ok(path) => path,
            };
            if !safe(path.as_str()) {
                return Err(ReviewError::Path);
            }
            match parse_mode(fields[0].as_str()) {
                Some(mode) => Ok(Object { path, mode, oid: fields[1].clone() }),
                None => Err(ReviewError::Protocol),
            }
        },
    }
}

/// What the entries of a listing from an index on say, when so many came before: an entry
/// ends at a zero byte.
pub open spec fn entries_from(
    bytes: Seq<u8>,
    listing: Listing,
    from: int,
    count: int,
    max: int,
) -> Result<Seq<ObjectModel>, ReviewError>
    decreases bytes.len() - from,
{
    let end = byte_at(bytes, 0, from);
    if from < 0 || from >= bytes.len() || end < from || end > bytes.len() {
        Ok(Seq::empty())
    } else if end == from {
        entries_from(bytes, listing, from + 1, count, max)
    } else {
        match entry_of(bytes.subrange(from, end), listing) {
            Err(error) => Err(error),
            Ok(object) => if count + 1 > max {
                Err(ReviewError::Limit("file count"))
            } else {
                match entries_from(bytes, listing, end, count + 1, max) {
                    Err(error) => Err(error),
                    Ok(rest) => Ok(Seq::empty().push(object) + rest),
                }
            },
        }
    }
}

/// The paths of a listing from an index on: a path ends at a zero byte, and none is empty.
pub open spec fn paths_from(bytes: Seq<u8>, from: int) -> Seq<Seq<u8>>
    decreases bytes.len() - from,
{
    let end = byte_at(bytes, 0, from);
    if from < 0 || from >= bytes.len() || end < from || end > bytes.len() {
        Seq::empty()
    } else if end == from {
        paths_from(bytes, from + 1)
    } else {
        Seq::empty().push(bytes.subrange(from, end)) + paths_from(bytes, end)
    }
}

/// What lists of bytes hold.
pub open spec fn byte_lists(list: Seq<Vec<u8>>) -> Seq<Seq<u8>> {
    Seq::new(list.len(), |i: int| list[i]@)
}

/// The paths of a listing, in its order.
pub fn list_paths(bytes: &[u8]) -> (r: Vec<Vec<u8>>)
    ensures
        byte_lists(r@) == paths_from(bytes@, 0),
{
    let ghost whole = paths_from(bytes@, 0);
    let mut paths: Vec<Vec<u8>> = Vec::new();
    let mut at: usize = 0;
    assert(byte_lists(paths@) + whole =~= whole);
    while at < bytes.len()
        invariant
            at <= bytes@.len(),
            whole == paths_from(bytes@, 0),
            whole == byte_lists(paths@) + paths_from(bytes@, at as int),
        decreases bytes@.len() - at,
    {
        let end = find_byte(bytes, 0, at);
        if end == at {
            at = at + 1;
        } else {
            let mut path: Vec<u8> = Vec::new();
            path.extend_from_slice(slice_subrange(bytes, at, end));
            let ghost before = byte_lists(paths@);
            let ghost rest = paths_from(bytes@, end as int);
            let ghost one = bytes@.subrange(at as int, end as int);
            assert(path@ =~= one);
            paths.push(path);
            assert(byte_lists(paths@) =~= before.push(one));
            assert(before + (Seq::empty().push(one) + rest) =~= before.push(one) + rest);
            at = end;
        }
    }
    assert(byte_lists(paths@) + Seq::<Seq<u8>>::empty() =~= byte_lists(paths@));
    paths
}

/// What a result comes to behind what came before it.
pub open spec fn behind(
    before: Seq<ObjectModel>,
    rest: Result<Seq<ObjectModel>, ReviewError>,
) -> Result<Seq<ObjectModel>, ReviewError> {
    match rest {
        Err(error) => Err(error),
        Ok(rest) => Ok(before + rest),
    }
}

/// Reads a listing.
pub fn list_objects(bytes: &[u8], listing: Listing, limits: &ReviewLimits) -> (r: Result<
    Vec<Object>,
    ReviewError,
>)
    ensures
        match (r, entries_from(bytes@, listing, 0, 0, limits.max_files as int)) {
            (Ok(objects), Ok(expected)) => object_models(objects@) == expected,
            (Err(error), Err(expected)) => error == expected,
            _ => false,
        },
{
    let ghost max = limits.max_files as int;
    let ghost whole = entries_from(bytes@, listing, 0, 0, max);
    let mut objects: Vec<Object> = Vec::new();
    let mut at: usize = 0;
    proof {
        if whole is Ok {
            assert(object_models(objects@) + whole->Ok_0 =~= whole->Ok_0);
        }
    }
    while at < bytes.len()
        invariant
            at <= bytes@.len(),
            max == limits.max_files,
            whole == entries_from(bytes@, listing, 0, 0, max),
            whole == behind(
                object_models(objects@),
                entries_from(bytes@, listing, at as int, objects@.len() as int, max),
            ),
        decreases bytes@.len() - at,
    {
        let end = find_byte(bytes, 0, at);
        if end == at {
            at = at + 1;
        } else {
            let object = match read_entry(slice_subrange(bytes, at, end), listing) {
                Err(error) => return Err(error),
                Ok(object) => object,
            };
            if objects.len() >= limits.max_files {
                return Err(ReviewError::Limit("file count"));
            }
            let ghost before = object_models(objects@);
            let ghost rest = entries_from(bytes@, listing, end as int, objects@.len() as int + 1, max);
            let ghost one = object@;
            objects.push(object);
            proof {
                assert(object_models(objects@) =~= before.push(one));
                if rest is Ok {
                    assert(before + (Seq::empty().push(one) + rest->Ok_0) =~= before.push(one)
                        + rest->Ok_0);
                }
            }
            at = end;
        }
    }
    proof {
        assert(object_models(objects@) + Seq::<ObjectModel>::empty() =~= object_models(objects@));
    }
    Ok(objects)
}

/// The objects of a tree of a commit.
pub fn tree_objects(bytes: &[u8], limits: &ReviewLimits) -> (r: Result<Vec<Object>, ReviewError>)
    ensures
        match (r, entries_from(bytes@, Listing::Tree, 0, 0, limits.max_files as int)) {
            (Ok(objects), Ok(expected)) => object_models(objects@) == expected,
            (Err(error), Err(expected)) => error == expected,
            _ => false,
        },
{
    list_objects(bytes, Listing::Tree, limits)
}

/// The names of the first `n` objects whose contents are asked for, one on each line.
pub open spec fn asked_names(objects: Seq<Object>, n: int) -> Seq<char>
    decreases n,
{
    if n <= 0 {
        ""@
    } else if objects[n - 1].mode == GITLINK_MODE {
        asked_names(objects, n - 1)
    } else {
        asked_names(objects, n - 1) + objects[n - 1].oid@ + "\n"@
    }
}

/// Whether every object has a name of a format.
pub open spec fn all_named(objects: Seq<Object>, format: Seq<char>) -> bool {
    forall|i: int| 0 <= i < objects.len() ==> is_oid((#[trigger] objects[i]).oid@, format)
}

/// What to ask for the contents of objects.
pub fn batch_input(objects: &Vec<Object>, format: &str) -> (r: Result<String, ReviewError>)
    ensures
        match r {
            Ok(input) => all_named(objects@, format@) && input@ == asked_names(
                objects@,
                objects@.len() as int,
            ),
            Err(error) => !all_named(objects@, format@) && error == ReviewError::Protocol,
        },
{
    let mut input = "".to_owned();
    let mut i: usize = 0;
    while i < objects.len()
        invariant
            i <= objects.len(),
            input@ == asked_names(objects@, i as int),
            forall|j: int| 0 <= j < i ==> is_oid((#[trigger] objects@[j]).oid@, format@),
        decreases objects.len() - i,
    {
        if !oid_valid(objects[i].oid.as_str(), format) {
            assert(!is_oid(objects@[i as int].oid@, format@));
            return Err(ReviewError::Protocol);
        }
        if objects[i].mode != GITLINK_MODE {
            input.push_str(objects[i].oid.as_str());
            input.push_str("\n");
        }
        i += 1;
    }
    Ok(input)
}

/// The size that the line of an object notes.
pub open spec fn noted_size(line: Seq<char>) -> Option<int> {
    let fields = words_of(line);
    if fields.len() == 3 && fields[1] == "blob"@ {
        match number_of(fields[2], 10) {
            Some(size) => if size <= usize::MAX {
                Some(size)
            } else {
                None
            },
            None => None,
        }
    } else {
        None
    }
}

fn read_size(line: &str) -> (r: Option<usize>)
    ensures
        match r {
            Some(size) => noted_size(line@) == Some(size as int),
            None => noted_size(line@) is None,
        },
{
    let fields = words(line);
    let ghost all = words_of(line@);
    assert(all == shown(fields@));
    if fields.len() != 3 {
        return None;
    }
    assert(all[1] == fields@[1]@ && all[2] == fields@[2]@);
    if !same_text(fields[1].as_str(), "blob") {
        return None;
    }
    match parse_number(fields[2].as_str(), 10, usize::MAX as u64) {
        Some(size) => Some(size as usize),
        None => None,
    }
}

/// What the sizes of lines from one on come to, when so many bytes came before.
pub open spec fn sizes_outcome(
    lines: Seq<Seq<char>>,
    i: int,
    total: int,
    limits: ReviewLimits,
) -> Result<(), ReviewError>
    decreases lines.len() - i,
{
    if i < 0 || i >= lines.len() {
        Ok(())
    } else {
        match noted_size(lines[i]) {
            None => Err(ReviewError::Protocol),
            Some(size) => if size > limits.max_file_bytes {
                Err(ReviewError::Limit("file bytes"))
            } else if total + size > limits.max_snapshot_bytes {
                Err(ReviewError::Limit("snapshot bytes"))
            } else {
                sizes_outcome(lines, i + 1, total + size, limits)
            },
        }
    }
}

/// Checks the sizes of objects before their contents are asked for.
pub fn check_sizes(bytes: &[u8], limits: &ReviewLimits) -> (r: Result<(), ReviewError>)
    ensures
        r == if valid_utf8(bytes@) {
            sizes_outcome(lines_of(decode_utf8(bytes@)), 0, 0, *limits)
        } else {
            Err(ReviewError::Protocol)
        },
{
    let text = match answer_text(bytes) {
        Err(error) => return Err(error),
        Ok(text) => text,
    };
    let list = lines(text.as_str());
    let ghost all = lines_of(text@);
    let mut total: usize = 0;
    let mut i: usize = 0;
    while i < list.len()
        invariant
            i <= list.len(),
            all == shown(list@),
            total <= limits.max_snapshot_bytes,
            sizes_outcome(all, 0, 0, *limits) == sizes_outcome(
                all,
                i as int,
                total as int,
                *limits,
            ),
            valid_utf8(bytes@) && all == lines_of(decode_utf8(bytes@)),
        decreases list.len() - i,
    {
        assert(all[i as int] == list@[i as int]@);
        let size: usize = match read_size(list[i].as_str()) {
            Some(size) => size,
            None => return Err(ReviewError::Protocol),
        };
        if size > limits.max_file_bytes {
            return Err(ReviewError::Limit("file bytes"));
        }
        if size > limits.max_snapshot_bytes - total {
            return Err(ReviewError::Limit("snapshot bytes"));
        }
        total = total + size;
        i += 1;
    }
    Ok(())
}

/// The SHA-1 hash of bytes.
pub uninterp spec fn sha1_of(bytes: Seq<u8>) -> Seq<u8>;

/// `sha1::Sha1::digest` is a function of the bytes alone, and has twenty bytes.
#[verifier::external_body]
fn sha1(bytes: &[u8]) -> (hash: [u8; 20])
    ensures
        hash@ == sha1_of(bytes@),
{
    <sha1::Sha1 as sha1::Digest>::digest(bytes).into()
}

/// The bytes that the name of a blob is the hash of.
pub open spec fn blob_bytes(content: Seq<u8>) -> Seq<u8> {
    encode_utf8("blob "@ + decimal(content.len()) + "\0"@) + content
}

/// Bytes in lower-case hexadecimal.
pub open spec fn hex_of(bytes: Seq<u8>) -> Seq<char>
    decreases bytes.len(),
{
    if bytes.len() == 0 {
        ""@
    } else {
        hex_of(bytes.drop_last()) + hex(bytes.last() as nat, 2)
    }
}

fn hex_text(bytes: &[u8]) -> (r: String)
    ensures
        r@ == hex_of(bytes@),
{
    let mut text = "".to_owned();
    let mut i: usize = 0;
    assert(bytes@.subrange(0, 0) =~= Seq::<u8>::empty());
    while i < bytes.len()
        invariant
            i <= bytes@.len(),
            text@ == hex_of(bytes@.subrange(0, i as int)),
        decreases bytes@.len() - i,
    {
        let ghost taken = bytes@.subrange(0, i + 1);
        assert(taken.drop_last() =~= bytes@.subrange(0, i as int));
        push_hex(&mut text, bytes[i] as u64, 2);
        i += 1;
    }
    assert(bytes@.subrange(0, i as int) =~= bytes@);
    text
}

/// The name of the blob with a content.
pub open spec fn blob_name(content: Seq<u8>, format: Seq<char>) -> Seq<char> {
    if format == "sha256"@ {
        hex_of(sha256_of(blob_bytes(content)))
    } else {
        hex_of(sha1_of(blob_bytes(content)))
    }
}

fn hashed_bytes(content: &[u8]) -> (r: Vec<u8>)
    ensures
        r@ == blob_bytes(content@),
{
    let mut header = "blob ".to_owned();
    push_decimal(&mut header, content.len() as u64);
    header.push_str("\0");
    let bytes = header.as_str().as_bytes();
    let mut all: Vec<u8> = Vec::new();
    let mut i: usize = 0;
    while i < bytes.len()
        invariant
            i <= bytes@.len(),
            all@ == bytes@.subrange(0, i as int),
        decreases bytes@.len() - i,
    {
        all.push(bytes[i]);
        assert(all@ =~= bytes@.subrange(0, i + 1));
        i += 1;
    }
    let ghost head = encode_utf8(header@);
    assert(all@ =~= head);
    let mut j: usize = 0;
    assert(content@.subrange(0, 0) =~= Seq::<u8>::empty());
    assert(all@ =~= head + content@.subrange(0, 0));
    while j < content.len()
        invariant
            j <= content@.len(),
            all@ == head + content@.subrange(0, j as int),
        decreases content@.len() - j,
    {
        all.push(content[j]);
        assert(all@ =~= head + content@.subrange(0, j + 1));
        j += 1;
    }
    assert(content@.subrange(0, j as int) =~= content@);
    all
}

/// Checks that a content is the one that a name stands for.
pub fn verify_object(content: &[u8], oid: &str, format: &str) -> (r: Result<(), ReviewError>)
    ensures
        r == if blob_name(content@, format@) == oid@ {
            Ok::<(), ReviewError>(())
        } else {
            Err(ReviewError::Corrupt)
        },
{
    let all = hashed_bytes(content);
    let name = if same_text(format, "sha256") {
        let hash = sha256(all.as_slice());
        hex_text(hash.as_slice())
    } else {
        let hash = sha1(all.as_slice());
        hex_text(hash.as_slice())
    };
    if same_text(name.as_str(), oid) {
        Ok(())
    } else {
        Err(ReviewError::Corrupt)
    }
}

} // verus!
