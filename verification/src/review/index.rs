//! The index that a frozen tree is written to.
use crate::review::git::{is_oid, oid_valid};
use crate::review::model::{FileKind, FrozenFile, FrozenTree, ReviewError};
use crate::review::objects::{blob_name, verify_object};
use crate::split::shown;
use crate::text::digit_char;
use crate::text_map::Entry;
use vstd::prelude::*;

verus! {

/// A number in octal.
pub open spec fn octal(n: nat) -> Seq<char>
    decreases n,
{
    if n < 8 {
        Seq::empty().push(digit_char(n as int))
    } else {
        octal(n / 8).push(digit_char((n % 8) as int))
    }
}

fn push_octal(text: &mut String, n: u32)
    ensures
        final(text)@ == old(text)@ + octal(n as nat),
    decreases n,
{
    if n >= 8 {
        push_octal(text, n / 8);
    }
    let ghost before = text@;
    text.push(crate::text::digit_of((n % 8) as u64));
    assert(text@ =~= old(text)@ + octal(n as nat));
}

/// Whether the content of a path is hashed by Git.
pub open spec fn is_hashed(file: FrozenFile) -> bool {
    file.kind == FileKind::File || file.kind == FileKind::Symlink
}

/// How many of the first `n` paths have a content that is hashed by Git.
pub open spec fn hashed_count(files: Seq<Entry<FrozenFile>>, n: int) -> int
    decreases n,
{
    if n <= 0 {
        0
    } else {
        hashed_count(files, n - 1) + if is_hashed(files[n - 1].value) {
            1int
        } else {
            0int
        }
    }
}

/// The object of a path, as the index names it, when so many were hashed before: that of a
/// gitlink is its own, and that of a content has to be the one which its name stands for.
pub open spec fn indexed_object(
    file: FrozenFile,
    h: int,
    hashes: Seq<Seq<char>>,
    contents: Seq<Vec<u8>>,
    format: Seq<char>,
) -> Result<Seq<char>, ReviewError> {
    if file.kind == FileKind::Gitlink {
        match file.git_object {
            None => Err(ReviewError::Protocol),
            Some(oid) => if is_oid(oid@, format) {
                Ok(oid@)
            } else {
                Err(ReviewError::Protocol)
            },
        }
    } else if h >= hashes.len() || !is_oid(hashes[h], format) {
        Err(ReviewError::Protocol)
    } else if contents[h]@.len() != file.bytes || blob_name(contents[h]@, format) != hashes[h] {
        Err(ReviewError::Corrupt)
    } else {
        Ok(hashes[h])
    }
}

/// A line of an index: the mode in octal, the object, and the path behind a tab.
pub open spec fn index_line(mode: u32, oid: Seq<char>, path: Seq<char>) -> Seq<char> {
    ""@ + octal(mode as nat) + " "@ + oid + "\t"@ + path + "\0"@
}

/// What an index is told of the paths from one on.
pub open spec fn index_from(
    files: Seq<Entry<FrozenFile>>,
    i: int,
    h: int,
    hashes: Seq<Seq<char>>,
    contents: Seq<Vec<u8>>,
    format: Seq<char>,
) -> Result<Seq<char>, ReviewError>
    decreases files.len() - i,
{
    if i < 0 || i >= files.len() {
        if h < hashes.len() {
            Err(ReviewError::Protocol)
        } else {
            Ok(Seq::empty())
        }
    } else if files[i].value.kind == FileKind::Directory {
        index_from(files, i + 1, h, hashes, contents, format)
    } else {
        match indexed_object(files[i].value, h, hashes, contents, format) {
            Err(error) => Err(error),
            Ok(oid) => {
                let next = if is_hashed(files[i].value) {
                    h + 1
                } else {
                    h
                };
                match index_from(files, i + 1, next, hashes, contents, format) {
                    Err(error) => Err(error),
                    Ok(rest) => Ok(
                        index_line(files[i].value.mode, oid, files[i].key@) + rest,
                    ),
                }
            },
        }
    }
}

/// What a text comes to in front of more.
pub open spec fn text_before_rest(before: Seq<char>, rest: Result<Seq<char>, ReviewError>) -> Result<
    Seq<char>,
    ReviewError,
> {
    match rest {
        Err(error) => Err(error),
        Ok(rest) => Ok(before + rest),
    }
}

fn object_of(
    file: &FrozenFile,
    h: usize,
    hashes: &Vec<String>,
    contents: &Vec<Vec<u8>>,
    format: &str,
) -> (r: Result<String, ReviewError>)
    requires
        is_hashed(*file) ==> h < contents.len(),
        file.kind != FileKind::Directory,
    ensures
        match (r, indexed_object(*file, h as int, shown(hashes@), contents@, format@)) {
            (Ok(oid), Ok(expected)) => oid@ == expected,
            (Err(error), Err(expected)) => error == expected,
            _ => false,
        },
{
    let ghost all = shown(hashes@);
    if file.kind == FileKind::Gitlink {
        return match &file.git_object {
            None => Err(ReviewError::Protocol),
            Some(oid) => if oid_valid(oid.as_str(), format) {
                Ok(oid.clone())
            } else {
                Err(ReviewError::Protocol)
            },
        };
    }
    if h >= hashes.len() {
        return Err(ReviewError::Protocol);
    }
    assert(all[h as int] == hashes@[h as int]@);
    if !oid_valid(hashes[h].as_str(), format) {
        return Err(ReviewError::Protocol);
    }
    if contents[h].len() != file.bytes {
        return Err(ReviewError::Corrupt);
    }
    match verify_object(contents[h].as_slice(), hashes[h].as_str(), format) {
        Err(error) => Err(error),
        Ok(()) => Ok(hashes[h].clone()),
    }
}

proof fn lemma_hashed_grows(files: Seq<Entry<FrozenFile>>, a: int, b: int)
    requires
        0 <= a <= b,
    ensures
        0 <= hashed_count(files, a) <= hashed_count(files, b),
    decreases b,
{
    if a < b {
        lemma_hashed_grows(files, a, b - 1);
    } else if a > 0 {
        lemma_hashed_grows(files, a - 1, b - 1);
    }
}

/// What an index is told of a tree, given the names that Git hashed the contents of its
/// files and links to, and those contents, in the order of the paths.
pub fn index_info(
    tree: &FrozenTree,
    hashes: &Vec<String>,
    contents: &Vec<Vec<u8>>,
    format: &str,
) -> (r: Result<String, ReviewError>)
    requires
        contents@.len() == hashed_count(tree.files@, tree.files@.len() as int),
    ensures
        match (r, index_from(tree.files@, 0, 0, shown(hashes@), contents@, format@)) {
            (Ok(text), Ok(expected)) => text@ == expected,
            (Err(error), Err(expected)) => error == expected,
            _ => false,
        },
{
    let ghost all = shown(hashes@);
    let ghost whole = index_from(tree.files@, 0, 0, all, contents@, format@);
    let mut text = String::new();
    let mut h: usize = 0;
    let mut i: usize = 0;
    proof {
        if whole is Ok {
            assert(text@ + whole->Ok_0 =~= whole->Ok_0);
        }
    }
    while i < tree.files.len()
        invariant
            i <= tree.files@.len(),
            all == shown(hashes@),
            h == hashed_count(tree.files@, i as int),
            contents@.len() == hashed_count(tree.files@, tree.files@.len() as int),
            whole == index_from(tree.files@, 0, 0, all, contents@, format@),
            whole == text_before_rest(
                text@,
                index_from(tree.files@, i as int, h as int, all, contents@, format@),
            ),
        decreases tree.files@.len() - i,
    {
        let file = tree.files.value(i);
        let ghost before = text@;
        proof {
            lemma_hashed_grows(tree.files@, i + 1, tree.files@.len() as int);
        }
        if file.kind != FileKind::Directory {
            let oid = match object_of(file, h, hashes, contents, format) {
                Err(error) => return Err(error),
                Ok(oid) => oid,
            };
            let hashed = file.kind == FileKind::File || file.kind == FileKind::Symlink;
            push_octal(&mut text, file.mode);
            text.push_str(" ");
            text.push_str(oid.as_str());
            text.push_str("\t");
            text.push_str(tree.files.key(i));
            text.push_str("\0");
            let ghost line = index_line(file.mode, oid@, tree.files@[i as int].key@);
            proof {
                reveal_strlit("");
                assert(text@ =~= before + line);
            }
            let bound = contents.len();
            let next: usize = if hashed {
                assert(h < bound);
                h + 1
            } else {
                h
            };
            proof {
                let rest = index_from(
                    tree.files@,
                    i + 1,
                    next as int,
                    all,
                    contents@,
                    format@,
                );
                if rest is Ok {
                    assert(before + (line + rest->Ok_0) =~= text@ + rest->Ok_0);
                }
            }
            h = next;
        }
        i += 1;
    }
    if h < hashes.len() {
        return Err(ReviewError::Protocol);
    }
    assert(text@ + Seq::<char>::empty() =~= text@);
    Ok(text)
}

} // verus!
