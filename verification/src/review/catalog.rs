//! What a range of a review can be picked from: branches and commits.
use crate::review::git::{
    answer_text, is_oid, named_object, oid_valid, read_object, trim,
};
use crate::review::model::ReviewError;
use crate::split::{
    find_place, lines, lines_of, parts, parts_of, place_of, push_shown, shown, words, words_of,
};
use crate::text::{
    begins_with, byte_len, chars_of, has_prefix, is_blank, blank, same_text, string_of, trimmed,
};
use vstd::prelude::*;
use vstd::utf8::{decode_utf8, encode_utf8, valid_utf8};

verus! {

/// A branch, and where it parted from the head.
#[derive(Debug, PartialEq, Eq)]
pub struct ReviewBranch {
    pub name: String,
    pub revision: String,
    pub merge_base: String,
}

/// A commit.
#[derive(Debug, PartialEq, Eq)]
pub struct ReviewCommit {
    pub revision: String,
    pub parents: Vec<String>,
    pub title: String,
}

/// What a range can be picked from.
#[derive(Debug, PartialEq, Eq)]
pub struct ReviewCatalog {
    pub repository: String,
    pub head: String,
    pub default_branch: ReviewBranch,
    pub branches: Vec<ReviewBranch>,
    pub commits: Vec<ReviewCommit>,
    pub branches_truncated: bool,
    pub commits_truncated: bool,
}

/// A name and the object that it stands for.
#[derive(Debug, PartialEq, Eq)]
pub struct NamedRevision {
    pub name: String,
    pub revision: String,
}

#[verifier::ext_equal]
pub struct NamedModel {
    pub name: Seq<char>,
    pub revision: Seq<char>,
}

/// A line as a name and an object: they stand on both sides of a zero character.
pub open spec fn named_line(line: Seq<char>) -> Option<NamedModel> {
    let at = place_of(line, '\0', 0);
    if at >= line.len() {
        None
    } else {
        Some(
            NamedModel {
                name: line.subrange(0, at),
                revision: line.subrange(at + 1, line.len() as int),
            },
        )
    }
}

fn read_named(line: &str) -> (r: Option<NamedRevision>)
    ensures
        match (r, named_line(line@)) {
            (Some(named), Some(expected)) => named.name@ == expected.name && named.revision@
                == expected.revision,
            (None, None) => true,
            _ => false,
        },
{
    let chars = chars_of(line);
    let at = find_place(&chars, '\0', 0);
    if at >= chars.len() {
        return None;
    }
    Some(
        NamedRevision {
            name: string_of(&chars, 0, at),
            revision: string_of(&chars, at + 1, chars.len()),
        },
    )
}

/// The branch that a line names, if it names one.
pub open spec fn named_branch(line: Seq<char>, format: Seq<char>) -> Option<NamedModel> {
    match named_line(line) {
        Some(named) => if encode_utf8(named.name).len() > 512 || !is_oid(named.revision, format) {
            None
        } else {
            Some(named)
        },
        None => None,
    }
}

/// How many branches are shown.
pub open spec fn shown_branches(count: int) -> int {
    if count > 32 {
        32
    } else {
        count
    }
}

/// Reads the lines of an answer that list branches to be shown, and whether there are more.
pub fn branch_lines(bytes: &[u8]) -> (r: Result<(Vec<String>, bool), ReviewError>)
    ensures
        ({
            let lines = lines_of(decode_utf8(bytes@));
            match r {
                Ok((list, truncated)) => {
                    &&& valid_utf8(bytes@)
                    &&& shown(list@) == lines.subrange(0, shown_branches(lines.len() as int))
                    &&& truncated == (lines.len() > 32)
                },
                Err(error) => error == ReviewError::Protocol && !valid_utf8(bytes@),
            }
        }),
{
    let text = match answer_text(bytes) {
        Err(error) => return Err(error),
        Ok(text) => text,
    };
    let mut list = lines(text.as_str());
    let ghost all = list@;
    assert(shown(all) == lines_of(text@));
    let truncated = list.len() > 32;
    if truncated {
        list.truncate(32);
    }
    assert(shown(list@) =~= shown(all).subrange(0, shown_branches(all.len() as int)));
    Ok((list, truncated))
}

/// Reads the branch that a line names.
pub fn branch_line(line: &str, format: &str) -> (r: Result<NamedRevision, ReviewError>)
    ensures
        match (r, named_branch(line@, format@)) {
            (Ok(named), Some(expected)) => named.name@ == expected.name && named.revision@
                == expected.revision,
            (Err(error), None) => error == ReviewError::Protocol,
            _ => false,
        },
{
    let named = match read_named(line) {
        Some(named) => named,
        None => return Err(ReviewError::Protocol),
    };
    if byte_len(named.name.as_str()) > 512 || !oid_valid(named.revision.as_str(), format) {
        return Err(ReviewError::Protocol);
    }
    Ok(named)
}

/// Whether a failure says that two commits have no history in common: Git then reports
/// nothing.
fn is_unrelated(error: &ReviewError) -> (r: bool)
    ensures
        r == unrelated(*error),
{
    match error {
        ReviewError::Git(message) => message.as_str().is_empty(),
        _ => false,
    }
}

/// Whether a failure says that two commits have no history in common.
pub open spec fn unrelated(error: ReviewError) -> bool {
    error matches ReviewError::Git(message) && message@.len() == 0
}

/// Takes a branch with what Git answered for where it parted from the head. A branch that has
/// no history in common with the head is passed over.
pub fn take_branch(
    branches: &mut Vec<ReviewBranch>,
    branch: NamedRevision,
    answer: Result<Vec<u8>, ReviewError>,
    format: &str,
) -> (r: Result<(), ReviewError>)
    ensures
        match answer {
            Ok(bytes) => match named_object(bytes@, format@) {
                Some(base) => {
                    &&& r is Ok
                    &&& final(branches)@.len() == old(branches)@.len() + 1
                    &&& final(branches)@.drop_last() == old(branches)@
                    &&& final(branches)@.last().name == branch.name
                    &&& final(branches)@.last().revision == branch.revision
                    &&& final(branches)@.last().merge_base@ == base
                },
                None => final(branches)@ == old(branches)@ && r == Err::<(), ReviewError>(
                    ReviewError::Protocol,
                ),
            },
            Err(error) => final(branches)@ == old(branches)@ && r == if unrelated(error) {
                Ok::<(), ReviewError>(())
            } else {
                Err(error)
            },
        },
{
    match answer {
        Ok(bytes) => {
            let merge_base = match read_object(bytes.as_slice(), format) {
                Err(error) => return Err(error),
                Ok(merge_base) => merge_base,
            };
            branches.push(ReviewBranch { name: branch.name, revision: branch.revision, merge_base });
            assert(branches@.drop_last() =~= old(branches)@);
            Ok(())
        },
        Err(error) => if is_unrelated(&error) {
            Ok(())
        } else {
            Err(error)
        },
    }
}

/// The branch that the head is on, if it is on one, from what Git answered.
pub fn current_branch(answer: Result<Vec<u8>, ReviewError>) -> (r: Result<
    Option<String>,
    ReviewError,
>)
    ensures
        match answer {
            Ok(bytes) => match r {
                Ok(Some(name)) => valid_utf8(bytes@) && name@ == trimmed(decode_utf8(bytes@)),
                Ok(None) => false,
                Err(error) => !valid_utf8(bytes@) && error == ReviewError::Protocol,
            },
            Err(error) => r == if unrelated(error) {
                Ok::<Option<String>, ReviewError>(None)
            } else {
                Err(error)
            },
        },
{
    match answer {
        Ok(bytes) => match answer_text(bytes.as_slice()) {
            Ok(text) => Ok(Some(trim(text.as_str()))),
            Err(error) => Err(error),
        },
        Err(error) => if is_unrelated(&error) {
            Ok(None)
        } else {
            Err(error)
        },
    }
}

#[verifier::ext_equal]
pub struct CommitModel {
    pub revision: Seq<char>,
    pub parents: Seq<Seq<char>>,
    pub title: Seq<char>,
}

impl View for ReviewCommit {
    type V = CommitModel;

    open spec fn view(&self) -> CommitModel {
        CommitModel {
            revision: self.revision@,
            parents: shown(self.parents@),
            title: self.title@,
        }
    }
}

/// The first place from an index on that is not a line end, or the end.
pub open spec fn behind_line_ends(text: Seq<char>, from: int) -> int
    decreases text.len() - from,
{
    if 0 <= from < text.len() && text[from] == '\n' {
        behind_line_ends(text, from + 1)
    } else {
        from
    }
}

fn skip_line_ends(text: &str) -> (r: String)
    ensures
        r@ == text@.subrange(behind_line_ends(text@, 0), text@.len() as int),
{
    let chars = chars_of(text);
    let mut i: usize = 0;
    while i < chars.len() && chars[i] == '\n'
        invariant
            i <= chars.len(),
            behind_line_ends(chars@, 0) == behind_line_ends(chars@, i as int),
        decreases chars.len() - i,
    {
        i += 1;
    }
    string_of(&chars, i, chars.len())
}

/// The commit that three fields at a place describe: its object, its parents and its title.
pub open spec fn commit_at(fields: Seq<Seq<char>>, at: int) -> CommitModel {
    CommitModel {
        revision: fields[at].subrange(
            behind_line_ends(fields[at], 0),
            fields[at].len() as int,
        ),
        parents: words_of(fields[at + 1]),
        title: fields[at + 2],
    }
}

/// Whether a commit can be shown.
pub open spec fn commit_valid(commit: CommitModel, format: Seq<char>) -> bool {
    &&& is_oid(commit.revision, format)
    &&& forall|i: int|
        0 <= i < commit.parents.len() ==> is_oid(#[trigger] commit.parents[i], format)
    &&& encode_utf8(commit.title).len() <= 4096
}

/// Whether fields are commits, each of three fields, with nothing behind the last.
pub open spec fn log_valid(fields: Seq<Seq<char>>, format: Seq<char>) -> bool {
    &&& fields.len() % 3 == 1
    &&& blank(fields.last())
    &&& forall|k: int|
        0 <= k < fields.len() / 3 ==> commit_valid(#[trigger] commit_at(fields, 3 * k), format)
}

fn read_commit(fields: &Vec<String>, at: usize, format: &str) -> (r: Option<ReviewCommit>)
    requires
        at + 2 < fields.len(),
    ensures
        match r {
            Some(commit) => commit@ == commit_at(shown(fields@), at as int) && commit_valid(
                commit@,
                format@,
            ),
            None => !commit_valid(commit_at(shown(fields@), at as int), format@),
        },
{
    let ghost all = shown(fields@);
    assert(all[at as int] == fields@[at as int]@);
    assert(all[at + 1] == fields@[at + 1]@);
    assert(all[at + 2] == fields@[at + 2]@);
    let revision = skip_line_ends(fields[at].as_str());
    let parents = words(fields[at + 1].as_str());
    let title = fields[at + 2].clone();
    let commit = ReviewCommit { revision, parents, title };
    assert(commit@ == commit_at(all, at as int));
    if !oid_valid(commit.revision.as_str(), format) || byte_len(commit.title.as_str()) > 4096 {
        return None;
    }
    let mut i: usize = 0;
    while i < commit.parents.len()
        invariant
            i <= commit.parents.len(),
            commit@ == commit_at(all, at as int),
            forall|j: int| 0 <= j < i ==> is_oid(#[trigger] commit@.parents[j], format@),
            all == shown(fields@),
        decreases commit.parents.len() - i,
    {
        assert(commit@.parents[i as int] == commit.parents@[i as int]@);
        if !oid_valid(commit.parents[i].as_str(), format) {
            assert(!is_oid(commit@.parents[i as int], format@));
            return None;
        }
        i += 1;
    }
    Some(commit)
}

/// Reads the commits of a log, the latest ones, and whether there are more.
pub fn log_commits(bytes: &[u8], format: &str) -> (r: Result<(Vec<ReviewCommit>, bool), ReviewError>)
    ensures
        ({
            let fields = parts_of(decode_utf8(bytes@), '\0');
            let count = fields.len() / 3;
            match r {
                Ok((commits, truncated)) => {
                    &&& valid_utf8(bytes@)
                    &&& log_valid(fields, format@)
                    &&& truncated == (count > 64)
                    &&& commits@.len() == if count > 64 {
                        64
                    } else {
                        count
                    }
                    &&& forall|k: int|
                        0 <= k < commits@.len() ==> (#[trigger] commits@[k])@ == commit_at(
                            fields,
                            3 * k,
                        )
                },
                Err(error) => error == ReviewError::Protocol && (!valid_utf8(bytes@) || !log_valid(
                    fields,
                    format@,
                )),
            }
        }),
{
    let text = match answer_text(bytes) {
        Err(error) => return Err(error),
        Ok(text) => text,
    };
    let fields = parts(text.as_str(), '\0');
    let ghost all = parts_of(text@, '\0');
    assert(all == shown(fields@));
    if fields.len() % 3 != 1 {
        return Err(ReviewError::Protocol);
    }
    let last = fields.len() - 1;
    assert(all[last as int] == fields@[last as int]@);
    if !is_blank(fields[last].as_str()) {
        return Err(ReviewError::Protocol);
    }
    let count = fields.len() / 3;
    let mut commits: Vec<ReviewCommit> = Vec::new();
    let mut k: usize = 0;
    while k < count
        invariant
            k <= count,
            count == all.len() / 3,
            all == shown(fields@),
            all.len() % 3 == 1,
            commits@.len() == if k > 64 {
                64
            } else {
                k as int
            },
            forall|j: int|
                0 <= j < k ==> commit_valid(#[trigger] commit_at(all, 3 * j), format@),
            forall|j: int|
                0 <= j < commits@.len() ==> (#[trigger] commits@[j])@ == commit_at(all, 3 * j),
            valid_utf8(bytes@) && all == parts_of(decode_utf8(bytes@), '\0'),
        decreases count - k,
    {
        let commit = match read_commit(&fields, 3 * k, format) {
            Some(commit) => commit,
            None => {
                assert(!commit_valid(commit_at(all, 3 * k), format@));
                return Err(ReviewError::Protocol);
            },
        };
        if k < 64 {
            commits.push(commit);
        }
        k += 1;
    }
    Ok((commits, count > 64))
}

/// What the name of the current branch is without its place.
pub open spec fn short_name(current: Seq<char>) -> Option<Seq<char>> {
    if begins_with(current, "refs/heads/"@) {
        Some(current.subrange("refs/heads/"@.len() as int, current.len() as int))
    } else {
        None
    }
}

/// Whether a text ends with another.
pub open spec fn ends_with(text: Seq<char>, end: Seq<char>) -> bool {
    text.len() >= end.len() && text.subrange(text.len() - end.len(), text.len() as int) == end
}

fn has_suffix(text: &str, end: &str) -> (r: bool)
    ensures
        r == ends_with(text@, end@),
{
    let chars = chars_of(text);
    let tail = chars_of(end);
    if chars.len() < tail.len() {
        return false;
    }
    let part = string_of(&chars, chars.len() - tail.len(), chars.len());
    same_text(part.as_str(), end)
}

fn strip_heads(current: &str) -> (r: Option<String>)
    ensures
        match (r, short_name(current@)) {
            (Some(name), Some(expected)) => name@ == expected,
            (None, None) => true,
            _ => false,
        },
{
    if !has_prefix(current, "refs/heads/") {
        return None;
    }
    let prefix = chars_of("refs/heads/");
    let chars = chars_of(current);
    Some(string_of(&chars, prefix.len(), chars.len()))
}

/// Whether an upstream is another branch than the current one under the name of a remote.
pub open spec fn upstream_differs(
    upstream: Seq<char>,
    current: Seq<char>,
    short: Seq<char>,
) -> bool {
    upstream.len() > 0 && upstream != current && !ends_with(upstream, "/"@ + short)
}

/// The branches that a review may start from, in the order in which they are tried: those
/// that remotes point to, the upstream of the current branch, usual names, and the current
/// branch. The names come from Git.
pub open spec fn candidates_of(
    heads: Seq<Seq<char>>,
    current: Option<Seq<char>>,
    upstream: Seq<char>,
) -> Option<Seq<Seq<char>>> {
    let first = heads.filter(|head: Seq<char>| head.len() > 0);
    let usual = |list: Seq<Seq<char>>|
        list.push("refs/heads/main"@).push("refs/heads/master"@).push("refs/heads/trunk"@).push(
            "refs/heads/develop"@,
        );
    match current {
        None => Some(usual(first)),
        Some(current) => match short_name(current) {
            None => None,
            Some(short) => if upstream_differs(upstream, current, short) {
                Some(usual(first.push(upstream)).push(current))
            } else {
                Some(usual(first).push(current))
            },
        },
    }
}

fn push_usual(list: &mut Vec<String>)
    ensures
        shown(final(list)@) == shown(old(list)@).push("refs/heads/main"@).push(
            "refs/heads/master"@,
        ).push("refs/heads/trunk"@).push("refs/heads/develop"@),
{
    push_shown(list, "refs/heads/main".to_owned());
    push_shown(list, "refs/heads/master".to_owned());
    push_shown(list, "refs/heads/trunk".to_owned());
    push_shown(list, "refs/heads/develop".to_owned());
}

fn nonempty(heads: &Vec<String>) -> (r: Vec<String>)
    ensures
        shown(r@) == shown(heads@).filter(|head: Seq<char>| head.len() > 0),
{
    let ghost all = shown(heads@);
    let mut list: Vec<String> = Vec::new();
    let mut i: usize = 0;
    proof {
        assert(all.subrange(0, 0) =~= Seq::<Seq<char>>::empty());
        reveal(Seq::filter);
        assert(shown(list@) =~= all.subrange(0, 0).filter(|head: Seq<char>| head.len() > 0));
    }
    while i < heads.len()
        invariant
            i <= heads.len(),
            all == shown(heads@),
            shown(list@) == all.subrange(0, i as int).filter(|head: Seq<char>| head.len() > 0),
        decreases heads.len() - i,
    {
        assert(all[i as int] == heads@[i as int]@);
        proof {
            reveal(Seq::filter);
            let taken = all.subrange(0, i + 1);
            assert(taken.drop_last() =~= all.subrange(0, i as int));
            assert(taken.last() == heads@[i as int]@);
        }
        if !heads[i].as_str().is_empty() {
            push_shown(&mut list, heads[i].clone());
        }
        i += 1;
    }
    assert(all.subrange(0, i as int) =~= all);
    list
}

/// The branches that a review may start from, in the order in which they are tried.
pub fn candidates(heads: &Vec<String>, current: Option<String>, upstream: &str) -> (r: Result<
    Vec<String>,
    ReviewError,
>)
    ensures
        match (
            r,
            candidates_of(
                shown(heads@),
                match current {
                    Some(current) => Some(current@),
                    None => None,
                },
                upstream@,
            ),
        ) {
            (Ok(list), Some(expected)) => shown(list@) == expected,
            (Err(error), None) => error == ReviewError::Protocol,
            _ => false,
        },
{
    let mut list = nonempty(heads);
    match current {
        None => {
            push_usual(&mut list);
            Ok(list)
        },
        Some(current) => {
            let short = match strip_heads(current.as_str()) {
                Some(short) => short,
                None => return Err(ReviewError::Protocol),
            };
            let mut tail = "/".to_owned();
            tail.push_str(short.as_str());
            if !upstream.is_empty() && !same_text(upstream, current.as_str()) && !has_suffix(
                upstream,
                tail.as_str(),
            ) {
                push_shown(&mut list, upstream.to_owned());
            }
            push_usual(&mut list);
            push_shown(&mut list, current);
            Ok(list)
        },
    }
}

/// Whether a name can be asked for as a reference.
pub open spec fn is_reference(name: Seq<char>) -> bool {
    &&& encode_utf8(name).len() <= 512
    &&& begins_with(name, "refs/"@)
    &&& forall|i: int|
        0 <= i < name.len() ==> (#[trigger] name[i]) != '\0' && name[i] != '\n' && name[i] != '\r'
}

/// Checks that a name can be asked for as a reference.
pub fn check_reference(name: &str) -> (r: Result<(), ReviewError>)
    ensures
        r == if is_reference(name@) {
            Ok::<(), ReviewError>(())
        } else {
            Err(ReviewError::Protocol)
        },
{
    if byte_len(name) > 512 || !has_prefix(name, "refs/") {
        return Err(ReviewError::Protocol);
    }
    let chars = chars_of(name);
    let mut i: usize = 0;
    while i < chars.len()
        invariant
            i <= chars.len(),
            chars@ == name@,
            forall|j: int|
                0 <= j < i ==> (#[trigger] name@[j]) != '\0' && name@[j] != '\n' && name@[j]
                    != '\r',
        decreases chars.len() - i,
    {
        if chars[i] == '\0' || chars[i] == '\n' || chars[i] == '\r' {
            assert(name@[i as int] == chars@[i as int]);
            return Err(ReviewError::Protocol);
        }
        i += 1;
    }
    Ok(())
}

/// The object that the lines from one on give a name, if they do.
pub open spec fn found_from(lines: Seq<Seq<char>>, i: int, name: Seq<char>, format: Seq<char>) -> Result<
    Option<Seq<char>>,
    ReviewError,
>
    decreases lines.len() - i,
{
    if i < 0 || i >= lines.len() {
        Ok(None)
    } else {
        match named_line(lines[i]) {
            None => Err(ReviewError::Protocol),
            Some(named) => if named.name != name {
                found_from(lines, i + 1, name, format)
            } else if is_oid(named.revision, format) {
                Ok(Some(named.revision))
            } else {
                Err(ReviewError::Protocol)
            },
        }
    }
}

/// Reads the object that an answer gives a name.
pub fn find_branch(bytes: &[u8], name: &str, format: &str) -> (r: Result<Option<String>, ReviewError>)
    ensures
        match r {
            Ok(found) => valid_utf8(bytes@) && found_from(
                lines_of(decode_utf8(bytes@)),
                0,
                name@,
                format@,
            ) == Ok::<Option<Seq<char>>, ReviewError>(
                match found {
                    Some(revision) => Some(revision@),
                    None => None,
                },
            ),
            Err(error) => error == ReviewError::Protocol && (!valid_utf8(bytes@) || found_from(
                lines_of(decode_utf8(bytes@)),
                0,
                name@,
                format@,
            ) is Err),
        },
{
    let text = match answer_text(bytes) {
        Err(error) => return Err(error),
        Ok(text) => text,
    };
    let list = lines(text.as_str());
    let ghost all = lines_of(text@);
    let mut i: usize = 0;
    while i < list.len()
        invariant
            i <= list.len(),
            all == shown(list@),
            found_from(all, 0, name@, format@) == found_from(all, i as int, name@, format@),
            valid_utf8(bytes@) && all == lines_of(decode_utf8(bytes@)),
        decreases list.len() - i,
    {
        assert(all[i as int] == list@[i as int]@);
        let named = match read_named(list[i].as_str()) {
            Some(named) => named,
            None => return Err(ReviewError::Protocol),
        };
        if same_text(named.name.as_str(), name) {
            if !oid_valid(named.revision.as_str(), format) {
                return Err(ReviewError::Protocol);
            }
            return Ok(Some(named.revision));
        }
        i += 1;
    }
    Ok(None)
}

/// The branch that stands for the head itself.
pub fn head_branch(head: &str) -> (r: ReviewBranch)
    ensures
        r.name@ == "HEAD"@,
        r.revision@ == head@,
        r.merge_base@ == head@,
{
    ReviewBranch {
        name: "HEAD".to_owned(),
        revision: head.to_owned(),
        merge_base: head.to_owned(),
    }
}

} // verus!
