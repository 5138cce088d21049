//! What is asked of Git, and how its answers read.
use crate::review::model::ReviewError;
use crate::split::{digit_in, parse_number, parts, push_shown, shown, spelled, words, words_of};
use crate::text::{
    byte_len, chars_of, is_digit, occurs, read_utf8, same_text, string_of, trim_chars, trimmed,
    find_chars,
};
use vstd::prelude::*;
use vstd::utf8::{decode_utf8, encode_utf8, valid_utf8};

verus! {

/// A digit of an object name: lower-case hexadecimal.
pub open spec fn oid_char(c: char) -> bool {
    '0' <= c <= '9' || 'a' <= c <= 'f'
}

/// Whether a text names an object of a format.
pub open spec fn is_oid(oid: Seq<char>, format: Seq<char>) -> bool {
    &&& oid.len() == if format == "sha256"@ {
        64int
    } else {
        40int
    }
    &&& forall|i: int| 0 <= i < oid.len() ==> oid_char(#[trigger] oid[i])
}

/// Whether a text names an object of a format.
pub fn oid_valid(oid: &str, format: &str) -> (r: bool)
    ensures
        r == is_oid(oid@, format@),
{
    let chars = chars_of(oid);
    let len: usize = if same_text(format, "sha256") {
        64
    } else {
        40
    };
    if chars.len() != len {
        return false;
    }
    let mut i: usize = 0;
    while i < chars.len()
        invariant
            i <= chars.len(),
            chars@ == oid@,
            forall|j: int| 0 <= j < i ==> oid_char(#[trigger] oid@[j]),
        decreases chars.len() - i,
    {
        let c = chars[i];
        if !('0' <= c && c <= '9') && !('a' <= c && c <= 'f') {
            assert(!oid_char(oid@[i as int]));
            return false;
        }
        i += 1;
    }
    true
}

/// A byte as a quoted path spells it.
pub open spec fn quoted_byte(byte: u8) -> Seq<u8> {
    if byte == 34 || byte == 92 {
        Seq::empty().push(92u8).push(byte)
    } else if 32 <= byte <= 126 {
        Seq::empty().push(byte)
    } else {
        Seq::empty().push(92u8).push((48 + byte / 64) as u8).push(
            (48 + (byte / 8) % 8) as u8,
        ).push((48 + byte % 8) as u8)
    }
}

/// The bytes of a path as they are quoted, without the quotation marks.
pub open spec fn quoted_bytes(bytes: Seq<u8>) -> Seq<u8>
    decreases bytes.len(),
{
    if bytes.len() == 0 {
        Seq::empty()
    } else {
        quoted_bytes(bytes.drop_last()) + quoted_byte(bytes.last())
    }
}

/// Quotes a path: between quotation marks, with a backslash before marks and backslashes,
/// and other bytes than printable ASCII in octal.
pub fn quote(bytes: &[u8]) -> (r: Vec<u8>)
    ensures
        r@ == Seq::empty().push(34u8) + quoted_bytes(bytes@) + Seq::empty().push(34u8),
{
    let mut out: Vec<u8> = Vec::new();
    out.push(34);
    let ghost open = Seq::empty().push(34u8);
    let mut i: usize = 0;
    assert(bytes@.subrange(0, 0) =~= Seq::<u8>::empty());
    assert(out@ =~= open + quoted_bytes(bytes@.subrange(0, 0)));
    while i < bytes.len()
        invariant
            i <= bytes.len(),
            open == Seq::empty().push(34u8),
            out@ == open + quoted_bytes(bytes@.subrange(0, i as int)),
        decreases bytes.len() - i,
    {
        let byte = bytes[i];
        let ghost taken = bytes@.subrange(0, i + 1);
        let ghost before = out@;
        assert(taken.drop_last() =~= bytes@.subrange(0, i as int));
        if byte == 34 || byte == 92 {
            out.push(92);
            out.push(byte);
        } else if 32 <= byte && byte <= 126 {
            out.push(byte);
        } else {
            out.push(92);
            out.push(48 + byte / 64);
            out.push(48 + (byte / 8) % 8);
            out.push(48 + byte % 8);
        }
        assert(out@ =~= before + quoted_byte(byte));
        assert(out@ =~= open + quoted_bytes(taken));
        i += 1;
    }
    assert(bytes@.subrange(0, i as int) =~= bytes@);
    out.push(34);
    assert(out@ =~= open + quoted_bytes(bytes@) + open);
    out
}

/// A character of the name of a revision.
pub open spec fn name_char(c: char) -> bool {
    '0' <= c <= '9' || 'a' <= c <= 'z' || 'A' <= c <= 'Z' || c == '.' || c == '_' || c == '/' || c
        == '-'
}

/// The place at which the suffix of a revision starts.
pub open spec fn suffix_at(value: Seq<char>, from: int) -> int
    decreases value.len() - from,
{
    if 0 <= from < value.len() && value[from] != '^' && value[from] != '~' {
        suffix_at(value, from + 1)
    } else {
        from
    }
}

/// How many digits stand from a place on.
pub open spec fn digit_run(text: Seq<char>, from: int) -> int
    decreases text.len() - from,
{
    if 0 <= from < text.len() && is_digit(text[from]) {
        digit_run(text, from + 1) + 1
    } else {
        0
    }
}

/// Whether a suffix leads from a revision to an ancestor: marks, each with a bounded number
/// or none.
pub open spec fn suffix_valid(suffix: Seq<char>, from: int) -> bool
    decreases suffix.len() - from,
{
    if from < 0 || from >= suffix.len() {
        true
    } else {
        let n = digit_run(suffix, from + 1);
        &&& suffix[from] == '^' || suffix[from] == '~'
        &&& 0 <= n <= 6
        &&& from + 1 + n <= suffix.len()
        &&& n > 0 ==> spelled(suffix.subrange(from + 1, from + 1 + n), 10) is Some && spelled(
            suffix.subrange(from + 1, from + 1 + n),
            10,
        )->0 <= 100000
        &&& suffix_valid(suffix, from + 1 + n)
    }
}

/// Whether a name can be asked for.
pub open spec fn name_valid(name: Seq<char>) -> bool {
    &&& name.len() > 0
    &&& !occurs(name, ".."@)
    &&& forall|i: int| 0 <= i < name.len() ==> name_char(#[trigger] name[i])
}

/// The name and the suffix of a revision, if it can be asked for.
pub open spec fn revision_of(value: Seq<char>) -> Option<(Seq<char>, Seq<char>)> {
    let at = suffix_at(value, 0);
    let name = value.subrange(0, at);
    let suffix = value.subrange(at, value.len() as int);
    if value.len() == 0 || encode_utf8(value).len() > 512 || value[0] == '-' || !name_valid(name)
        || !suffix_valid(suffix, 0) {
        None
    } else {
        Some((name, suffix))
    }
}

proof fn lemma_digit_run(text: Seq<char>, from: int, n: int)
    requires
        0 <= from,
        0 <= n,
        from + n <= text.len(),
        forall|i: int| from <= i < from + n ==> is_digit(#[trigger] text[i]),
    ensures
        digit_run(text, from) == n + digit_run(text, from + n),
    decreases n,
{
    if n > 0 {
        assert(is_digit(text[from]));
        lemma_digit_run(text, from + 1, n - 1);
    }
}

fn count_digits(text: &Vec<char>, from: usize) -> (r: usize)
    requires
        from <= text.len(),
    ensures
        r == digit_run(text@, from as int),
        from + r <= text.len(),
        forall|i: int| from <= i < from + r ==> is_digit(#[trigger] text@[i]),
{
    let mut i: usize = from;
    while i < text.len() && '0' <= text[i] && text[i] <= '9'
        invariant
            from <= i <= text.len(),
            forall|j: int| from <= j < i ==> is_digit(#[trigger] text@[j]),
        decreases text.len() - i,
    {
        i += 1;
    }
    proof {
        lemma_digit_run(text@, from as int, i - from);
    }
    i - from
}

proof fn lemma_no_sign(digits: Seq<char>)
    requires
        digits.len() > 0,
        forall|i: int| 0 <= i < digits.len() ==> is_digit(#[trigger] digits[i]),
    ensures
        digits[0] != '+',
        crate::split::number_of(digits, 10) == spelled(digits, 10),
        spelled(digits, 10) is Some,
    decreases digits.len(),
{
    assert(is_digit(digits[0]));
    if digits.len() > 1 {
        assert forall|i: int| 0 <= i < digits.drop_last().len() implies is_digit(
            #[trigger] digits.drop_last()[i],
        ) by {
            assert(is_digit(digits[i]));
        }
        lemma_no_sign(digits.drop_last());
    } else {
        assert(digits.drop_last() =~= Seq::<char>::empty());
        assert(spelled(Seq::<char>::empty(), 10) == Some(0int));
    }
    assert(is_digit(digits.last()));
    assert(digit_in(digits.last(), 10) is Some);
}

fn check_suffix(suffix: &Vec<char>) -> (r: bool)
    ensures
        r == suffix_valid(suffix@, 0),
{
    let mut at: usize = 0;
    while at < suffix.len()
        invariant
            at <= suffix.len(),
            suffix_valid(suffix@, 0) == suffix_valid(suffix@, at as int),
        decreases suffix.len() - at,
    {
        if suffix[at] != '^' && suffix[at] != '~' {
            return false;
        }
        let n = count_digits(suffix, at + 1);
        if n > 6 {
            return false;
        }
        if n > 0 {
            let digits = string_of(suffix, at + 1, at + 1 + n);
            proof {
                let s = suffix@.subrange(at + 1, at + 1 + n);
                assert forall|i: int| 0 <= i < s.len() implies is_digit(#[trigger] s[i]) by {
                    assert(is_digit(suffix@[at + 1 + i]));
                }
                lemma_no_sign(s);
            }
            if parse_number(digits.as_str(), 10, 100000).is_none() {
                return false;
            }
        }
        at = at + 1 + n;
    }
    true
}

fn check_name(name: &Vec<char>) -> (r: bool)
    ensures
        r == name_valid(name@),
{
    if name.len() == 0 {
        return false;
    }
    let dots = chars_of("..");
    if find_chars(name, &dots, 0).is_some() {
        return false;
    }
    let mut i: usize = 0;
    while i < name.len()
        invariant
            i <= name.len(),
            forall|j: int| 0 <= j < i ==> name_char(#[trigger] name@[j]),
        decreases name.len() - i,
    {
        let c = name[i];
        if !('0' <= c && c <= '9') && !('a' <= c && c <= 'z') && !('A' <= c && c <= 'Z') && c != '.'
            && c != '_' && c != '/' && c != '-' {
            assert(!name_char(name@[i as int]));
            return false;
        }
        i += 1;
    }
    true
}

/// The name and the suffix of a revision.
pub fn revision_parts(value: &str) -> (r: Result<(String, String), ReviewError>)
    ensures
        match r {
            Ok((name, suffix)) => revision_of(value@) == Some((name@, suffix@)),
            Err(error) => revision_of(value@) is None && error == ReviewError::Range,
        },
{
    let chars = chars_of(value);
    if chars.len() == 0 || byte_len(value) > 512 || chars[0] == '-' {
        return Err(ReviewError::Range);
    }
    let mut at: usize = 0;
    while at < chars.len() && chars[at] != '^' && chars[at] != '~'
        invariant
            at <= chars.len(),
            suffix_at(chars@, 0) == suffix_at(chars@, at as int),
        decreases chars.len() - at,
    {
        at += 1;
    }
    let name = crate::text::chars_between(&chars, 0, at);
    let suffix = crate::text::chars_between(&chars, at, chars.len());
    if !check_name(&name) || !check_suffix(&suffix) {
        return Err(ReviewError::Range);
    }
    Ok((string_of(&chars, 0, at), string_of(&chars, at, chars.len())))
}

/// The text that an answer holds.
pub fn answer_text(bytes: &[u8]) -> (r: Result<String, ReviewError>)
    ensures
        match r {
            Ok(text) => valid_utf8(bytes@) && text@ == decode_utf8(bytes@),
            Err(error) => !valid_utf8(bytes@) && error == ReviewError::Protocol,
        },
{
    match read_utf8(bytes) {
        Some(text) => Ok(text),
        None => Err(ReviewError::Protocol),
    }
}

/// A text without the white space around it.
pub fn trim(text: &str) -> (r: String)
    ensures
        r@ == trimmed(text@),
{
    let chars = chars_of(text);
    let inner = trim_chars(&chars);
    string_of(&inner, 0, inner.len())
}

/// The object that an answer names.
pub open spec fn named_object(bytes: Seq<u8>, format: Seq<char>) -> Option<Seq<char>> {
    if valid_utf8(bytes) && is_oid(trimmed(decode_utf8(bytes)), format) {
        Some(trimmed(decode_utf8(bytes)))
    } else {
        None
    }
}

/// Reads the object that an answer names.
pub fn read_object(bytes: &[u8], format: &str) -> (r: Result<String, ReviewError>)
    ensures
        match r {
            Ok(oid) => named_object(bytes@, format@) == Some(oid@),
            Err(error) => named_object(bytes@, format@) is None && error == ReviewError::Protocol,
        },
{
    let text = match answer_text(bytes) {
        Err(error) => return Err(error),
        Ok(text) => text,
    };
    let oid = trim(text.as_str());
    if !oid_valid(oid.as_str(), format) {
        return Err(ReviewError::Protocol);
    }
    Ok(oid)
}

/// What to ask for, so that an object with a suffix leads to a commit.
pub fn commit_expression(oid: &str, suffix: &str) -> (r: String)
    ensures
        r@ == ""@ + oid@ + suffix@ + "^{commit}"@,
{
    let mut text = "".to_owned();
    text.push_str(oid);
    text.push_str(suffix);
    text.push_str("^{commit}");
    text
}

/// The first parent of a commit, as an answer lists them after the commit itself.
pub open spec fn parent_of(bytes: Seq<u8>, revision: Seq<char>) -> Result<
    Option<Seq<char>>,
    ReviewError,
> {
    if !valid_utf8(bytes) {
        Err(ReviewError::Protocol)
    } else {
        let parts = words_of(decode_utf8(bytes));
        if parts.len() == 0 || parts[0] != revision {
            Err(ReviewError::Protocol)
        } else if parts.len() > 1 {
            Ok(Some(parts[1]))
        } else {
            Ok(None)
        }
    }
}

/// Reads the first parent of a commit.
pub fn commit_parent(bytes: &[u8], revision: &str) -> (r: Result<Option<String>, ReviewError>)
    ensures
        match (r, parent_of(bytes@, revision@)) {
            (Ok(Some(parent)), Ok(Some(expected))) => parent@ == expected,
            (Ok(None), Ok(None)) => true,
            (Err(error), Err(expected)) => error == expected,
            _ => false,
        },
{
    let text = match answer_text(bytes) {
        Err(error) => return Err(error),
        Ok(text) => text,
    };
    let parts = words(text.as_str());
    let ghost all = words_of(text@);
    assert(all == shown(parts@));
    if parts.len() == 0 {
        return Err(ReviewError::Protocol);
    }
    assert(all[0] == parts@[0]@);
    if !same_text(parts[0].as_str(), revision) {
        return Err(ReviewError::Protocol);
    }
    if parts.len() > 1 {
        assert(all[1] == parts@[1]@);
        Ok(Some(parts[1].clone()))
    } else {
        Ok(None)
    }
}

/// Why a command of Git failed: by the rules of a review, or because the system did.
#[derive(Debug, PartialEq, Eq)]
pub enum CommandFailure<E> {
    Review(ReviewError),
    System(E),
}

/// How a command of Git ended.
#[derive(Debug)]
pub struct CommandEnd<E> {
    /// Whether every process of the command is known to have ended.
    pub quiet: bool,
    /// Why the command was stopped, if it was.
    pub stopped: Option<CommandFailure<E>>,
    /// What the command wrote, if that could be read within its bound.
    pub output: Result<Vec<u8>, CommandFailure<E>>,
    /// What the command reported, if that could be read within its bound.
    pub report: Result<String, CommandFailure<E>>,
    /// Whether the command reported success.
    pub success: bool,
}

/// What a command comes to: nothing is taken from one whose processes may still run.
pub open spec fn command_outcome<E>(end: CommandEnd<E>) -> Result<Seq<u8>, CommandFailure<E>> {
    if !end.quiet {
        Err(CommandFailure::Review(ReviewError::Unknown))
    } else if end.stopped is Some {
        Err(end.stopped->0)
    } else if end.output is Err {
        Err(end.output->Err_0)
    } else if end.report is Err {
        Err(end.report->Err_0)
    } else if !end.success {
        Err(CommandFailure::Review(ReviewError::Git(end.report->Ok_0)))
    } else {
        Ok(end.output->Ok_0@)
    }
}

/// What a command comes to.
pub fn finish_command<E>(end: CommandEnd<E>) -> (r: Result<Vec<u8>, CommandFailure<E>>)
    ensures
        match (r, command_outcome(end)) {
            (Ok(output), Ok(expected)) => output@ == expected,
            (Err(error), Err(expected)) => error == expected,
            _ => false,
        },
{
    if !end.quiet {
        return Err(CommandFailure::Review(ReviewError::Unknown));
    }
    match end.stopped {
        Some(error) => return Err(error),
        None => {},
    }
    let output = match end.output {
        Err(error) => return Err(error),
        Ok(output) => output,
    };
    let report = match end.report {
        Err(error) => return Err(error),
        Ok(report) => report,
    };
    if !end.success {
        return Err(CommandFailure::Review(ReviewError::Git(report)));
    }
    Ok(output)
}

/// Takes more of what a command writes, unless it passes its bound.
pub fn take_output(output: &mut Vec<u8>, more: Vec<u8>, limit: usize) -> (r: Result<(), ReviewError>)
    ensures
        if old(output)@.len() + more@.len() > limit {
            &&& r == Err::<(), ReviewError>(ReviewError::Limit("Git output"))
            &&& final(output)@ == old(output)@
        } else {
            &&& r == Ok::<(), ReviewError>(())
            &&& final(output)@ == old(output)@ + more@
        },
{
    let len = output.len();
    if more.len() > limit || len > limit - more.len() {
        return Err(ReviewError::Limit("Git output"));
    }
    let mut more = more;
    output.append(&mut more);
    Ok(())
}

/// The settings under which every command of Git runs: no network, no hooks, no helpers.
pub open spec fn settings() -> Seq<Seq<char>> {
    Seq::empty().push("core.fsmonitor=false"@).push("core.untrackedCache=false"@).push(
        "core.commitGraph=false"@,
    ).push("core.multiPackIndex=false"@).push("core.bare=false"@).push("core.quotePath=true"@).push(
        "log.showSignature=false"@,
    ).push("protocol.allow=never"@).push("credential.helper="@).push("gc.auto=0"@).push(
        "maintenance.auto=false"@,
    ).push("submodule.recurse=false"@).push("diff.algorithm=myers"@).push("color.ui=false"@)
}

/// The arguments that settings are given by.
pub open spec fn setting_arguments(settings: Seq<Seq<char>>) -> Seq<Seq<char>>
    decreases settings.len(),
{
    if settings.len() == 0 {
        Seq::empty()
    } else {
        setting_arguments(settings.drop_last()).push("-c"@).push(settings.last())
    }
}

/// The arguments that come before those of a command: the settings, and where hooks and
/// excluded paths are looked for.
pub open spec fn leading_arguments(hooks: Seq<char>, excludes: Seq<char>) -> Seq<Seq<char>> {
    Seq::empty().push("--no-pager"@).push("--literal-pathspecs"@) + setting_arguments(
        settings().push("core.hooksPath="@ + hooks).push("core.excludesFile="@ + excludes),
    )
}

fn push_setting(arguments: &mut Vec<String>, setting: String)
    ensures
        shown(final(arguments)@) == shown(old(arguments)@).push("-c"@).push(setting@),
{
    push_shown(arguments, "-c".to_owned());
    push_shown(arguments, setting);
}

fn add_setting(
    arguments: &mut Vec<String>,
    setting: &str,
    Ghost(lead): Ghost<Seq<Seq<char>>>,
    Ghost(given): Ghost<Seq<Seq<char>>>,
)
    requires
        shown(old(arguments)@) == lead + setting_arguments(given),
    ensures
        shown(final(arguments)@) == lead + setting_arguments(given.push(setting@)),
{
    push_setting(arguments, setting.to_owned());
    assert(given.push(setting@).drop_last() =~= given);
    assert(shown(arguments@) =~= lead + setting_arguments(given.push(setting@)));
}

/// The arguments that come before those of a command.
pub fn command_arguments(hooks: &str, excludes: &str) -> (r: Vec<String>)
    ensures
        shown(r@) == leading_arguments(hooks@, excludes@),
{
    let mut arguments: Vec<String> = Vec::new();
    assert(shown(arguments@) =~= Seq::<Seq<char>>::empty());
    push_shown(&mut arguments, "--no-pager".to_owned());
    push_shown(&mut arguments, "--literal-pathspecs".to_owned());
    let ghost lead = Seq::empty().push("--no-pager"@).push("--literal-pathspecs"@);
    let ghost mut given: Seq<Seq<char>> = Seq::empty();
    assert(shown(arguments@) =~= lead + setting_arguments(given));
    add_setting(&mut arguments, "core.fsmonitor=false", Ghost(lead), Ghost(given));
    proof {
        given = given.push("core.fsmonitor=false"@);
    }
    add_setting(&mut arguments, "core.untrackedCache=false", Ghost(lead), Ghost(given));
    proof {
        given = given.push("core.untrackedCache=false"@);
    }
    add_setting(&mut arguments, "core.commitGraph=false", Ghost(lead), Ghost(given));
    proof {
        given = given.push("core.commitGraph=false"@);
    }
    add_setting(&mut arguments, "core.multiPackIndex=false", Ghost(lead), Ghost(given));
    proof {
        given = given.push("core.multiPackIndex=false"@);
    }
    add_setting(&mut arguments, "core.bare=false", Ghost(lead), Ghost(given));
    proof {
        given = given.push("core.bare=false"@);
    }
    add_setting(&mut arguments, "core.quotePath=true", Ghost(lead), Ghost(given));
    proof {
        given = given.push("core.quotePath=true"@);
    }
    add_setting(&mut arguments, "log.showSignature=false", Ghost(lead), Ghost(given));
    proof {
        given = given.push("log.showSignature=false"@);
    }
    add_setting(&mut arguments, "protocol.allow=never", Ghost(lead), Ghost(given));
    proof {
        given = given.push("protocol.allow=never"@);
    }
    add_setting(&mut arguments, "credential.helper=", Ghost(lead), Ghost(given));
    proof {
        given = given.push("credential.helper="@);
    }
    add_setting(&mut arguments, "gc.auto=0", Ghost(lead), Ghost(given));
    proof {
        given = given.push("gc.auto=0"@);
    }
    add_setting(&mut arguments, "maintenance.auto=false", Ghost(lead), Ghost(given));
    proof {
        given = given.push("maintenance.auto=false"@);
    }
    add_setting(&mut arguments, "submodule.recurse=false", Ghost(lead), Ghost(given));
    proof {
        given = given.push("submodule.recurse=false"@);
    }
    add_setting(&mut arguments, "diff.algorithm=myers", Ghost(lead), Ghost(given));
    proof {
        given = given.push("diff.algorithm=myers"@);
    }
    add_setting(&mut arguments, "color.ui=false", Ghost(lead), Ghost(given));
    proof {
        given = given.push("color.ui=false"@);
    }
    let mut path = "core.hooksPath=".to_owned();
    path.push_str(hooks);
    add_setting(&mut arguments, path.as_str(), Ghost(lead), Ghost(given));
    proof {
        given = given.push(path@);
    }
    let mut list = "core.excludesFile=".to_owned();
    list.push_str(excludes);
    add_setting(&mut arguments, list.as_str(), Ghost(lead), Ghost(given));
    arguments
}

} // verus!
