//! Pieces of canonical JSON: the compact text whose bytes are hashed into identities.
use crate::digest::Digest;
use crate::text::hex_char;
use crate::uuid::Uuid;
use vstd::prelude::*;

verus! {

/// A piece of text that needs no escape, between quotation marks.
pub open spec fn quoted(text: Seq<char>) -> Seq<char> {
    "\""@ + text + "\""@
}

/// How a character stands in a JSON string. What has no escape of its own and is a control
/// code below the space is given by its code.
pub open spec fn escaped_char(c: char) -> Seq<char> {
    if c == '"' {
        seq!['\\', '"']
    } else if c == '\\' {
        seq!['\\', '\\']
    } else if c as u32 == 0x08 {
        seq!['\\', 'b']
    } else if c as u32 == 0x09 {
        seq!['\\', 't']
    } else if c as u32 == 0x0a {
        seq!['\\', 'n']
    } else if c as u32 == 0x0c {
        seq!['\\', 'f']
    } else if c as u32 == 0x0d {
        seq!['\\', 'r']
    } else if (c as u32) < 0x20 {
        seq!['\\', 'u', '0', '0', hex_char(c as int / 16), hex_char(c as int % 16)]
    } else {
        seq![c]
    }
}

/// How a text stands in a JSON string, between its quotation marks.
pub open spec fn escaped(text: Seq<char>) -> Seq<char>
    decreases text.len(),
{
    if text.len() == 0 {
        Seq::empty()
    } else {
        escaped_char(text[0]) + escaped(text.skip(1))
    }
}

/// The JSON string that stands for a text, quotation marks and escapes included.
pub open spec fn json_string(text: Seq<char>) -> Seq<char> {
    quoted(escaped(text))
}

/// `serde_json::to_string` of a string slice writes the text between quotation marks, with
/// the escapes of JSON that its table has, and cannot fail: it writes into memory.
#[verifier::external_body]
fn escape_json(text: &str) -> (json: String)
    ensures
        json@ == json_string(text@),
{
    serde_json::to_string(text).expect("a string has a JSON form")
}

/// Appends a text that needs no escape, between quotation marks.
pub fn push_quoted(json: &mut String, text: &str)
    ensures
        final(json)@ == old(json)@ + quoted(text@),
{
    json.push_str("\"");
    json.push_str(text);
    json.push_str("\"");
    assert(json@ =~= old(json)@ + quoted(text@));
}

/// Appends an arbitrary text as a JSON string.
pub fn push_json_string(json: &mut String, text: &str)
    ensures
        final(json)@ == old(json)@ + json_string(text@),
{
    json.push_str(escape_json(text).as_str());
}

/// Appends an identity as a JSON string.
pub fn push_digest(json: &mut String, digest: &Digest)
    ensures
        final(json)@ == old(json)@ + quoted(digest.text()),
{
    let text = digest.to_string();
    push_quoted(json, text.as_str());
}

/// Appends an identifier as a JSON string.
pub fn push_uuid(json: &mut String, id: &Uuid)
    ensures
        final(json)@ == old(json)@ + quoted(id.text()),
{
    let text = id.to_string();
    push_quoted(json, text.as_str());
}

/// The JSON text of a truth value.
pub open spec fn bool_text(value: bool) -> Seq<char> {
    if value {
        "true"@
    } else {
        "false"@
    }
}

pub fn push_bool(json: &mut String, value: bool)
    ensures
        final(json)@ == old(json)@ + bool_text(value),
{
    if value {
        json.push_str("true");
    } else {
        json.push_str("false");
    }
}

} // verus!
