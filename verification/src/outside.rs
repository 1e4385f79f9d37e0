//! The functions of other crates, and of std, that the library calls and does not prove.
use sha1::Digest;
use vstd::prelude::*;
use vstd::utf8::{decode_utf8, valid_utf8};

verus! {

/// What a line diff says of one line.
#[derive(Clone, Copy, Debug, PartialEq, Eq, Structural)]
pub enum LineChange {
    Equal,
    Insert,
    Delete,
}

/// The lowercase form of a text, as `str::to_lowercase` gives it.
pub uninterp spec fn lowercase(text: Seq<char>) -> Seq<char>;

/// Calls `str::to_lowercase`. Its result is a function of the text.
#[verifier::external_body]
pub(crate) fn to_lowercase(text: &str) -> (r: String)
    ensures
        r@ == lowercase(text@),
{
    text.to_lowercase()
}

/// The SHA-1 digest of some bytes in lowercase hexadecimal.
pub uninterp spec fn sha1_hex(bytes: Seq<u8>) -> Seq<char>;

/// Calls `sha1::Sha1::digest` and shows the digest in lowercase hexadecimal. The result is a
/// function of the bytes.
#[verifier::external_body]
pub(crate) fn sha1_digest(bytes: &[u8]) -> (r: String)
    ensures
        r@ == sha1_hex(bytes@),
{
    format!("{:x}", sha1::Sha1::digest(bytes))
}

/// The text of some bytes, with a replacement for what is not UTF-8.
pub uninterp spec fn utf8_lossy(bytes: Seq<u8>) -> Seq<char>;

/// Calls `String::from_utf8_lossy`. The result is a function of the bytes; bytes that are UTF-8 give
/// the text that they encode.
#[verifier::external_body]
pub(crate) fn decode_lossy(bytes: &[u8]) -> (r: String)
    ensures
        r@ == utf8_lossy(bytes@),
        valid_utf8(bytes@) ==> r@ == decode_utf8(bytes@),
{
    String::from_utf8_lossy(bytes).into_owned()
}

/// Why `regex_lite::RegexBuilder::build` refuses a pattern, if it does.
pub uninterp spec fn regex_refusal(pattern: Seq<char>, case_insensitive: bool) -> Option<Seq<char>>;

/// Calls `regex_lite::RegexBuilder::build` for the error that it may return. Whether there is one
/// and what it says is a function of the pattern and the flag.
#[verifier::external_body]
pub(crate) fn regex_build(pattern: &str, case_insensitive: bool) -> (r: Result<(), String>)
    ensures
        match regex_refusal(pattern@, case_insensitive) {
            Some(message) => r matches Err(error) && error@ == message,
            None => r is Ok,
        },
{
    match regex_lite::RegexBuilder::new(pattern).case_insensitive(case_insensitive).build() {
        Ok(_) => Ok(()),
        Err(error) => Err(error.to_string()),
    }
}

/// Whether a pattern is a regex that `regex_lite` accepts and that matches somewhere in a text.
pub uninterp spec fn regex_matches(
    pattern: Seq<char>,
    case_insensitive: bool,
    text: Seq<char>,
) -> bool;

/// Calls `regex_lite::Regex::is_match` on the regex built from the pattern and the flag; a pattern
/// that cannot be built matches nothing. The result is a function of the pattern, the flag and the
/// text.
#[verifier::external_body]
pub(crate) fn regex_is_match(pattern: &str, case_insensitive: bool, text: &str) -> (r: bool)
    ensures
        r == regex_matches(pattern@, case_insensitive, text@),
{
    regex_lite::RegexBuilder::new(pattern)
        .case_insensitive(case_insensitive)
        .build()
        .is_ok_and(|regex| regex.is_match(text))
}

/// The line diff from one text to another, as `similar::TextDiff` computes it.
pub uninterp spec fn line_diff(old: Seq<char>, new: Seq<char>) -> Seq<LineChange>;

/// Calls `similar::TextDiff::from_lines` and lists the tags of `iter_all_changes`. No deadline is
/// set, so the diff is a function of the two texts.
#[verifier::external_body]
pub(crate) fn diff_lines(old: &str, new: &str) -> (r: Vec<LineChange>)
    ensures
        r@ == line_diff(old@, new@),
{
    similar::TextDiff::from_lines(old, new)
        .iter_all_changes()
        .map(|change| match change.tag() {
            similar::ChangeTag::Equal => LineChange::Equal,
            similar::ChangeTag::Insert => LineChange::Insert,
            similar::ChangeTag::Delete => LineChange::Delete,
        })
        .collect()
}

/// The unified diff from one text to another under a header, as `similar::TextDiff` shows it.
pub uninterp spec fn unified_diff(header: Seq<char>, old: Seq<char>, new: Seq<char>) -> Seq<char>;

/// Calls `similar::TextDiff::unified_diff` with the same header for both sides and shows it. No
/// deadline is set, so the diff is a function of the header and the two texts.
#[verifier::external_body]
pub(crate) fn show_unified_diff(header: &str, old: &str, new: &str) -> (r: String)
    ensures
        r@ == unified_diff(header@, old@, new@),
{
    similar::TextDiff::from_lines(old, new).unified_diff().header(header, header).to_string()
}

/// What a member of a JSON object holds.
#[derive(Debug, PartialEq, Eq)]
pub enum JsonField {
    /// A text.
    Text(String),
    /// A number or a truth value, as JSON shows it.
    Scalar(String),
    /// A list, an object, or null.
    Other,
}

/// What a member of a JSON object holds.
pub enum Field {
    Text(Seq<char>),
    Scalar(Seq<char>),
    Other,
}

impl JsonField {
    pub open spec fn model(self) -> Field {
        match self {
            JsonField::Text(text) => Field::Text(text@),
            JsonField::Scalar(shown) => Field::Scalar(shown@),
            JsonField::Other => Field::Other,
        }
    }
}

/// What the member `key` of a JSON text holds: none where the text is no JSON, or no object, or has
/// no such member.
pub uninterp spec fn json_member(text: Seq<char>, key: Seq<char>) -> Option<Field>;

/// Calls `serde_json::from_str` and `serde_json::Value::get`, and tells what kind of value was found;
/// a number or a truth value is shown by its `Display`. The result is a function of the text and the
/// key.
#[verifier::external_body]
pub(crate) fn json_field(text: &str, key: &str) -> (r: Option<JsonField>)
    ensures
        match json_member(text@, key@) {
            Some(field) => r matches Some(got) && got.model() == field,
            None => r is None,
        },
{
    let value: serde_json::Value = serde_json::from_str(text).ok()?;
    Some(match value.get(key)? {
        serde_json::Value::String(held) => JsonField::Text(held.to_string()),
        serde_json::Value::Number(held) => JsonField::Scalar(held.to_string()),
        serde_json::Value::Bool(held) => JsonField::Scalar(held.to_string()),
        serde_json::Value::Array(_) => JsonField::Other,
        serde_json::Value::Object(_) => JsonField::Other,
        serde_json::Value::Null => JsonField::Other,
    })
}

/// The uppercase form of a character.
pub uninterp spec fn uppercase(c: char) -> Seq<char>;

/// Calls `char::to_uppercase` and puts its characters together. The result is a function of the
/// character.
#[verifier::external_body]
pub(crate) fn to_uppercase(c: char) -> (r: String)
    ensures
        r@ == uppercase(c),
{
    c.to_uppercase().to_string()
}

/// How many columns of a terminal a character takes, if that is known.
pub uninterp spec fn char_columns(c: char) -> Option<usize>;

/// Calls `unicode_width::UnicodeWidthChar::width`. The result is a function of the character.
#[verifier::external_body]
pub(crate) fn char_width(c: char) -> (r: Option<usize>)
    ensures
        r == char_columns(c),
{
    unicode_width::UnicodeWidthChar::width(c)
}

/// How many columns of a terminal a text takes.
pub uninterp spec fn text_columns(text: Seq<char>) -> usize;

/// Calls `unicode_width::UnicodeWidthStr::width`. The result is a function of the text.
#[verifier::external_body]
pub(crate) fn text_width(text: &str) -> (r: usize)
    ensures
        r == text_columns(text@),
{
    unicode_width::UnicodeWidthStr::width(text)
}

/// A value that a JSON object is built from.
#[derive(Debug, PartialEq, Eq)]
pub enum JsonScalar {
    Text(String),
    Number(i64),
}

/// A value that a JSON object is built from.
pub enum Scalar {
    Text(Seq<char>),
    Number(int),
}

/// The members of a JSON object as plain values.
pub open spec fn members(entries: Seq<(String, JsonScalar)>) -> Seq<(Seq<char>, Scalar)> {
    Seq::new(
        entries.len(),
        |i: int|
            (
                entries[i].0@,
                match entries[i].1 {
                    JsonScalar::Text(text) => Scalar::Text(text@),
                    JsonScalar::Number(number) => Scalar::Number(number as int),
                },
            ),
    )
}

/// The JSON text of an object whose members are inserted in the given order.
pub uninterp spec fn object_json(members: Seq<(Seq<char>, Scalar)>) -> Seq<char>;

/// Collects the members into a `serde_json::Map` and shows it by the `Display` of
/// `serde_json::Value`. The text is a function of the members in their order.
#[verifier::external_body]
pub(crate) fn show_json_object(entries: Vec<(String, JsonScalar)>) -> (r: String)
    ensures
        r@ == object_json(members(entries@)),
{
    let object: serde_json::Map<String, serde_json::Value> = entries
        .into_iter()
        .map(|(name, held)| match held {
            JsonScalar::Text(text) => (name, serde_json::Value::from(text)),
            JsonScalar::Number(number) => (name, serde_json::Value::from(number)),
        })
        .collect();
    serde_json::Value::Object(object).to_string()
}

} // verus!
