//! What the game's metadata document says of a mod. The document is JSON,
//! read by the `serde_json` crate; any part of it may be missing.

use crate::record::{text_view, StagedMod, StagedModView};
use vstd::prelude::*;

verus! {

/// `serde_json`'s `Value`, a JSON value. Nothing inside it is seen from
/// here; the names below stand for what its accessors hand out.
#[verifier::external_type_specification]
#[verifier::external_body]
pub struct ExJsonValue(serde_json::Value);

/// The JSON value that a text spells, if it spells one.
pub uninterp spec fn json_document(text: Seq<char>) -> Option<serde_json::Value>;

/// The member of a JSON object under a key; nothing where the value is no
/// object or has no such member.
pub uninterp spec fn json_member(v: serde_json::Value, key: Seq<char>) -> Option<
    serde_json::Value,
>;

/// The number that a JSON value is, where it is an integer that fits.
pub uninterp spec fn json_integer(v: serde_json::Value) -> Option<i64>;

/// The text that a JSON value is, where it is a string.
pub uninterp spec fn json_text(v: serde_json::Value) -> Option<Seq<char>>;

/// Calls `serde_json::from_str` for a `Value` and drops the error. The
/// result is taken to be the name [`json_document`] applied to the text.
#[verifier::external_body]
fn parse(text: &str) -> (r: Option<serde_json::Value>)
    ensures
        r == json_document(text@),
{
    serde_json::from_str::<serde_json::Value>(text).ok()
}

/// Calls `Value::get` with a text as the key. The result is taken to be
/// the name [`json_member`] applied to the value and the key.
#[verifier::external_body]
fn member<'a>(v: &'a serde_json::Value, key: &str) -> (r: Option<&'a serde_json::Value>)
    ensures
        match r {
            Some(m) => json_member(*v, key@) == Some(*m),
            None => json_member(*v, key@).is_none(),
        },
{
    v.get(key)
}

/// Calls `Value::as_i64`. The result is taken to be the name
/// [`json_integer`] applied to the value.
#[verifier::external_body]
fn as_integer(v: &serde_json::Value) -> (r: Option<i64>)
    ensures
        r == json_integer(*v),
{
    v.as_i64()
}

/// Calls `Value::as_str` and copies the text. The result is taken to be
/// the name [`json_text`] applied to the value.
#[verifier::external_body]
fn as_text(v: &serde_json::Value) -> (r: Option<String>)
    ensures
        match r {
            Some(s) => json_text(*v) == Some(s@),
            None => json_text(*v).is_none(),
        },
{
    v.as_str().map(|s| s.to_owned())
}

/// The truth value that a JSON value is, where it is one.
pub uninterp spec fn json_flag(v: serde_json::Value) -> Option<bool>;

/// Calls `Value::as_bool`. The result is taken to be the name
/// [`json_flag`] applied to the value.
#[verifier::external_body]
fn as_flag(v: &serde_json::Value) -> (r: Option<bool>)
    ensures
        r == json_flag(*v),
{
    v.as_bool()
}

/// The member of an optional value under a key.
pub open spec fn member_of(v: Option<serde_json::Value>, key: Seq<char>) -> Option<
    serde_json::Value,
> {
    match v {
        Some(x) => json_member(x, key),
        None => None,
    }
}

/// The text of an optional value.
pub open spec fn text_of(v: Option<serde_json::Value>) -> Option<Seq<char>> {
    match v {
        Some(x) => json_text(x),
        None => None,
    }
}

/// The integer of an optional value.
pub open spec fn integer_of(v: Option<serde_json::Value>) -> Option<i64> {
    match v {
        Some(x) => json_integer(x),
        None => None,
    }
}

/// The document that a file's content spells: none for an empty content
/// and for one that is no JSON.
pub open spec fn document_of(content: Seq<char>) -> Option<serde_json::Value> {
    if content.len() == 0 {
        None
    } else {
        json_document(content)
    }
}

/// What the document holds for the mod of that name: the member of that
/// name of its member `mods`.
pub open spec fn entry_of(db: Option<serde_json::Value>, name: Seq<char>) -> Option<
    serde_json::Value,
> {
    member_of(member_of(db, "mods"@), name)
}

/// The value that tells a mod's type: the first that there is of the
/// members `modType`, `modtype` and `type`.
pub open spec fn type_member(entry: Option<serde_json::Value>) -> Option<serde_json::Value> {
    if member_of(entry, "modType"@).is_some() {
        member_of(entry, "modType"@)
    } else if member_of(entry, "modtype"@).is_some() {
        member_of(entry, "modtype"@)
    } else {
        member_of(entry, "type"@)
    }
}

/// The mod of that name as the document describes it, not ticked.
pub open spec fn described(db: Option<serde_json::Value>, name: Seq<char>) -> StagedModView {
    let entry = entry_of(db, name);
    StagedModView {
        name,
        selected: false,
        createtime: integer_of(member_of(member_of(entry, "stat"@), "createtime"@)),
        filename: text_of(member_of(entry, "filename"@)),
        fullpath: text_of(member_of(entry, "fullpath"@)),
        mod_type: text_of(type_member(entry)),
    }
}

/// Reads the document from the content of its file.
pub fn read_document(content: &str) -> (r: Option<serde_json::Value>)
    ensures
        r == document_of(content@),
{
    if content.is_empty() {
        None
    } else {
        parse(content)
    }
}

/// The member of an optional value under a key.
fn get<'a>(v: Option<&'a serde_json::Value>, key: &str) -> (r: Option<&'a serde_json::Value>)
    ensures
        match r {
            Some(m) => member_of(borrowed(v), key@) == Some(*m),
            None => member_of(borrowed(v), key@).is_none(),
        },
{
    match v {
        Some(x) => member(x, key),
        None => None,
    }
}

/// The value behind an optional reference.
pub open spec fn borrowed(v: Option<&serde_json::Value>) -> Option<serde_json::Value> {
    match v {
        Some(x) => Some(*x),
        None => None,
    }
}

/// The text of an optional value.
fn get_text(v: Option<&serde_json::Value>) -> (r: Option<String>)
    ensures
        text_view(r) == text_of(borrowed(v)),
{
    match v {
        Some(x) => as_text(x),
        None => None,
    }
}

/// Makes the mod of that name from what the document says of it.
pub fn describe(db: &Option<serde_json::Value>, mod_name: String) -> (r: StagedMod)
    ensures
        r@ == described(*db, mod_name@),
{
    let mods = get(db.as_ref(), "mods");
    let entry = get(mods, mod_name.as_str());
    let stat = get(entry, "stat");
    let createtime = match get(stat, "createtime") {
        Some(t) => as_integer(t),
        None => None,
    };
    let filename = get_text(get(entry, "filename"));
    let fullpath = get_text(get(entry, "fullpath"));
    let first = get(entry, "modType");
    let kind = if first.is_some() {
        first
    } else {
        let second = get(entry, "modtype");
        if second.is_some() {
            second
        } else {
            get(entry, "type")
        }
    };
    let mod_type = get_text(kind);
    StagedMod { mod_name, selected: false, createtime, filename, fullpath, mod_type }
}

/// Whether the window's preferences, as the content of their file spells
/// them, ask for the advanced filters to be shown: what the member
/// `advanced_filters_open` says, and no where there is no such truth value.
pub open spec fn advanced_open_of(content: Seq<char>) -> bool {
    match member_of(document_of(content), "advanced_filters_open"@) {
        Some(v) => match json_flag(v) {
            Some(open) => open,
            None => false,
        },
        None => false,
    }
}

/// Reads from the content of the preferences file whether the advanced
/// filters are to be shown.
pub fn read_advanced_open(content: &str) -> (r: bool)
    ensures
        r == advanced_open_of(content@),
{
    let doc = read_document(content);
    match get(doc.as_ref(), "advanced_filters_open") {
        Some(v) => match as_flag(v) {
            Some(open) => open,
            None => false,
        },
        None => false,
    }
}

} // verus!
