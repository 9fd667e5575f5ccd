//! The few operations the library takes on trust: Unicode character
//! classification and case mapping from std, and JSON dictionary parsing from
//! serde_json. Everything else in the crate is verified against these
//! contracts.

use vstd::prelude::*;

verus! {

use crate::vocab::distinct_keys;
use crate::vocab::map_of;

/// The Unicode lowercase mapping of a character sequence, as computed by
/// `str::to_lowercase`. It depends on the characters alone.
pub uninterp spec fn lower_of(s: Seq<char>) -> Seq<char>;

/// Whether a character has the Unicode uppercase property, as decided by
/// `char::is_uppercase`.
pub uninterp spec fn is_upper(c: char) -> bool;

/// Whether a character has the Unicode whitespace property, as decided by
/// `char::is_whitespace`.
pub uninterp spec fn is_white(c: char) -> bool;

/// The key-id mapping denoted by a JSON object of string keys and unsigned
/// integer values, as parsed by `serde_json::from_str`; a later duplicate key
/// overrides an earlier one. It depends on the input text alone.
pub uninterp spec fn json_entries_of(s: Seq<char>) -> Map<Seq<char>, u32>;

/// Whether `serde_json::from_str` accepts the text as such a JSON object.
/// Parsing is deterministic, so this too depends on the input text alone.
pub uninterp spec fn json_parses(s: Seq<char>) -> bool;

/// Relies on str::to_lowercase: the result depends on the characters alone.
#[verifier::external_body]
pub(crate) fn lowercase(s: &str) -> (r: String)
    ensures
        r@ == lower_of(s@),
{
    s.to_lowercase()
}

/// Relies on String::from for char: the returned string holds exactly the one
/// character.
#[verifier::external_body]
pub(crate) fn char_to_string(c: char) -> (r: String)
    ensures
        r@ == seq![c],
{
    String::from(c)
}

/// Relies on char::is_uppercase: the Unicode uppercase property depends on
/// the character alone.
#[verifier::external_body]
pub(crate) fn char_is_uppercase(c: char) -> (r: bool)
    ensures
        r == is_upper(c),
{
    c.is_uppercase()
}

/// Relies on char::is_whitespace: the Unicode whitespace property depends on
/// the character alone.
#[verifier::external_body]
pub(crate) fn char_is_whitespace(c: char) -> (r: bool)
    ensures
        r == is_white(c),
{
    c.is_whitespace()
}

#[verifier::external_type_specification]
#[verifier::external_body]
pub struct ExSerdeJsonError(serde_json::Error);

/// Relies on serde_json::from_str for HashMap<String, u32>: whether the text
/// parses, and the mapping it parses to, are functions of the text alone. On
/// success the parsed object's entries are inserted key by key, so the keys
/// are distinct (a later duplicate key in the object overrides an earlier
/// one).
#[verifier::external_body]
pub(crate) fn parse_entries(s: &str) -> (r: Result<Vec<(String, u32)>, serde_json::Error>)
    ensures
        r is Ok <==> json_parses(s@),
        r matches Ok(v) ==> distinct_keys(v@) && map_of(v@) == json_entries_of(s@),
{
    let table: std::collections::HashMap<String, u32> = serde_json::from_str(s)?;
    Ok(table.into_iter().collect())
}

} // verus!
