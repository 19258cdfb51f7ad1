//! Trusted boundary around the `serde_json` parser.
//!
//! The discovery protocol's datagrams are JSON text; parsing them is
//! delegated to `serde_json`.  What the classifier reads of a datagram —
//! the five [`PayloadFields`] — is a function of the datagram's text
//! alone, so that extraction is named by the spec function [`fields_of`]
//! and performed by the one trusted function [`parse_fields`]; the
//! classifier's own exact contract then takes over from the fields.

use serde_json::Value;
use vstd::prelude::*;

use crate::classify::PayloadFields;

verus! {

/// Whether a text is one well-formed JSON value, as `serde_json::from_str`
/// accepts it.
pub uninterp spec fn json_text_ok(s: Seq<char>) -> bool;

/// The fields the classifier reads of one well-formed JSON datagram text:
/// whether `data.advertisement` is a non-empty object, the strings at
/// `data.advertisement.uuid`, `event` and `data.uuid` (each present
/// exactly when that member is a JSON string), and the `data` member
/// serialized back to text.  A function of the text alone: `serde_json`
/// parses deterministically and serializes objects in sorted key order.
pub uninterp spec fn fields_of(s: Seq<char>) -> crate::classify::PayloadFieldsView;

/// Relies on `serde_json::from_str::<Value>`, which returns `Ok` exactly
/// when the text is one well-formed JSON value, and on the `Value`
/// accessors `get`, `as_str` and `as_object`, `Map::get`, `Map::is_empty`
/// and `serde_json::to_string`, which read the parsed tree as the
/// documentation of each says: together they draw out of the text the
/// fields named by [`fields_of`].
#[verifier::external_body]
pub(crate) fn parse_fields(s: &str) -> (r: Option<PayloadFields>)
    ensures
        r is Some <==> json_text_ok(s@),
        r matches Some(m) ==> m@ == fields_of(s@),
{
    let v: Value = serde_json::from_str(s).ok()?;
    let data = v.get("data");
    let adv = data.and_then(|d| d.get("advertisement")).and_then(|a| a.as_object());
    Some(PayloadFields {
        has_advertisement: adv.map_or(false, |m| !m.is_empty()),
        advertisement_uuid: adv.and_then(|m| m.get("uuid")).and_then(|u| u.as_str()).map(String::from),
        event: v.get("event").and_then(|e| e.as_str()).map(String::from),
        data_uuid: data.and_then(|d| d.get("uuid")).and_then(|u| u.as_str()).map(String::from),
        data_text: data.and_then(|d| serde_json::to_string(d).ok()),
    })
}

} // verus!
