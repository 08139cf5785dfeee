//! Unit save receipts: the JSON list of Unit ids created by one save.

use vstd::prelude::*;

use crate::error::{BaseError, BaseRest, fails_unrecoverable, is_unrecoverable, unrecoverable};

verus! {

/// JSON values are `serde_json::Value`, carried through opaquely.
#[verifier::external_type_specification]
#[verifier::external_body]
pub struct ExJsonValue(serde_json::Value);

/// JSON failures are `serde_json::Error`, carried through opaquely.
#[verifier::external_type_specification]
#[verifier::external_body]
pub struct ExJsonError(serde_json::Error);

/// The JSON value that `serde_json::to_value` makes of a list of ids.
pub uninterp spec fn json_of_ids(ids: Seq<Seq<char>>) -> serde_json::Value;

/// The list of ids that `serde_json::from_value` reads from a JSON value, if
/// it reads one.
pub uninterp spec fn ids_of_json(value: serde_json::Value) -> Option<Seq<Seq<char>>>;

/// The ids held by a vector of strings.
pub open spec fn str_views(v: Seq<String>) -> Seq<Seq<char>> {
    v.map_values(|s: String| s@)
}

/// Calls `serde_json::to_value` on a list of ids. It always succeeds, for a
/// list of strings serializes into an array of JSON strings, and the value is
/// the one named `json_of_ids` of those ids; `serde_json::from_value` reads
/// that array back as the same list.
#[verifier::external_body]
fn ids_to_json(ids: &Vec<String>) -> (r: Result<serde_json::Value, serde_json::Error>)
    ensures
        r is Ok,
        r matches Ok(v) ==> v == json_of_ids(str_views(ids@)),
        r matches Ok(v) ==> ids_of_json(v) == Some(str_views(ids@)),
{
    serde_json::to_value(ids)
}

/// Calls `serde_json::from_value` to read a list of ids; it succeeds exactly
/// when the name `ids_of_json` gives a list, and then returns that list.
#[verifier::external_body]
fn ids_from_json(value: serde_json::Value) -> (r: Result<Vec<String>, serde_json::Error>)
    ensures
        match r {
            Ok(ids) => ids_of_json(value) == Some(str_views(ids@)),
            Err(_) => ids_of_json(value) is None,
        },
{
    serde_json::from_value(value)
}

/// The message of every receipt encoding failure.
pub open spec fn receipt_message() -> Seq<char> {
    "Invalid Unit save receipt"@
}

/// Classifies corrupt persisted receipts and serialization errors.
pub fn receipt_error(error: &serde_json::Error) -> (e: BaseError)
    ensures
        is_unrecoverable(e, receipt_message()),
{
    unrecoverable("Invalid Unit save receipt")
}

/// A stored Unit save receipt.
#[derive(Debug)]
pub struct UnitSaveInfo {
    pub user_id: String,
    pub page_id: String,
    pub save_id: String,
    pub payload_digest: Vec<u8>,
    pub created_unit_ids: Vec<String>,
}

/// Builds the receipt of a found row from its decoded id list.
pub fn receipt_from_decoded(
    user_id: &String,
    page_id: &String,
    save_id: &String,
    payload_digest: Vec<u8>,
    decoded: Result<Vec<String>, serde_json::Error>,
) -> (r: BaseRest<UnitSaveInfo>)
    ensures
        decoded is Err ==> fails_unrecoverable(r, receipt_message()),
        decoded matches Ok(ids) ==> (r matches Ok(info) && info.user_id@ == user_id@ && info.page_id@
            == page_id@ && info.save_id@ == save_id@ && info.payload_digest@ == payload_digest@
            && info.created_unit_ids@ == ids@),
{
    match decoded {
        Err(error) => Err(receipt_error(&error)),
        Ok(created_unit_ids) => Ok(
            UnitSaveInfo {
                user_id: user_id.clone(),
                page_id: page_id.clone(),
                save_id: save_id.clone(),
                payload_digest,
                created_unit_ids,
            },
        ),
    }
}

/// Decodes the id list of a found receipt row into the receipt.
pub fn receipt_from_row(
    user_id: &String,
    page_id: &String,
    save_id: &String,
    payload_digest: Vec<u8>,
    ids: serde_json::Value,
) -> (r: BaseRest<UnitSaveInfo>)
    ensures
        ids_of_json(ids) is None ==> fails_unrecoverable(r, receipt_message()),
        ids_of_json(ids) matches Some(list) ==> (r matches Ok(info) && info.user_id@ == user_id@
            && info.page_id@ == page_id@ && info.save_id@ == save_id@ && info.payload_digest@
            == payload_digest@ && str_views(info.created_unit_ids@) == list),
{
    receipt_from_decoded(user_id, page_id, save_id, payload_digest, ids_from_json(ids))
}

/// Encodes the created ids of a save for storage.
pub fn receipt_ids_value(created_unit_ids: &Vec<String>) -> (r: BaseRest<serde_json::Value>)
    ensures
        r is Ok,
        r matches Ok(v) ==> v == json_of_ids(str_views(created_unit_ids@)),
        r matches Ok(v) ==> ids_of_json(v) == Some(str_views(created_unit_ids@)),
{
    match ids_to_json(created_unit_ids) {
        Ok(v) => Ok(v),
        Err(error) => Err(receipt_error(&error)),
    }
}

} // verus!
