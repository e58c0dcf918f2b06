//! Fresh identifiers and timestamps for newly created records.

use vstd::prelude::*;

verus! {

/// A fresh random identifier: uuid's `Uuid::new_v4()` rendered with
/// `to_string()`. The value is random; the contract claims only the
/// documented length of uuid's hyphenated text form.
#[verifier::external_body]
pub(crate) fn new_id() -> (r: String)
    ensures
        r@.len() == 36,
{
    uuid::Uuid::new_v4().to_string()
}

/// The current time as RFC 3339 text: chrono's `Utc::now().to_rfc3339()`.
/// The value depends on the clock; the contract claims only that the text
/// is not empty.
#[verifier::external_body]
pub(crate) fn now_rfc3339() -> (r: String)
    ensures
        r@.len() > 0,
{
    chrono::Utc::now().to_rfc3339()
}

} // verus!
