//! The answers of the watcher, which knows the inscription that holds the
//! proof of a block.

use crate::error::CapabilityFailure;
use vstd::prelude::*;

verus! {

/// The text that the JSON document `document` holds under `name`: there is
/// one where the document is an object that has a string under that name.
pub uninterp spec fn json_text(document: Seq<u8>, name: Seq<char>) -> Option<Seq<char>>;

/// `serde_json::from_slice` to a `serde_json::Value`, indexed by `name` and
/// read with `as_str`. The contract gives the result the name `json_text`
/// and claims nothing more of it.
#[verifier::external_body]
fn json_text_of(document: &[u8], name: &str) -> (text: Option<String>)
    ensures
        match text {
            Some(found) => json_text(document@, name@) == Some(found@),
            None => json_text(document@, name@) is None,
        },
{
    let value: serde_json::Value = serde_json::from_slice(document).ok()?;
    value[name].as_str().map(str::to_owned)
}

/// Reads the inscription identifier out of the watcher's answer to the
/// question which inscription belongs to a block: it is the text under
/// `block_hash`. An answer without such a text says that the watcher knows
/// no inscription for the block.
pub fn resolved_inscription_id(answer: &[u8]) -> (resolved: Result<String, CapabilityFailure>)
    ensures
        match json_text(answer@, "block_hash"@) {
            Some(inscription_id) => resolved matches Ok(text) && text@ == inscription_id,
            None => resolved == Err::<String, CapabilityFailure>(CapabilityFailure::NotFound),
        },
{
    match json_text_of(answer, "block_hash") {
        Some(inscription_id) => Ok(inscription_id),
        None => Err(CapabilityFailure::NotFound),
    }
}

} // verus!
