//! The persisted result: the reinitialized addresses as one JSON text.

use crate::aggregate::ReinitializedAddressSet;
use crate::outside::{address_bytes, addresses_json, addresses_to_json};
use vstd::prelude::*;

verus! {

/// The name of the file that takes the result.
pub const OUTPUT_FILE: &'static str = "reinitialized_contracts.json";

/// Why the result could not be written down.
#[derive(Debug)]
pub enum OutputError {
    /// The serializer refused the addresses.
    Serialization(serde_json::Error),
}

/// The text of the result from what the serializer returned: its text, or
/// its error as an error of this crate.
pub fn rendered(outcome: Result<String, serde_json::Error>) -> (r: Result<String, OutputError>)
    ensures
        r == match outcome {
            Ok(text) => Ok::<String, OutputError>(text),
            Err(error) => Err(OutputError::Serialization(error)),
        },
{
    match outcome {
        Ok(text) => Ok(text),
        Err(error) => Err(OutputError::Serialization(error)),
    }
}

/// The result as a JSON array of the addresses in ascending order, each as a
/// string: the text that the serializer gives for these addresses, and an
/// error exactly where it refuses them.
pub fn to_json(set: &ReinitializedAddressSet) -> (r: Result<String, OutputError>)
    ensures
        match addresses_json(address_bytes(set@)) {
            Some(json) => r matches Ok(text) && text@ == json,
            None => r matches Err(error) && error is Serialization,
        },
{
    rendered(addresses_to_json(set.addresses()))
}

} // verus!
