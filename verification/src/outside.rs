//! What the crate takes on trust: the calls into std and into other crates
//! that nothing here proves, each with the contract that the verified code
//! builds on.

use crate::address::Address;
use vstd::prelude::*;

verus! {

/// The lower-case form of a text as `str::to_lowercase` gives it.
pub uninterp spec fn lowercase(text: Seq<char>) -> Seq<char>;

/// Calls `str::to_lowercase`. Taken on trust: the result is the lower-case
/// form of the argument, which depends on the argument alone.
#[verifier::external_body]
pub(crate) fn to_lowercase(text: &str) -> (lower: String)
    ensures
        lower@ == lowercase(text@),
{
    text.to_lowercase()
}

/// What `serde_json::to_string` gives for a list of
/// `alloy_primitives::Address` values, each given here by its twenty bytes:
/// the JSON text, or nothing where the serializer refuses the list.
pub uninterp spec fn addresses_json(addresses: Seq<Seq<u8>>) -> Option<Seq<char>>;

/// The error of `serde_json`.
#[verifier::external_type_specification]
#[verifier::external_body]
pub struct ExJsonError(serde_json::Error);

/// The bytes of each address of a list.
pub open spec fn address_bytes(addresses: Seq<Address>) -> Seq<Seq<u8>> {
    Seq::new(addresses.len(), |i: int| addresses[i].bytes@)
}

/// Calls `serde_json::to_string` on the addresses as a list of
/// `alloy_primitives::Address`. Taken on trust: whether it succeeds, and the
/// text where it does, depend on the bytes of the addresses alone. Nothing
/// is claimed about which lists it accepts or about what the text holds.
#[verifier::external_body]
pub(crate) fn addresses_to_json(addresses: &Vec<Address>) -> (outcome: Result<
    String,
    serde_json::Error,
>)
    ensures
        match outcome {
            Ok(text) => addresses_json(address_bytes(addresses@)) == Some(text@),
            Err(_) => addresses_json(address_bytes(addresses@)) is None,
        },
{
    let list: Vec<alloy_primitives::Address> = addresses.iter().map(
        |a| alloy_primitives::Address::new(a.bytes),
    ).collect();
    serde_json::to_string(&list)
}

} // verus!
