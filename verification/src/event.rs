//! Lifecycle events: the typed outcome of classifying one trace record.

use crate::address::Address;
use crate::outside::{lowercase, to_lowercase};
use vstd::prelude::*;
use vstd::string::StringExecFns;

verus! {

/// The two kinds of lifecycle event.
#[derive(Clone, Copy, Debug, PartialEq, Eq, Structural)]
pub enum TraceType {
    SelfDestruct,
    Create,
}

impl TraceType {
    /// The name of the kind.
    pub open spec fn name(self) -> Seq<char> {
        match self {
            TraceType::SelfDestruct => "selfdestruct"@,
            TraceType::Create => "create"@,
        }
    }

    /// The kind that a lower-case name stands for, if any.
    pub open spec fn named(lower: Seq<char>) -> Option<TraceType> {
        if lower == "selfdestruct"@ {
            Some(TraceType::SelfDestruct)
        } else if lower == "create"@ {
            Some(TraceType::Create)
        } else {
            None
        }
    }

    /// The name of the kind: `selfdestruct` or `create`.
    pub fn as_str(&self) -> (text: &'static str)
        ensures
            text@ == self.name(),
    {
        match self {
            TraceType::SelfDestruct => "selfdestruct",
            TraceType::Create => "create",
        }
    }

    /// The name of the kind as an owned text.
    pub fn to_string(&self) -> (text: String)
        ensures
            text@ == self.name(),
    {
        String::from_str(self.as_str())
    }

    /// The kind that the lower-case name `lower` stands for. Any other text
    /// is refused with a message.
    pub fn from_lowercase(lower: &String) -> (r: Result<TraceType, String>)
        ensures
            match TraceType::named(lower@) {
                Some(kind) => r == Ok::<TraceType, String>(kind),
                None => r matches Err(message) && message@ == "Trace type invalid"@,
            },
    {
        if *lower == String::from_str("selfdestruct") {
            Ok(TraceType::SelfDestruct)
        } else if *lower == String::from_str("create") {
            Ok(TraceType::Create)
        } else {
            Err(String::from_str("Trace type invalid"))
        }
    }

    /// The kind that `text` names, in whatever case its letters are.
    pub fn from_str(text: &str) -> (r: Result<TraceType, String>)
        ensures
            match TraceType::named(lowercase(text@)) {
                Some(kind) => r == Ok::<TraceType, String>(kind),
                None => r matches Err(message) && message@ == "Trace type invalid"@,
            },
    {
        let lower = to_lowercase(text);
        TraceType::from_lowercase(&lower)
    }
}

/// Reading the name of a kind gives the kind back.
pub proof fn lemma_name_round_trip(kind: TraceType)
    ensures
        TraceType::named(kind.name()) == Some(kind),
{
    reveal_strlit("selfdestruct");
    reveal_strlit("create");
    assert("selfdestruct"@.len() == 12);
    assert("create"@.len() == 6);
}

/// A contract was destroyed or deployed at `address`, by the transaction at
/// index `transaction_position` of block `block_number`.
#[derive(Clone, Copy, Debug)]
pub struct LifecycleEvent {
    pub kind: TraceType,
    pub address: Address,
    pub block_number: u64,
    pub transaction_position: u64,
}

impl LifecycleEvent {
    /// The self-destruct of `address` at the given place in the chain.
    pub fn self_destruct(address: Address, block_number: u64, transaction_position: u64) -> (r:
        LifecycleEvent)
        ensures
            r == (LifecycleEvent {
                kind: TraceType::SelfDestruct,
                address,
                block_number,
                transaction_position,
            }),
    {
        LifecycleEvent { kind: TraceType::SelfDestruct, address, block_number, transaction_position }
    }

    /// The creation of `address` at the given place in the chain.
    pub fn create(address: Address, block_number: u64, transaction_position: u64) -> (r:
        LifecycleEvent)
        ensures
            r == (LifecycleEvent {
                kind: TraceType::Create,
                address,
                block_number,
                transaction_position,
            }),
    {
        LifecycleEvent { kind: TraceType::Create, address, block_number, transaction_position }
    }
}

impl PartialEq for LifecycleEvent {
    fn eq(&self, other: &LifecycleEvent) -> (r: bool) {
        self.kind == other.kind && self.address == other.address && self.block_number
            == other.block_number && self.transaction_position == other.transaction_position
    }
}

impl Eq for LifecycleEvent {

}

impl vstd::std_specs::cmp::PartialEqSpecImpl for LifecycleEvent {
    open spec fn obeys_eq_spec() -> bool {
        true
    }

    open spec fn eq_spec(&self, other: &LifecycleEvent) -> bool {
        *self == *other
    }
}

} // verus!
