//! Detection of contracts that were destroyed and later redeployed at the same
//! address, from per-transaction execution traces and the account store.

pub mod address;
pub mod aggregate;
pub mod classify;
pub mod event;
pub mod fallback;
pub mod output;
pub mod outside;
pub mod pipeline;
pub mod reconcile;
pub mod request;
