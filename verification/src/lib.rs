//! An engine that gathers independently signed Bitcoin transactions into
//! groups and publishes each group as one transaction.
//!
//! A client hands in a transaction whose inputs are each signed for
//! themselves and the output beside them alone, so that input and output can
//! stand in a larger transaction. The engine holds such a transaction to its
//! rules ([`validation`]), sorts it by fee rate into a bucket ([`fee`]) and
//! keeps its pairs in the group of that bucket ([`group`]). The groups of a
//! server are its [`registry`], which closes a group when it is full, old, or
//! pays much more than the market asks. What the engine knows of the chain
//! it learns through a [`oracle::ChainOracle`].

mod clock;
pub mod config;
pub mod fee;
pub mod group;
pub mod hexstr;
pub mod oracle;
pub mod protocol;
pub mod registry;
pub mod text;
pub mod transaction;
pub mod validation;
