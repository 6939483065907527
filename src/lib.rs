//! Display discovery and brightness control: the name normalisation, device
//! matching, record building and operation decisions, each with its contract.
//! The operating-system calls themselves are made by the caller, which hands
//! their outcomes to these functions.

pub mod normalize;
pub mod matcher;
pub mod operations;
pub mod records;
pub mod source;
pub mod friendly;
