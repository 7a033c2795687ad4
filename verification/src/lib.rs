//! A token-vesting ledger.
//!
//! The library tracks a fixed total token supply divided into named groups,
//! each with a release schedule (a fixed per-period amount or a percentage of
//! the group total), assigns member addresses to groups, and computes how many
//! tokens an address may claim at a point in time.  All state lives in plain
//! values; the surrounding host supplies the clock, the verified caller
//! identity, and the actual token mint and transfer operations.

pub mod accrual;
pub mod bytemap;
pub mod contract_data;
pub mod errors;
pub mod identifier;
pub mod token_release;

pub use crate::contract_data::ScheduleType;
pub use crate::errors::Error;
pub use crate::token_release::TokenRelease;
