pub mod bytes;
pub mod delegation;
pub mod ledger;
pub mod nodes;
pub mod rewards;
pub mod sale;
pub mod solvency;
pub mod types;
