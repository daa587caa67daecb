//! Building and checking the per-account bundles that release staked tokens
//! and forward them to a single destination holding.

pub mod amount;
pub mod address;
pub mod identity;
pub mod bundle;
pub mod driver;
