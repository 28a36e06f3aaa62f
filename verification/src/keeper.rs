//! The price keeper: holds a pool's price near an external reference.

pub mod calendar;
pub mod options;
pub mod oracle;
pub mod policy;
pub mod policy_laws;
pub mod tick;
