//! The client's side: keys, operations and their progress.

pub mod codec;
pub mod db;
pub mod derivation;
pub mod laws;
pub mod module;
pub mod order_laws;
pub mod recovery;
pub mod single_tx;
pub mod slippage;
pub mod swap;
pub mod sweep;
