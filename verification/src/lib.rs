//! A constant-product market between the units of a Fedimint federation.
//!
//! The curve is in [`math`], what holds of it in [`math_laws`] and [`math_exact`].
//! [`server`] is
//! the ledger that the guardians keep and how transaction items and fee votes
//! change it; [`client`] orders swaps, deposits and withdrawals, follows them to
//! their end, and finds everything again from the seed; [`keeper`] holds a
//! pool's price near an outside reference. The other modules are what these
//! share: identities, encodings, keys and tables.

pub mod bytes;
pub mod client;
pub mod codec;
pub mod common;
pub mod config;
pub mod crypto;
pub mod display;
pub mod encoding;
pub mod endpoints;
pub mod federation;
pub mod keeper;
pub mod layout_laws;
pub mod math;
pub mod math_exact;
pub mod math_laws;
pub mod pool_id;
pub mod pop;
pub mod server;
pub mod table;
pub mod text;
pub mod types;
pub mod units;
