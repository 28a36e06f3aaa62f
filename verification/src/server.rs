//! The guardians' side: the ledger, and how transactions and votes change it.

pub mod api;
pub mod api_laws;
pub mod consensus;
pub mod db;
pub mod dispatch;
pub mod fees;
pub mod init;
pub mod laws;
pub mod ledger;
pub mod recovery;
pub mod recovery_laws;
pub mod settle;
pub mod settle_laws;
