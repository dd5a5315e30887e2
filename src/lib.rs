//! Backup ingestion and encryption-at-rest manager: the verified core.
//!
//! The library holds the rules of the tool: how payload file names are
//! classified, how sizes and digests are read and written as text, how the
//! repository ledger evolves under ingestion and encryption, and how each
//! encrypted fragment is laid out. File and terminal I/O stay with the caller.

pub mod util;
pub mod filename;
pub mod cryptutil;
pub mod ledger;
pub mod commands;
pub mod inbox;
pub mod crypt;
