//! A monitor that tails the ledger of a consensus node.
//!
//! `monitor` holds the state and works off one tip after the other; `finalize` says which
//! blocks become final, `rewind` what a walk to older blocks comes to, `liveness` how much
//! stake is online, and `watch` what to do when the watched files change. `laws` says what each
//! step of a tip comes to. `cache`, `u256`, `pubkey` and `peers` each hold the calls into one
//! crate, with what is taken for granted of them.
pub mod cache;
pub mod certificate;
pub mod cli;
pub mod epochs;
pub mod finalize;
pub mod laws;
pub mod liveness;
pub mod monitor;
pub mod order;
pub mod peers;
pub mod pubkey;
pub mod records;
pub mod rewind;
pub mod stakes;
pub mod types;
pub mod u256;
pub mod watch;
