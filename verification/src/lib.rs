//! A small application-framework core for replicated state machines driven
//! over ABCI (the Application Blockchain Interface).  It registers services
//! under routable names, runs the ABCI lifecycle (info, init-chain, check-tx,
//! deliver-tx, begin-block, end-block, commit), manages transactional access
//! to a key/value store so that every committed block yields one
//! deterministic app hash, and routes queries to the owning service.
//!
//! The store contents, the transaction envelope format, and the proof table
//! that the app hash summarizes are all specified and verified here; the wire
//! transport towards the consensus engine and any durable storage engine live
//! outside this crate and hand plain values in and out.

use vstd::prelude::*;

pub use appstate::AppState;
pub use codec::SignedTransaction;
pub use node::{AppBuilder, Node};
pub use service::{Event, NoValidation, QueryResult, Service, TxResult, ValidateTxHandler};
pub use store::{Fork, Patch, Store};

pub mod appstate;
pub mod codec;
pub mod kv;
pub mod laws;
pub mod node;
pub mod service;
pub mod store;

verus! {

/// Result code: no service is registered for the requested route.
pub const SERVICE_NOT_FOUND: u32 = 100;

/// Result code: the signed transaction envelope could not be decoded.
pub const TXERR_SIGNED_TX: u32 = 101;

/// Result code: the service could not decode the application transaction.
pub const TXERR_DECODE_TX: u32 = 102;

/// Result code: the query path holds no usable route.
pub const QUERYERR_NO_ROUTE: u32 = 103;

/// Result code: no proof-table entry for the requested key.
pub const QUERYERR_PROOF_TABLE: u32 = 104;

} // verus!
