//! The capability a business-logic module offers the node, and the results
//! it hands back.
//!
//! A service is registered under a route name and owns everything behind it:
//! decoding its own transactions, executing them against a fork, answering
//! queries against a snapshot, and reporting the hashes that enter the proof
//! table.  The node treats these calls as opaque: its own guarantees hold
//! whatever a service does.

use vstd::prelude::*;

use crate::codec::SignedTransaction;
use crate::store::{Fork, Store};

verus! {

/// One event a transaction emitted: a named tag and its ordered key/value
/// attributes.
pub struct Event {
    pub name: Vec<u8>,
    pub attributes: Vec<(Vec<u8>, Vec<u8>)>,
}

/// The outcome of executing, validating, or bootstrapping a transaction:
/// code zero is success and the only value that lets state changes survive;
/// any other code discards them.
pub struct TxResult {
    pub code: u32,
    pub log: String,
    pub data: Vec<u8>,
    pub events: Vec<Event>,
}

impl TxResult {
    /// A successful, empty result.
    pub fn ok() -> (r: TxResult)
        ensures
            r.code == 0,
            r.log@ == Seq::<char>::empty(),
            r.data@ == Seq::<u8>::empty(),
            r.events@ == Seq::<Event>::empty(),
    {
        let r = TxResult { code: 0, log: String::new(), data: Vec::new(), events: Vec::new() };
        proof {
            assert(r.log@ =~= Seq::<char>::empty());
            assert(r.data@ =~= Seq::<u8>::empty());
            assert(r.events@ =~= Seq::<Event>::empty());
        }
        r
    }

    /// A failed result carrying an error code and a log message.
    pub fn error(code: u32, log: &str) -> (r: TxResult)
        ensures
            r.code == code,
            r.log@ == log@,
            r.data@ == Seq::<u8>::empty(),
            r.events@ == Seq::<Event>::empty(),
    {
        let r = TxResult { code, log: log.to_owned(), data: Vec::new(), events: Vec::new() };
        proof {
            assert(r.data@ =~= Seq::<u8>::empty());
            assert(r.events@ =~= Seq::<Event>::empty());
        }
        r
    }
}

/// The outcome of a query: code zero is success, the value carries the
/// answer.
pub struct QueryResult {
    pub code: u32,
    pub value: Vec<u8>,
    pub log: String,
}

impl QueryResult {
    /// A successful query answer.
    pub fn ok(value: Vec<u8>) -> (r: QueryResult)
        ensures
            r.code == 0,
            r.value@ == value@,
            r.log@ == Seq::<char>::empty(),
    {
        QueryResult { code: 0, value, log: String::new() }
    }

    /// A failed query.
    pub fn error(code: u32, log: &str) -> (r: QueryResult)
        ensures
            r.code == code,
            r.value@ == Seq::<u8>::empty(),
            r.log@ == log@,
    {
        let r = QueryResult { code, value: Vec::new(), log: log.to_owned() };
        proof {
            assert(r.value@ =~= Seq::<u8>::empty());
        }
        r
    }
}

/// What a registered business-logic module must provide.  The node owns each
/// registered service for the life of the process and calls it with either a
/// read-only snapshot or the transaction's own fork, so a service can never
/// touch committed state directly.
pub trait Service {
    /// The route name this service registers under and transactions and
    /// queries address it by.
    fn route(&self) -> (r: Vec<u8>);

    /// Whether this service can decode a transaction of the given kind and
    /// payload; the node rejects the transaction without executing anything
    /// when not.
    fn decode_tx(&self, txid: u8, payload: &Vec<u8>) -> (r: bool);

    /// Execute a decoded transaction against the transaction's fork.
    fn execute(&self, sender: &Vec<u8>, txid: u8, payload: &Vec<u8>, fork: &mut Fork<'_>) -> (r:
        TxResult);

    /// Bootstrap this service's state at genesis, with the chain's optional
    /// genesis payload.
    fn genesis(&self, fork: &mut Fork<'_>, data: &Option<Vec<u8>>) -> (r: TxResult);

    /// Answer a query for this service's own subpath against a read-only
    /// snapshot.
    fn query(&self, path: &Vec<u8>, key: &Vec<u8>, snapshot: &Store) -> (r: QueryResult);

    /// The ordered hashes this service reports for the proof table; the hash
    /// at position `i` lands under `(route, i)`.
    fn store_hashes(&self, snapshot: &Store) -> (r: Vec<Vec<u8>>);
}

/// An optional mempool-admission policy: invoked by check-tx against a
/// read-only snapshot of the last committed state.
pub trait ValidateTxHandler {
    /// Judge a decoded transaction without executing it.
    fn validate_tx(&self, tx: &SignedTransaction, snapshot: &Store) -> (r: TxResult);
}

/// The default admission policy: accept everything.
pub struct NoValidation;

impl ValidateTxHandler for NoValidation {
    fn validate_tx(&self, _tx: &SignedTransaction, _snapshot: &Store) -> (r: TxResult) {
        TxResult::ok()
    }
}

} // verus!
