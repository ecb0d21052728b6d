//! End-to-end tests of the node lifecycle with a small counter service.

use rapido::{
    AppBuilder, Event, Fork, NoValidation, Node, QueryResult, Service, SignedTransaction, Store,
    TxResult, ValidateTxHandler,
};

const COUNT_KEY: &[u8] = b"counter";

fn count_of(snapshot_value: &[u8]) -> u16 {
    u16::from_le_bytes([snapshot_value[0], snapshot_value[1]])
}

fn count_bytes(c: u16) -> Vec<u8> {
    c.to_le_bytes().to_vec()
}

/// A service that counts the transactions it executed and reports the count
/// as its store hash.
pub struct CounterExample;

impl Service for CounterExample {
    fn route(&self) -> Vec<u8> {
        b"counter".to_vec()
    }

    fn decode_tx(&self, txid: u8, _payload: &Vec<u8>) -> bool {
        txid == 0
    }

    fn execute(
        &self,
        _sender: &Vec<u8>,
        _txid: u8,
        _payload: &Vec<u8>,
        fork: &mut Fork<'_>,
    ) -> TxResult {
        let current = match fork.get(&COUNT_KEY.to_vec()) {
            Some(v) => count_of(&v),
            None => 0,
        };
        fork.put(&COUNT_KEY.to_vec(), count_bytes(current + 1));
        TxResult {
            code: 0,
            log: String::new(),
            data: Vec::new(),
            events: vec![Event {
                name: b"count".to_vec(),
                attributes: vec![(b"added".to_vec(), b"one".to_vec())],
            }],
        }
    }

    fn genesis(&self, fork: &mut Fork<'_>, _data: &Option<Vec<u8>>) -> TxResult {
        fork.put(&COUNT_KEY.to_vec(), count_bytes(0));
        TxResult {
            code: 0,
            log: String::new(),
            data: Vec::new(),
            events: Vec::new(),
        }
    }

    fn query(&self, path: &Vec<u8>, _key: &Vec<u8>, snapshot: &Store) -> QueryResult {
        if path.as_slice() == b"/" {
            let v = snapshot
                .get(&COUNT_KEY.to_vec())
                .unwrap_or_else(|| count_bytes(0));
            QueryResult {
                code: 0,
                value: v,
                log: String::new(),
            }
        } else if path.as_slice() == b"/random" {
            QueryResult {
                code: 0,
                value: vec![1],
                log: String::new(),
            }
        } else {
            QueryResult {
                code: 1,
                value: Vec::new(),
                log: String::new(),
            }
        }
    }

    fn store_hashes(&self, snapshot: &Store) -> Vec<Vec<u8>> {
        let v = snapshot
            .get(&COUNT_KEY.to_vec())
            .unwrap_or_else(|| count_bytes(0));
        vec![v]
    }
}

fn generate_tx() -> SignedTransaction {
    SignedTransaction::new([0u8; 10].to_vec(), b"counter".to_vec(), 0u8, vec![0], 0u64)
}

fn send_tx() -> Vec<u8> {
    generate_tx().encode()
}

fn new_node() -> Node<CounterExample, NoValidation> {
    AppBuilder::<CounterExample, NoValidation>::new(Store::new())
        .add_service(CounterExample {})
        .finish()
}

#[test]
fn test_basics() {
    let mut node = new_node();

    node.init_chain();
    let resp = node.commit();
    assert!(resp.len() > 0);

    let resp_tx = node.deliver_tx(send_tx());
    assert_eq!(0u32, resp_tx.code);
    println!("{:?}", resp_tx.events.len());
    assert_eq!(1, resp_tx.events.len());
    let c1 = node.commit();
    assert_ne!(resp, c1);

    {
        let resp = node.query(&b"counter".to_vec(), &Vec::new());
        assert_eq!(0u32, resp.code);
        let c = count_of(&resp.value);
        assert_eq!(1, c);
    }

    {
        let resp = node.query(&b"counter/random".to_vec(), &Vec::new());
        assert_eq!(0u32, resp.code);
        assert_eq!(vec![1], resp.value);
    }

    {
        let resp = node.query(&b"counter/fail".to_vec(), &Vec::new());
        assert_eq!(1u32, resp.code);
    }
}

#[test]
fn unknown_route_is_rejected_everywhere() {
    let mut node = new_node();
    node.init_chain();
    node.commit();
    let before = node.query(&b"counter".to_vec(), &Vec::new()).value;

    let tx = SignedTransaction::new(vec![1, 2], b"nowhere".to_vec(), 0u8, vec![], 7u64);
    let raw = tx.encode();
    let check = node.check_tx(raw.clone());
    assert_eq!(rapido::SERVICE_NOT_FOUND, check.code);
    let deliver = node.deliver_tx(raw);
    assert_eq!(rapido::SERVICE_NOT_FOUND, deliver.code);

    node.commit();
    let after = node.query(&b"counter".to_vec(), &Vec::new()).value;
    assert_eq!(before, after);
}

#[test]
fn malformed_envelope_stages_nothing() {
    let mut node = new_node();
    node.init_chain();
    node.commit();
    let before = node.query(&b"counter".to_vec(), &Vec::new()).value;

    let deliver = node.deliver_tx(vec![0xff, 0x01, 0x02]);
    assert_eq!(rapido::TXERR_SIGNED_TX, deliver.code);
    let check = node.check_tx(Vec::new());
    assert_eq!(rapido::TXERR_SIGNED_TX, check.code);

    node.commit();
    let after = node.query(&b"counter".to_vec(), &Vec::new()).value;
    assert_eq!(before, after);
}

#[test]
fn undecodable_service_tx_is_rejected() {
    let mut node = new_node();
    node.init_chain();
    node.commit();

    let tx = SignedTransaction::new(vec![], b"counter".to_vec(), 9u8, vec![], 0u64);
    let deliver = node.deliver_tx(tx.encode());
    assert_eq!(rapido::TXERR_DECODE_TX, deliver.code);

    node.commit();
    let count = node.query(&b"counter".to_vec(), &Vec::new()).value;
    assert_eq!(count_bytes(0), count);
}

#[test]
fn height_advances_once_per_commit() {
    let mut node = new_node();
    node.init_chain();
    node.commit();
    let (h1, hash1) = node.info();
    assert_eq!(1, h1);

    node.deliver_tx(send_tx());
    node.commit();
    let (h2, hash2) = node.info();
    assert_eq!(2, h2);
    assert_ne!(hash1, hash2);

    // An empty block still advances the height by one; the proof table is
    // unchanged, so the app hash stays what it was.
    node.commit();
    let (h3, hash3) = node.info();
    assert_eq!(3, h3);
    assert_eq!(hash2, hash3);
    let count = node.query(&b"counter".to_vec(), &Vec::new()).value;
    assert_eq!(count_bytes(1), count);
}

#[test]
fn queries_are_idempotent() {
    let mut node = new_node();
    node.init_chain();
    node.deliver_tx(send_tx());
    node.commit();

    let first = node.query(&b"counter".to_vec(), &Vec::new());
    let second = node.query(&b"counter".to_vec(), &Vec::new());
    assert_eq!(first.code, second.code);
    assert_eq!(first.value, second.value);

    let key = rapido::appstate::make_pt_query_key(&b"counter".to_vec(), 0);
    let p1 = node.query(&b"rapphash/".to_vec(), &key);
    let p2 = node.query(&b"rapphash/".to_vec(), &key);
    assert_eq!(p1.code, p2.code);
    assert_eq!(p1.value, p2.value);
}

#[test]
fn reported_hashes_round_trip_through_proof_table() {
    let mut node = new_node();
    node.init_chain();
    node.deliver_tx(send_tx());
    node.commit();

    // The counter reported its count bytes as the hash at index 0.
    let key = rapido::appstate::make_pt_query_key(&b"counter".to_vec(), 0);
    let resp = node.query(&b"rapphash/".to_vec(), &key);
    assert_eq!(0u32, resp.code);
    assert_eq!(count_bytes(1), resp.value);

    // An absent entry fails with the proof-table error.
    let bad = rapido::appstate::make_pt_query_key(&b"counter".to_vec(), 5);
    let resp = node.query(&b"rapphash/".to_vec(), &bad);
    assert_eq!(rapido::QUERYERR_PROOF_TABLE, resp.code);

    // A key that does not decode fails the same way.
    let resp = node.query(&b"rapphash/".to_vec(), &vec![1, 2, 3]);
    assert_eq!(rapido::QUERYERR_PROOF_TABLE, resp.code);
}

#[test]
fn replay_is_deterministic() {
    let run = || {
        let mut node = new_node();
        node.init_chain();
        let mut hashes = Vec::new();
        hashes.push(node.commit());
        node.deliver_tx(send_tx());
        hashes.push(node.commit());
        node.deliver_tx(send_tx());
        node.deliver_tx(send_tx());
        hashes.push(node.commit());
        hashes
    };
    assert_eq!(run(), run());
}

#[test]
fn query_path_conventions() {
    let mut node = new_node();
    node.init_chain();
    node.commit();

    // Without a separator the whole path is the route and the subpath
    // defaults to the bare separator: this convention is permitted and
    // documented at the parser.
    let resp = node.query(&b"counter".to_vec(), &Vec::new());
    assert_eq!(0u32, resp.code);

    // A separator at position zero leaves an empty route: rejected.
    let resp = node.query(&b"/counter".to_vec(), &Vec::new());
    assert_eq!(rapido::QUERYERR_NO_ROUTE, resp.code);

    // An empty path is rejected.
    let resp = node.query(&Vec::new(), &Vec::new());
    assert_eq!(rapido::QUERYERR_NO_ROUTE, resp.code);
}

#[test]
fn first_registration_wins() {
    /// A second service that claims the same route but rejects everything.
    struct Impostor;
    impl Service for Impostor {
        fn route(&self) -> Vec<u8> {
            b"counter".to_vec()
        }
        fn decode_tx(&self, _txid: u8, _payload: &Vec<u8>) -> bool {
            false
        }
        fn execute(
            &self,
            _sender: &Vec<u8>,
            _txid: u8,
            _payload: &Vec<u8>,
            _fork: &mut Fork<'_>,
        ) -> TxResult {
            TxResult {
                code: 99,
                log: String::new(),
                data: Vec::new(),
                events: Vec::new(),
            }
        }
        fn genesis(&self, _fork: &mut Fork<'_>, _data: &Option<Vec<u8>>) -> TxResult {
            TxResult {
                code: 99,
                log: String::new(),
                data: Vec::new(),
                events: Vec::new(),
            }
        }
        fn query(&self, _path: &Vec<u8>, _key: &Vec<u8>, _snapshot: &Store) -> QueryResult {
            QueryResult {
                code: 99,
                value: Vec::new(),
                log: String::new(),
            }
        }
        fn store_hashes(&self, _snapshot: &Store) -> Vec<Vec<u8>> {
            Vec::new()
        }
    }

    enum Either {
        Counter(CounterExample),
        Other(Impostor),
    }
    impl Service for Either {
        fn route(&self) -> Vec<u8> {
            match self {
                Either::Counter(s) => s.route(),
                Either::Other(s) => s.route(),
            }
        }
        fn decode_tx(&self, txid: u8, payload: &Vec<u8>) -> bool {
            match self {
                Either::Counter(s) => s.decode_tx(txid, payload),
                Either::Other(s) => s.decode_tx(txid, payload),
            }
        }
        fn execute(
            &self,
            sender: &Vec<u8>,
            txid: u8,
            payload: &Vec<u8>,
            fork: &mut Fork<'_>,
        ) -> TxResult {
            match self {
                Either::Counter(s) => s.execute(sender, txid, payload, fork),
                Either::Other(s) => s.execute(sender, txid, payload, fork),
            }
        }
        fn genesis(&self, fork: &mut Fork<'_>, data: &Option<Vec<u8>>) -> TxResult {
            match self {
                Either::Counter(s) => s.genesis(fork, data),
                Either::Other(s) => s.genesis(fork, data),
            }
        }
        fn query(&self, path: &Vec<u8>, key: &Vec<u8>, snapshot: &Store) -> QueryResult {
            match self {
                Either::Counter(s) => s.query(path, key, snapshot),
                Either::Other(s) => s.query(path, key, snapshot),
            }
        }
        fn store_hashes(&self, snapshot: &Store) -> Vec<Vec<u8>> {
            match self {
                Either::Counter(s) => s.store_hashes(snapshot),
                Either::Other(s) => s.store_hashes(snapshot),
            }
        }
    }

    let mut node = AppBuilder::<Either, NoValidation>::new(Store::new())
        .add_service(Either::Counter(CounterExample {}))
        .add_service(Either::Other(Impostor))
        .finish();
    node.init_chain();
    node.commit();
    let resp = node.deliver_tx(send_tx());
    assert_eq!(0u32, resp.code);
}

#[test]
fn validation_handler_is_consulted() {
    struct RejectAll;
    impl ValidateTxHandler for RejectAll {
        fn validate_tx(&self, _tx: &SignedTransaction, _snapshot: &Store) -> TxResult {
            TxResult {
                code: 42,
                log: String::new(),
                data: Vec::new(),
                events: Vec::new(),
            }
        }
    }

    let mut node = AppBuilder::<CounterExample, RejectAll>::new(Store::new())
        .add_service(CounterExample {})
        .set_validation_handler(RejectAll)
        .finish();
    node.init_chain();
    node.commit();

    let check = node.check_tx(send_tx());
    assert_eq!(42, check.code);

    // Delivery is unaffected by the admission policy.
    let deliver = node.deliver_tx(send_tx());
    assert_eq!(0, deliver.code);
}

#[test]
fn cold_start_reports_genesis_state() {
    let mut node = new_node();
    let (height, hash) = node.info();
    assert_eq!(0, height);
    assert!(hash.is_empty());
}

#[test]
fn genesis_data_reaches_services() {
    struct GenesisEcho;
    impl Service for GenesisEcho {
        fn route(&self) -> Vec<u8> {
            b"echo".to_vec()
        }
        fn decode_tx(&self, _txid: u8, _payload: &Vec<u8>) -> bool {
            true
        }
        fn execute(
            &self,
            _sender: &Vec<u8>,
            _txid: u8,
            _payload: &Vec<u8>,
            _fork: &mut Fork<'_>,
        ) -> TxResult {
            TxResult {
                code: 0,
                log: String::new(),
                data: Vec::new(),
                events: Vec::new(),
            }
        }
        fn genesis(&self, fork: &mut Fork<'_>, data: &Option<Vec<u8>>) -> TxResult {
            if let Some(d) = data {
                fork.put(&b"genesis".to_vec(), d.clone());
            }
            TxResult {
                code: 0,
                log: String::new(),
                data: Vec::new(),
                events: Vec::new(),
            }
        }
        fn query(&self, _path: &Vec<u8>, _key: &Vec<u8>, snapshot: &Store) -> QueryResult {
            match snapshot.get(&b"genesis".to_vec()) {
                Some(v) => QueryResult {
                    code: 0,
                    value: v,
                    log: String::new(),
                },
                None => QueryResult {
                    code: 1,
                    value: Vec::new(),
                    log: String::new(),
                },
            }
        }
        fn store_hashes(&self, _snapshot: &Store) -> Vec<Vec<u8>> {
            vec![vec![7]]
        }
    }

    let mut node = AppBuilder::<GenesisEcho, NoValidation>::new(Store::new())
        .add_service(GenesisEcho)
        .set_genesis_data(b"hello".to_vec())
        .finish();
    node.init_chain();
    node.commit();
    let resp = node.query(&b"echo".to_vec(), &Vec::new());
    assert_eq!(0, resp.code);
    assert_eq!(b"hello".to_vec(), resp.value);
}

#[test]
fn empty_genesis_data_is_treated_as_none() {
    let builder = AppBuilder::<CounterExample, NoValidation>::new(Store::new())
        .add_service(CounterExample {})
        .set_genesis_data(Vec::new());
    assert!(builder.genesis_data.is_none());

    let builder = AppBuilder::<CounterExample, NoValidation>::new(Store::new())
        .add_service(CounterExample {})
        .set_genesis_data(vec![1]);
    assert!(builder.genesis_data.is_some());
}
