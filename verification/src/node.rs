//! The node: the ABCI state machine.
//!
//! It owns the registry of services, the store, the in-flight block's pending
//! patches, and the cached app state, and it is driven strictly sequentially
//! by the consensus engine: info, init-chain, then per block check-tx or
//! deliver-tx and a final commit, with queries in between.

use vstd::prelude::*;

use crate::appstate::{
    apply_commit, get_commit_info, get_service_hash, spec_commit_apply, spec_commit_info,
    spec_get_service_hash, spec_root, spec_stage, AppState, SpecAppState,
};
use crate::codec::{decode_signed_tx, spec_decode_tx};
use crate::kv::kv_apply;
use crate::service::{QueryResult, Service, TxResult, ValidateTxHandler};
use crate::store::{bytes_eq, bytes_range, clone_bytes, Patch, Store};
use crate::{
    QUERYERR_NO_ROUTE, QUERYERR_PROOF_TABLE, SERVICE_NOT_FOUND, TXERR_DECODE_TX, TXERR_SIGNED_TX,
};

verus! {

/// The byte that separates the route from the service subpath in a query
/// path.
pub const QUERY_PATH_SEPARATOR: u8 = 0x2f;

/// The reserved route of proof-table queries, the bytes of `rapphash`.
pub open spec fn reserved_app_hash_route() -> Seq<u8> {
    seq![0x72u8, 0x61u8, 0x70u8, 0x70u8, 0x68u8, 0x61u8, 0x73u8, 0x68u8]
}

/// Build the reserved proof-table route name.
pub fn make_app_hash_route() -> (r: Vec<u8>)
    ensures
        r@ == reserved_app_hash_route(),
{
    let mut r: Vec<u8> = Vec::new();
    r.push(0x72);
    r.push(0x61);
    r.push(0x70);
    r.push(0x70);
    r.push(0x68);
    r.push(0x61);
    r.push(0x73);
    r.push(0x68);
    proof {
        assert(r@ =~= reserved_app_hash_route());
    }
    r
}

/// The position of the first separator at or after `i`, if any.
pub open spec fn spec_find_sep(s: Seq<u8>, i: int) -> Option<int>
    decreases s.len() - i,
{
    if i < 0 || i >= s.len() {
        None
    } else if s[i] == QUERY_PATH_SEPARATOR {
        Some(i)
    } else {
        spec_find_sep(s, i + 1)
    }
}

/// Split a query path into route and subpath.
///
/// The route is everything before the first separator; the subpath is the
/// remainder, separator included.  A path without any separator is
/// explicitly permitted: it names the route alone and carries the default
/// subpath consisting of one separator.  An empty path, or a separator at
/// position zero (an empty route), is rejected.
pub open spec fn spec_parse_query_path(s: Seq<u8>) -> Option<(Seq<u8>, Seq<u8>)> {
    match spec_find_sep(s, 0) {
        Some(i) => if i == 0 {
            None
        } else {
            Some((s.subrange(0, i), s.subrange(i, s.len() as int)))
        },
        None => if s.len() == 0 {
            None
        } else {
            Some((s, seq![QUERY_PATH_SEPARATOR]))
        },
    }
}

/// Split a query path into `(route, subpath)` as [`spec_parse_query_path`]
/// says, or nothing where the path holds no usable route.
pub fn parse_abci_query_path(req_path: &Vec<u8>) -> (r: Option<(Vec<u8>, Vec<u8>)>)
    ensures
        match r {
            Some(p) => spec_parse_query_path(req_path@) == Some((p.0@, p.1@)),
            None => spec_parse_query_path(req_path@) is None,
        },
{
    let n = req_path.len();
    let mut i: usize = 0;
    while i < n
        invariant
            i <= n,
            n == req_path@.len(),
            spec_find_sep(req_path@, 0) == spec_find_sep(req_path@, i as int),
            forall|j: int| 0 <= j < i ==> req_path@[j] != QUERY_PATH_SEPARATOR,
        decreases n - i,
    {
        if req_path[i] == QUERY_PATH_SEPARATOR {
            if i == 0 {
                return None;
            }
            let route = bytes_range(req_path, 0, i);
            let sub = bytes_range(req_path, i, n);
            return Some((route, sub));
        }
        i += 1;
    }
    if n == 0 {
        return None;
    }
    let route = clone_bytes(req_path);
    let mut sub: Vec<u8> = Vec::new();
    sub.push(QUERY_PATH_SEPARATOR);
    proof {
        assert(route@ =~= req_path@.subrange(0, req_path@.len() as int));
        assert(sub@ =~= seq![QUERY_PATH_SEPARATOR]);
    }
    Some((route, sub))
}

/// Apply a block's pending patches to the committed state, in block order.
pub open spec fn spec_apply_patches(
    entries: Seq<(Seq<u8>, Seq<u8>)>,
    patches: Seq<Seq<(Seq<u8>, Seq<u8>)>>,
) -> Seq<(Seq<u8>, Seq<u8>)>
    decreases patches.len(),
{
    if patches.len() == 0 {
        entries
    } else {
        spec_apply_patches(kv_apply(entries, patches.first()), patches.drop_first())
    }
}

/// The route names of a registry's entries, in order.
pub open spec fn routes_of<S>(entries: Seq<(Vec<u8>, S)>) -> Seq<Seq<u8>> {
    Seq::new(entries.len(), |i: int| entries[i].0@)
}

/// The first-registration-wins registry of a sequence of route names, from
/// name `i` on: a name joins the registry only if it is not there yet.
pub open spec fn spec_register_from(acc: Seq<Seq<u8>>, names: Seq<Seq<u8>>, i: int) -> Seq<
    Seq<u8>,
>
    decreases names.len() - i,
{
    if 0 <= i && i < names.len() {
        if acc.contains(names[i]) {
            spec_register_from(acc, names, i + 1)
        } else {
            spec_register_from(acc.push(names[i]), names, i + 1)
        }
    } else {
        acc
    }
}

/// Registering one more name at the end takes one more first-wins step.
proof fn lemma_register_step(acc: Seq<Seq<u8>>, names: Seq<Seq<u8>>, i: int, name: Seq<u8>)
    requires
        0 <= i <= names.len(),
    ensures
        spec_register_from(acc, names.push(name), i) == ({
            let m = spec_register_from(acc, names, i);
            if m.contains(name) {
                m
            } else {
                m.push(name)
            }
        }),
    decreases names.len() - i,
{
    let p = names.push(name);
    if i < names.len() {
        assert(p[i] == names[i]);
        if acc.contains(names[i]) {
            lemma_register_step(acc, names, i + 1, name);
        } else {
            lemma_register_step(acc.push(names[i]), names, i + 1, name);
        }
    } else {
        assert(p[i] == name);
        assert(spec_register_from(acc, p, i + 1) == acc);
        assert(spec_register_from(acc.push(name), p, i + 1) == acc.push(name));
        assert(spec_register_from(acc, names, i) == acc);
    }
}

/// Use the builder to assemble an application: hand it the store, the
/// services, and optionally a validation handler and genesis payload, then
/// call `finish`.
pub struct AppBuilder<S: Service, V: ValidateTxHandler> {
    pub db: Store,
    pub services: Vec<S>,
    pub validate_tx_handler: Option<V>,
    pub genesis_data: Option<Vec<u8>>,
}

impl<S: Service, V: ValidateTxHandler> AppBuilder<S, V> {
    /// A builder over the given store, with nothing registered yet.
    pub fn new(db: Store) -> (r: AppBuilder<S, V>)
        ensures
            r.db == db,
            r.services@ == Seq::<S>::empty(),
            r.validate_tx_handler is None,
            r.genesis_data is None,
    {
        let r = AppBuilder {
            db,
            services: Vec::new(),
            validate_tx_handler: None,
            genesis_data: None,
        };
        proof {
            assert(r.services@ =~= Seq::<S>::empty());
        }
        r
    }

    /// Set the genesis payload handed to every service at init-chain; an
    /// empty payload is treated as none.
    pub fn set_genesis_data(self, data: Vec<u8>) -> (r: AppBuilder<S, V>)
        ensures
            r.db == self.db,
            r.services == self.services,
            r.validate_tx_handler == self.validate_tx_handler,
            data@.len() > 0 ==> r.genesis_data == Some(data),
            data@.len() == 0 ==> r.genesis_data == self.genesis_data,
    {
        let mut r = self;
        if data.len() > 0 {
            r.genesis_data = Some(data);
        }
        r
    }

    /// Set the check-tx admission policy; when unset, check-tx approves by
    /// default.
    pub fn set_validation_handler(self, handler: V) -> (r: AppBuilder<S, V>)
        ensures
            r.db == self.db,
            r.services == self.services,
            r.validate_tx_handler == Some(handler),
            r.genesis_data == self.genesis_data,
    {
        let mut r = self;
        r.validate_tx_handler = Some(handler);
        r
    }

    /// Add a service to the application.
    pub fn add_service(self, handler: S) -> (r: AppBuilder<S, V>)
        ensures
            r.db == self.db,
            r.services@ == self.services@.push(handler),
            r.validate_tx_handler == self.validate_tx_handler,
            r.genesis_data == self.genesis_data,
    {
        let mut r = self;
        r.services.push(handler);
        r
    }

    /// Return the configured node, consuming the builder.  At least one
    /// service must have been added.
    pub fn finish(self) -> (r: Node<S, V>)
        requires
            self.services@.len() > 0,
        ensures
            r.wf(),
            r.store_view() == self.db@,
            r.app_state_view() == (SpecAppState { height: 0, hash: Seq::<u8>::empty() }),
            r.pending() == Seq::<Seq<(Seq<u8>, Seq<u8>)>>::empty(),
            r.validation_view() == self.validate_tx_handler,
            r.genesis_view() == (match self.genesis_data {
                Some(d) => Some(d@),
                None => None::<Seq<u8>>,
            }),
            exists|names: Seq<Seq<u8>>|
                names.len() == self.services@.len() && r.routes() == spec_register_from(
                    Seq::empty(),
                    names,
                    0,
                ),
    {
        Node::new(self)
    }
}

/// The ABCI state machine: owns the registry, the store, the pending patches
/// of the block in flight, and the cached app state.
pub struct Node<S: Service, V: ValidateTxHandler> {
    db: Store,
    app_state: AppState,
    services: Vec<(Vec<u8>, S)>,
    commit_patches: Vec<Patch>,
    validate_tx_handler: Option<V>,
    genesis_data: Option<Vec<u8>>,
}

impl<S: Service, V: ValidateTxHandler> Node<S, V> {
    /// The committed store contents.
    pub closed spec fn store_view(self) -> Seq<(Seq<u8>, Seq<u8>)> {
        self.db@
    }

    /// The cached app state.
    pub closed spec fn app_state_view(self) -> SpecAppState {
        self.app_state@
    }

    /// The registered routes, in registration order.
    pub closed spec fn routes(self) -> Seq<Seq<u8>> {
        Seq::new(self.services@.len(), |i: int| self.services@[i].0@)
    }

    /// The pending patches of the block in flight, in delivery order.
    pub closed spec fn pending(self) -> Seq<Seq<(Seq<u8>, Seq<u8>)>> {
        Seq::new(self.commit_patches@.len(), |i: int| self.commit_patches@[i]@)
    }

    /// The configured check-tx admission policy, if any.
    pub closed spec fn validation_view(self) -> Option<V> {
        self.validate_tx_handler
    }

    /// Whether a check-tx admission policy is configured.
    pub open spec fn has_validation(self) -> bool {
        self.validation_view() is Some
    }

    /// The genesis payload, if one was configured.
    pub closed spec fn genesis_view(self) -> Option<Seq<u8>> {
        match self.genesis_data {
            Some(d) => Some(d@),
            None => None,
        }
    }

    /// Registered routes are pairwise distinct: first registration won.
    pub open spec fn wf(self) -> bool {
        forall|i: int, j: int|
            0 <= i < j < self.routes().len() ==> self.routes()[i] != self.routes()[j]
    }

    /// The cached height of the last committed block.
    pub fn height(&self) -> (h: u64)
        ensures
            h == self.app_state_view().height,
    {
        self.app_state.height
    }

    /// The index of the service registered under `route`, if any.
    fn find_service(&self, route: &Vec<u8>) -> (r: Option<usize>)
        ensures
            match r {
                Some(i) => i < self.routes().len() && self.routes()[i as int] == route@,
                None => !self.routes().contains(route@),
            },
    {
        let mut i: usize = 0;
        while i < self.services.len()
            invariant
                i <= self.services.len(),
                forall|j: int| 0 <= j < i ==> self.routes()[j] != route@,
            decreases self.services.len() - i,
        {
            if bytes_eq(&self.services[i].0, route) {
                return Some(i);
            }
            i += 1;
        }
        proof {
            assert(forall|j: int| 0 <= j < self.routes().len() ==> self.routes()[j] != route@);
        }
        None
    }

    /// Build the node from a finished builder: register every service under
    /// its route, first registration first and duplicates silently dropped,
    /// with an empty pending list and the genesis app state.
    pub fn new(config: AppBuilder<S, V>) -> (r: Node<S, V>)
        ensures
            r.wf(),
            r.store_view() == config.db@,
            r.app_state_view() == (SpecAppState { height: 0, hash: Seq::<u8>::empty() }),
            r.pending() == Seq::<Seq<(Seq<u8>, Seq<u8>)>>::empty(),
            r.validation_view() == config.validate_tx_handler,
            r.genesis_view() == (match config.genesis_data {
                Some(d) => Some(d@),
                None => None::<Seq<u8>>,
            }),
            exists|names: Seq<Seq<u8>>|
                names.len() == config.services@.len() && r.routes() == spec_register_from(
                    Seq::empty(),
                    names,
                    0,
                ),
    {
        let mut incoming = config.services;
        let ghost total = incoming@.len();
        let ghost mut names: Seq<Seq<u8>> = Seq::empty();
        let mut service_map: Vec<(Vec<u8>, S)> = Vec::new();
        while incoming.len() > 0
            invariant
                names.len() + incoming@.len() == total,
                routes_of(service_map@) == spec_register_from(Seq::empty(), names, 0),
                forall|i: int, j: int|
                    0 <= i < j < service_map@.len() ==> service_map@[i].0@ != service_map@[j].0@,
            decreases incoming.len(),
        {
            let s = incoming.remove(0);
            let route = s.route();
            let mut present = false;
            let mut k: usize = 0;
            while k < service_map.len()
                invariant
                    k <= service_map.len(),
                    present == exists|j: int| 0 <= j < k && service_map@[j].0@ == route@,
                decreases service_map.len() - k,
            {
                if bytes_eq(&service_map[k].0, &route) {
                    present = true;
                }
                k += 1;
            }
            proof {
                let m = routes_of(service_map@);
                assert(present == m.contains(route@)) by {
                    if present {
                        let j = choose|j: int|
                            0 <= j < service_map@.len() && service_map@[j].0@ == route@;
                        assert(m[j] == route@);
                    } else {
                        if m.contains(route@) {
                            let j = choose|j: int| 0 <= j < m.len() && m[j] == route@;
                            assert(service_map@[j].0@ == route@);
                        }
                    }
                }
                lemma_register_step(Seq::empty(), names, 0, route@);
                names = names.push(route@);
            }
            if !present {
                let ghost pre = service_map@;
                service_map.push((route, s));
                proof {
                    assert(routes_of(service_map@) =~= routes_of(pre).push(route@));
                }
            }
        }
        let r = Node {
            db: config.db,
            app_state: AppState::default(),
            services: service_map,
            commit_patches: Vec::new(),
            validate_tx_handler: config.validate_tx_handler,
            genesis_data: config.genesis_data,
        };
        proof {
            assert(r.pending() =~= Seq::<Seq<(Seq<u8>, Seq<u8>)>>::empty());
            assert(r.routes() =~= routes_of(r.services@));
            assert(names.len() == total);
        }
        r
    }

    /// Reload the cached app state from the store, so that a restarted node
    /// resumes at the height it last committed, and report it.
    pub fn info(&mut self) -> (r: (u64, Vec<u8>))
        ensures
            final(self).app_state_view() == spec_commit_info(old(self).store_view()),
            r.0 == final(self).app_state_view().height,
            r.1@ == final(self).app_state_view().hash,
            final(self).store_view() == old(self).store_view(),
            final(self).routes() == old(self).routes(),
            final(self).pending() == old(self).pending(),
            final(self).validation_view() == old(self).validation_view(),
            final(self).genesis_view() == old(self).genesis_view(),
            final(self).wf() == old(self).wf(),
    {
        let st = get_commit_info(&self.db);
        self.app_state = st;
        proof {
            assert(self.routes() =~= old(self).routes());
            assert(self.pending() =~= old(self).pending());
        }
        let height = self.app_state.height;
        let hash = clone_bytes(&self.app_state.hash);
        (height, hash)
    }

    /// Run every service's genesis handler, each against a fresh fork of the
    /// store, staging the patch of every handler that succeeded and
    /// discarding the others.  Touches nothing but the pending list.
    pub fn init_chain(&mut self)
        ensures
            final(self).store_view() == old(self).store_view(),
            final(self).app_state_view() == old(self).app_state_view(),
            final(self).routes() == old(self).routes(),
            final(self).validation_view() == old(self).validation_view(),
            final(self).genesis_view() == old(self).genesis_view(),
            final(self).wf() == old(self).wf(),
            exists|ws: Seq<Seq<(Seq<u8>, Seq<u8>)>>|
                final(self).pending() == old(self).pending() + ws && ws.len() <= old(
                    self,
                ).routes().len(),
    {
        let n = self.services.len();
        let ghost mut added: Seq<Seq<(Seq<u8>, Seq<u8>)>> = Seq::empty();
        proof {
            assert(old(self).pending() + added =~= old(self).pending());
        }
        let mut k: usize = 0;
        while k < n
            invariant
                k <= n,
                n == self.services@.len(),
                self.db == old(self).db,
                self.app_state == old(self).app_state,
                self.services == old(self).services,
                self.validate_tx_handler == old(self).validate_tx_handler,
                self.genesis_data == old(self).genesis_data,
                self.pending() == old(self).pending() + added,
                added.len() <= k,
            decreases n - k,
        {
            let mut fork = self.db.fork();
            let result = self.services[k].1.genesis(&mut fork, &self.genesis_data);
            if result.code == 0 {
                let patch = fork.into_patch();
                let ghost pw = patch@;
                let ghost pre_pending = self.pending();
                self.commit_patches.push(patch);
                proof {
                    let added_before = added;
                    added = added.push(pw);
                    assert(self.pending() =~= pre_pending.push(pw));
                    assert(old(self).pending() + added =~= (old(self).pending()
                        + added_before).push(pw));
                    assert(self.routes() =~= old(self).routes());
                }
            }
            k += 1;
        }
    }

    /// The shared transaction pipeline behind check-tx and deliver-tx.
    ///
    /// Decode the envelope, resolve the service, and either judge the
    /// transaction against a read-only snapshot (check) or execute it on a
    /// fresh fork (deliver), staging the fork's patch exactly when the
    /// result code is zero.
    fn run_tx(&mut self, is_check: bool, raw_tx: Vec<u8>) -> (r: TxResult)
        ensures
            final(self).store_view() == old(self).store_view(),
            final(self).app_state_view() == old(self).app_state_view(),
            final(self).routes() == old(self).routes(),
            final(self).validation_view() == old(self).validation_view(),
            final(self).genesis_view() == old(self).genesis_view(),
            final(self).wf() == old(self).wf(),
            is_check ==> *final(self) == *old(self),
            spec_decode_tx(raw_tx@) is None ==> r.code == TXERR_SIGNED_TX && final(self).pending()
                == old(self).pending(),
            (spec_decode_tx(raw_tx@) matches Some(t) && !old(self).routes().contains(t.route))
                ==> r.code == SERVICE_NOT_FOUND && final(self).pending() == old(self).pending(),
            (spec_decode_tx(raw_tx@) matches Some(t) && is_check && old(self).routes().contains(
                t.route,
            ) && !old(self).has_validation()) ==> r.code == 0,
            !is_check && r.code == 0 ==> (exists|w: Seq<(Seq<u8>, Seq<u8>)>|
                final(self).pending() == old(self).pending().push(w)),
            !is_check && r.code != 0 ==> final(self).pending() == old(self).pending(),
    {
        let tx = match decode_signed_tx(&raw_tx) {
            Some(tx) => tx,
            None => {
                return TxResult::error(TXERR_SIGNED_TX, "could not parse the signed transaction");
            },
        };
        let idx = match self.find_service(&tx.route) {
            Some(i) => i,
            None => {
                return TxResult::error(SERVICE_NOT_FOUND, "no service found for the route");
            },
        };
        if is_check {
            let r = match &self.validate_tx_handler {
                Some(handler) => handler.validate_tx(&tx, &self.db),
                None => TxResult::ok(),
            };
            return r;
        }
        let mut fork = self.db.fork();
        if !self.services[idx].1.decode_tx(tx.txid, &tx.payload) {
            return TxResult::error(TXERR_DECODE_TX, "could not decode the transaction");
        }
        let result = self.services[idx].1.execute(&tx.sender, tx.txid, &tx.payload, &mut fork);
        if result.code == 0 {
            let patch = fork.into_patch();
            let ghost pw = patch@;
            self.commit_patches.push(patch);
            proof {
                assert(self.pending() =~= old(self).pending().push(pw));
                assert(self.routes() =~= old(self).routes());
            }
        }
        result
    }

    /// Mempool admission: purely advisory, read-only, judged against the
    /// last committed state; an unknown route fails, and without a
    /// configured policy everything else is approved.
    pub fn check_tx(&mut self, raw_tx: Vec<u8>) -> (r: TxResult)
        ensures
            *final(self) == *old(self),
            spec_decode_tx(raw_tx@) is None ==> r.code == TXERR_SIGNED_TX,
            (spec_decode_tx(raw_tx@) matches Some(t) && !old(self).routes().contains(t.route))
                ==> r.code == SERVICE_NOT_FOUND,
            (spec_decode_tx(raw_tx@) matches Some(t) && old(self).routes().contains(t.route)
                && !old(self).has_validation()) ==> r.code == 0,
    {
        self.run_tx(true, raw_tx)
    }

    /// Execute one ordered transaction of the block in flight: on success
    /// its patch joins the pending list, on any failure the fork is
    /// discarded whole and nothing else changes.
    ///
    /// Each transaction's fork is taken against the last merged state, by
    /// design: transactions within one block do not observe each other's
    /// writes until commit merges the staged patches in delivery order.
    pub fn deliver_tx(&mut self, raw_tx: Vec<u8>) -> (r: TxResult)
        ensures
            final(self).store_view() == old(self).store_view(),
            final(self).app_state_view() == old(self).app_state_view(),
            final(self).routes() == old(self).routes(),
            final(self).validation_view() == old(self).validation_view(),
            final(self).genesis_view() == old(self).genesis_view(),
            final(self).wf() == old(self).wf(),
            spec_decode_tx(raw_tx@) is None ==> r.code == TXERR_SIGNED_TX && final(self).pending()
                == old(self).pending(),
            (spec_decode_tx(raw_tx@) matches Some(t) && !old(self).routes().contains(t.route))
                ==> r.code == SERVICE_NOT_FOUND && final(self).pending() == old(self).pending(),
            r.code == 0 ==> exists|w: Seq<(Seq<u8>, Seq<u8>)>|
                final(self).pending() == old(self).pending().push(w),
            r.code != 0 ==> final(self).pending() == old(self).pending(),
    {
        self.run_tx(false, raw_tx)
    }

    /// A slot for future validator-set logic; deliberately does nothing.
    pub fn begin_block(&self) {
    }

    /// A slot for future validator-set logic; deliberately does nothing.
    pub fn end_block(&self) {
    }

    /// Commit the block in flight: merge every pending patch in delivery
    /// order, collect every service's reported hashes into the proof table,
    /// derive the new app hash, advance the height by one, persist the
    /// app-state record, and clear the pending list.  Returns the new app
    /// hash.
    pub fn commit(&mut self) -> (r: Vec<u8>)
        requires
            old(self).app_state_view().height < u64::MAX,
        ensures
            final(self).routes() == old(self).routes(),
            final(self).validation_view() == old(self).validation_view(),
            final(self).genesis_view() == old(self).genesis_view(),
            final(self).wf() == old(self).wf(),
            final(self).pending() == Seq::<Seq<(Seq<u8>, Seq<u8>)>>::empty(),
            final(self).app_state_view().height == old(self).app_state_view().height + 1,
            final(self).app_state_view().hash == r@,
            exists|reports: Seq<(Seq<u8>, Seq<Seq<u8>>)>|
                {
                    &&& reports.len() == old(self).routes().len()
                    &&& (forall|k: int|
                        0 <= k < reports.len() ==> (#[trigger] reports[k]).0 == old(
                            self,
                        ).routes()[k])
                    &&& final(self).store_view() == spec_commit_apply(
                        spec_apply_patches(old(self).store_view(), old(self).pending()),
                        reports,
                        (old(self).app_state_view().height + 1) as u64,
                    )
                    &&& r@ == spec_root(
                        spec_stage(
                            spec_apply_patches(old(self).store_view(), old(self).pending()),
                            reports,
                            0,
                        ),
                    )
                },
    {
        let n = self.commit_patches.len();
        let mut i: usize = 0;
        proof {
            assert(old(self).pending().skip(0) =~= old(self).pending());
        }
        while i < n
            invariant
                i <= n,
                n == self.commit_patches@.len(),
                self.app_state == old(self).app_state,
                self.services == old(self).services,
                self.commit_patches == old(self).commit_patches,
                self.validate_tx_handler == old(self).validate_tx_handler,
                self.genesis_data == old(self).genesis_data,
                spec_apply_patches(self.db@, old(self).pending().skip(i as int))
                    == spec_apply_patches(old(self).store_view(), old(self).pending()),
            decreases n - i,
        {
            let ghost pre = self.db@;
            self.db.merge(&self.commit_patches[i]);
            proof {
                let rest = old(self).pending().skip(i as int);
                assert(rest.first() == old(self).pending()[i as int]);
                assert(rest.drop_first() =~= old(self).pending().skip(i + 1));
                assert(old(self).pending()[i as int] == self.commit_patches@[i as int]@);
                assert(spec_apply_patches(pre, rest) == spec_apply_patches(
                    kv_apply(pre, rest.first()),
                    rest.drop_first(),
                ));
            }
            i += 1;
        }
        proof {
            assert(old(self).pending().skip(n as int) =~= Seq::<Seq<(Seq<u8>, Seq<u8>)>>::empty());
        }
        self.commit_patches.clear();
        let ghost merged = self.db@;
        let m = self.services.len();
        let mut reports: Vec<(Vec<u8>, Vec<Vec<u8>>)> = Vec::new();
        let mut k: usize = 0;
        while k < m
            invariant
                k <= m,
                m == self.services@.len(),
                self.db@ == merged,
                self.app_state == old(self).app_state,
                self.services == old(self).services,
                self.commit_patches@.len() == 0,
                self.validate_tx_handler == old(self).validate_tx_handler,
                self.genesis_data == old(self).genesis_data,
                reports@.len() == k,
                forall|j: int| 0 <= j < k ==> (#[trigger] reports@[j]).0@ == self.routes()[j],
            decreases m - k,
        {
            let route_copy = clone_bytes(&self.services[k].0);
            let hashes = self.services[k].1.store_hashes(&self.db);
            reports.push((route_copy, hashes));
            k += 1;
        }
        let height = self.app_state.height;
        let root = apply_commit(&mut self.db, height, &reports);
        let hash_copy = clone_bytes(&root);
        self.app_state = AppState { height: height + 1, hash: hash_copy };
        proof {
            assert(self.routes() =~= old(self).routes());
            let rv = crate::appstate::reports_view(reports@);
            assert(rv.len() == old(self).routes().len());
            assert forall|j: int| 0 <= j < rv.len() implies (#[trigger] rv[j]).0 == old(
                self,
            ).routes()[j] by {
                assert(reports@[j].0@ == old(self).routes()[j]);
            }
            assert(self.pending() =~= Seq::<Seq<(Seq<u8>, Seq<u8>)>>::empty());
            let base = spec_apply_patches(old(self).store_view(), old(self).pending());
            assert(merged == base);
            assert(self.db@ == spec_commit_apply(base, rv, (old(self).app_state_view().height
                + 1) as u64));
            assert(root@ == spec_root(spec_stage(base, rv, 0)));
        }
        root
    }

    /// Route a query.
    ///
    /// The path splits into route and subpath; a path without a usable route
    /// fails.  The reserved app-hash route answers from the proof table: the
    /// key names a `(route, index)` entry and the stored hash comes back, or
    /// the lookup fails.  Every other route goes to the owning service
    /// against a read-only snapshot, whose answer is passed through
    /// verbatim.
    pub fn query(&self, path: &Vec<u8>, key: &Vec<u8>) -> (r: QueryResult)
        ensures
            spec_parse_query_path(path@) is None ==> r.code == QUERYERR_NO_ROUTE,
            (spec_parse_query_path(path@) matches Some(p) && p.0 == reserved_app_hash_route())
                ==> match spec_get_service_hash(self.store_view(), key@) {
                Some(h) => r.code == 0 && r.value@ == h,
                None => r.code == QUERYERR_PROOF_TABLE,
            },
            (spec_parse_query_path(path@) matches Some(p) && p.0 != reserved_app_hash_route()
                && !self.routes().contains(p.0)) ==> r.code == SERVICE_NOT_FOUND,
    {
        let parsed = match parse_abci_query_path(path) {
            Some(p) => p,
            None => {
                return QueryResult::error(
                    QUERYERR_NO_ROUTE,
                    "no query path found; the format is route/apppath",
                );
            },
        };
        let (route, query_path) = parsed;
        let reserved = make_app_hash_route();
        if bytes_eq(&route, &reserved) {
            let r = match get_service_hash(&self.db, key) {
                Some(hash) => QueryResult::ok(hash),
                None => QueryResult::error(
                    QUERYERR_PROOF_TABLE,
                    "no proof-table hash for this key",
                ),
            };
            return r;
        }
        let idx = match self.find_service(&route) {
            Some(i) => i,
            None => {
                return QueryResult::error(SERVICE_NOT_FOUND, "no query service for the route");
            },
        };
        self.services[idx].1.query(&query_path, key, &self.db)
    }
}

} // verus!
