//! The node's own records inside the store: the app-state record and the
//! proof table.
//!
//! Both live under the reserved key space, so no service can reach them.  The
//! app-state record holds the last committed height and app hash.  The proof
//! table maps `(service route, index)` to the hash that service reported for
//! that index at the latest commit; its framed contents, read off in store
//! order, are the app hash.

use vstd::prelude::*;

use vstd::bytes::{
    lemma_auto_spec_u64_to_from_le_bytes, spec_u64_from_le_bytes, spec_u64_to_le_bytes,
    u64_from_le_bytes, u64_to_le_bytes,
};
use vstd::slice::slice_subrange;

use crate::codec::{spec_encode_bytes, spec_read_bytes};
use crate::kv::{kv_get, kv_put};
use crate::store::{append_bytes, bytes_range, clone_bytes, Store, RESERVED_SPACE};

verus! {

/// Second key byte of the app-state record.
pub const APP_STATE_TAG: u8 = 0;

/// Second key byte of every proof-table entry.
pub const PROOF_TABLE_TAG: u8 = 1;

/// The key the app-state record is stored under.
pub open spec fn app_state_key() -> Seq<u8> {
    seq![RESERVED_SPACE, APP_STATE_TAG]
}

/// The key the proof-table entry for `(route, index)` is stored under: the
/// reserved marker and proof-table tag, the length-prefixed route, and the
/// index.
pub open spec fn pt_key(route: Seq<u8>, index: u64) -> Seq<u8> {
    seq![RESERVED_SPACE, PROOF_TABLE_TAG] + spec_u64_to_le_bytes(route.len() as u64) + route
        + spec_u64_to_le_bytes(index)
}

/// Whether a stored key is a proof-table entry.
pub open spec fn is_pt_key(k: Seq<u8>) -> bool {
    k.len() >= 2 && k[0] == RESERVED_SPACE && k[1] == PROOF_TABLE_TAG
}

/// Distinct `(route, index)` pairs have distinct proof-table keys.
pub proof fn lemma_pt_key_injective(r1: Seq<u8>, i1: u64, r2: Seq<u8>, i2: u64)
    requires
        pt_key(r1, i1) == pt_key(r2, i2),
        r1.len() < 0x1_0000_0000_0000_0000,
        r2.len() < 0x1_0000_0000_0000_0000,
    ensures
        r1 == r2,
        i1 == i2,
{
    lemma_auto_spec_u64_to_from_le_bytes();
    let k1 = pt_key(r1, i1);
    let k2 = pt_key(r2, i2);
    assert(k1.len() == 18 + r1.len());
    assert(k2.len() == 18 + r2.len());
    assert(k1.subrange(2, 10) =~= spec_u64_to_le_bytes(r1.len() as u64));
    assert(k2.subrange(2, 10) =~= spec_u64_to_le_bytes(r2.len() as u64));
    assert(spec_u64_from_le_bytes(spec_u64_to_le_bytes(r1.len() as u64)) == r1.len() as u64);
    assert(spec_u64_from_le_bytes(spec_u64_to_le_bytes(r2.len() as u64)) == r2.len() as u64);
    assert(r1.len() == r2.len());
    assert(r1 =~= k1.subrange(10, 10 + r1.len() as int));
    assert(r2 =~= k2.subrange(10, 10 + r2.len() as int));
    assert(r1 == r2);
    assert(k1.subrange(10 + r1.len() as int, k1.len() as int) =~= spec_u64_to_le_bytes(i1));
    assert(k2.subrange(10 + r2.len() as int, k2.len() as int) =~= spec_u64_to_le_bytes(i2));
    assert(spec_u64_from_le_bytes(spec_u64_to_le_bytes(i1)) == i1);
    assert(spec_u64_from_le_bytes(spec_u64_to_le_bytes(i2)) == i2);
}

/// The app-state key is not a proof-table key.
pub proof fn lemma_app_state_key_not_pt()
    ensures
        !is_pt_key(app_state_key()),
        forall|route: Seq<u8>, index: u64| #[trigger] pt_key(route, index) != app_state_key(),
{
    assert forall|route: Seq<u8>, index: u64| #[trigger] pt_key(route, index)
        != app_state_key() by {
        assert(pt_key(route, index)[1] == PROOF_TABLE_TAG);
        assert(app_state_key()[1] == APP_STATE_TAG);
    }
}

/// Build the proof-table key for `(route, index)`.
pub fn make_pt_key(route: &Vec<u8>, index: u64) -> (r: Vec<u8>)
    ensures
        r@ == pt_key(route@, index),
{
    let mut r: Vec<u8> = Vec::new();
    r.push(RESERVED_SPACE);
    r.push(PROOF_TABLE_TAG);
    let len_bytes = u64_to_le_bytes(route.len() as u64);
    append_bytes(&mut r, &len_bytes);
    append_bytes(&mut r, route);
    let idx_bytes = u64_to_le_bytes(index);
    append_bytes(&mut r, &idx_bytes);
    proof {
        assert(r@ =~= pt_key(route@, index));
    }
    r
}

/// Build the app-state record's key.
pub fn make_app_state_key() -> (r: Vec<u8>)
    ensures
        r@ == app_state_key(),
{
    let mut r: Vec<u8> = Vec::new();
    r.push(RESERVED_SPACE);
    r.push(APP_STATE_TAG);
    proof {
        assert(r@ =~= app_state_key());
    }
    r
}

/// The mathematical contents of the app-state record.
pub ghost struct SpecAppState {
    pub height: u64,
    pub hash: Seq<u8>,
}

/// The application's view of the last committed block: its height and the
/// app hash it produced.  A fresh chain starts at height zero with an empty
/// hash.
pub struct AppState {
    pub height: u64,
    pub hash: Vec<u8>,
}

impl View for AppState {
    type V = SpecAppState;

    open spec fn view(&self) -> SpecAppState {
        SpecAppState { height: self.height, hash: self.hash@ }
    }
}

impl Default for AppState {
    /// The genesis app state: height zero, empty hash.
    fn default() -> (r: AppState)
        ensures
            r@ == (SpecAppState { height: 0, hash: Seq::<u8>::empty() }),
    {
        let r = AppState { height: 0, hash: Vec::new() };
        proof {
            assert(r@.hash =~= Seq::<u8>::empty());
        }
        r
    }
}

/// The record's byte form: the height, then the hash.
pub open spec fn spec_encode_app_state(s: SpecAppState) -> Seq<u8> {
    spec_u64_to_le_bytes(s.height) + s.hash
}

/// Read a record back; bytes that hold no height fall back to the genesis
/// state.
pub open spec fn spec_decode_app_state(b: Seq<u8>) -> SpecAppState {
    if b.len() >= 8 {
        SpecAppState {
            height: spec_u64_from_le_bytes(b.subrange(0, 8)),
            hash: b.subrange(8, b.len() as int),
        }
    } else {
        SpecAppState { height: 0, hash: Seq::empty() }
    }
}

/// The app state a store holds: the decoded record, or the genesis state
/// where none was written yet.
pub open spec fn spec_commit_info(entries: Seq<(Seq<u8>, Seq<u8>)>) -> SpecAppState {
    match kv_get(entries, app_state_key()) {
        Some(b) => spec_decode_app_state(b),
        None => SpecAppState { height: 0, hash: Seq::empty() },
    }
}

/// The record codec round-trips.
pub proof fn lemma_app_state_round_trip(s: SpecAppState)
    ensures
        spec_decode_app_state(spec_encode_app_state(s)) == s,
{
    lemma_auto_spec_u64_to_from_le_bytes();
    let e = spec_encode_app_state(s);
    assert(e.subrange(0, 8) =~= spec_u64_to_le_bytes(s.height));
    assert(e.subrange(8, e.len() as int) =~= s.hash);
}

/// Serialize the app-state record.
pub fn encode_app_state(state: &AppState) -> (r: Vec<u8>)
    ensures
        r@ == spec_encode_app_state(state@),
{
    let mut r = u64_to_le_bytes(state.height);
    append_bytes(&mut r, &state.hash);
    r
}

/// Read the app-state record from a snapshot of the store; a store that holds
/// none yields the genesis state, which is what a cold start resumes from.
pub fn get_commit_info(snapshot: &Store) -> (r: AppState)
    ensures
        r@ == spec_commit_info(snapshot@),
{
    let key = make_app_state_key();
    match snapshot.raw_get(&key) {
        Some(b) => {
            if b.len() >= 8 {
                let height = u64_from_le_bytes(slice_subrange(b.as_slice(), 0, 8));
                let hash = bytes_range(&b, 8, b.len());
                AppState { height, hash }
            } else {
                AppState::default()
            }
        },
        None => AppState::default(),
    }
}

/// What the reserved proof-table query key `(length-prefixed route, index)`
/// decodes to.
pub open spec fn spec_decode_pt_query(k: Seq<u8>) -> Option<(Seq<u8>, u64)> {
    match spec_read_bytes(k, 0) {
        None => None,
        Some((route, p)) => if p + 8 == k.len() {
            Some((route, spec_u64_from_le_bytes(k.subrange(p, p + 8))))
        } else {
            None
        },
    }
}

/// The stored hash a proof-table query key names, if both the key decodes
/// and the table holds the entry.
pub open spec fn spec_get_service_hash(entries: Seq<(Seq<u8>, Seq<u8>)>, k: Seq<u8>) -> Option<
    Seq<u8>,
> {
    match spec_decode_pt_query(k) {
        None => None,
        Some((route, index)) => kv_get(entries, pt_key(route, index)),
    }
}

/// Build the query key that names the proof-table entry `(route, index)`.
pub fn make_pt_query_key(route: &Vec<u8>, index: u64) -> (r: Vec<u8>)
    requires
        route@.len() < 0x1_0000_0000,
    ensures
        r@ == spec_encode_bytes(route@) + spec_u64_to_le_bytes(index),
        spec_decode_pt_query(r@) == Some((route@, index)),
{
    let len_bytes = vstd::bytes::u32_to_le_bytes(route.len() as u32);
    let mut r: Vec<u8> = Vec::new();
    append_bytes(&mut r, &len_bytes);
    append_bytes(&mut r, route);
    let idx_bytes = u64_to_le_bytes(index);
    append_bytes(&mut r, &idx_bytes);
    proof {
        vstd::bytes::lemma_auto_spec_u32_to_from_le_bytes();
        lemma_auto_spec_u64_to_from_le_bytes();
        assert(r@ =~= spec_encode_bytes(route@) + spec_u64_to_le_bytes(index));
        let p = 4 + route@.len() as int;
        assert(r@.subrange(0, 4) =~= vstd::bytes::spec_u32_to_le_bytes(route@.len() as u32));
        assert(r@.subrange(4, p) =~= route@);
        assert(spec_read_bytes(r@, 0) == Some((route@, p)));
        assert(r@.subrange(p, p + 8) =~= spec_u64_to_le_bytes(index));
    }
    r
}

/// Look a proof-table query key up in a snapshot of the store.
pub fn get_service_hash(snapshot: &Store, key: &Vec<u8>) -> (r: Option<Vec<u8>>)
    ensures
        match r {
            Some(h) => spec_get_service_hash(snapshot@, key@) == Some(h@),
            None => spec_get_service_hash(snapshot@, key@) is None,
        },
{
    let remaining = key.len();
    if remaining < 4 {
        return None;
    }
    let n32 = vstd::bytes::u32_from_le_bytes(slice_subrange(key.as_slice(), 0, 4));
    let n = n32 as usize;
    if n > remaining - 4 {
        return None;
    }
    let p = 4 + n;
    if key.len() - p != 8 {
        return None;
    }
    let route = bytes_range(key, 4, p);
    let index = u64_from_le_bytes(slice_subrange(key.as_slice(), p, p + 8));
    proof {
        assert(key@.subrange(4, p as int) =~= route@);
        assert(spec_read_bytes(key@, 0) == Some((route@, p as int)));
        assert(key@.subrange(p as int, p + 8) == key@.subrange(p as int, key@.len() as int));
    }
    let entry_key = make_pt_key(&route, index);
    snapshot.raw_get(&entry_key)
}

/// One framed proof-table entry as it enters the app hash: the key and the
/// value, each length-prefixed.
pub open spec fn spec_frame(k: Seq<u8>, v: Seq<u8>) -> Seq<u8> {
    spec_u64_to_le_bytes(k.len() as u64) + k + spec_u64_to_le_bytes(v.len() as u64) + v
}

/// The app hash of a store: the framed proof-table entries, read off in
/// store order.  A deterministic function of the store contents, so every
/// replica that held the same writes in the same order reports the same
/// hash.
pub open spec fn spec_root(entries: Seq<(Seq<u8>, Seq<u8>)>) -> Seq<u8>
    decreases entries.len(),
{
    if entries.len() == 0 {
        Seq::empty()
    } else {
        (if is_pt_key(entries[0].0) {
            spec_frame(entries[0].0, entries[0].1)
        } else {
            Seq::empty()
        }) + spec_root(entries.drop_first())
    }
}

/// Extending the store by one entry appends that entry's contribution to the
/// app hash.
pub proof fn lemma_spec_root_push(entries: Seq<(Seq<u8>, Seq<u8>)>, e: (Seq<u8>, Seq<u8>))
    ensures
        spec_root(entries.push(e)) == spec_root(entries) + (if is_pt_key(e.0) {
            spec_frame(e.0, e.1)
        } else {
            Seq::<u8>::empty()
        }),
    decreases entries.len(),
{
    let piece = if is_pt_key(e.0) {
        spec_frame(e.0, e.1)
    } else {
        Seq::<u8>::empty()
    };
    if entries.len() == 0 {
        let p = entries.push(e);
        assert(p[0] == e);
        assert(p.drop_first() =~= Seq::<(Seq<u8>, Seq<u8>)>::empty());
        assert(spec_root(p.drop_first()) == Seq::<u8>::empty());
        assert(spec_root(p) == piece + spec_root(p.drop_first()));
        assert(piece + Seq::<u8>::empty() =~= piece);
        assert(spec_root(entries) + piece =~= piece);
    } else {
        assert(entries.push(e)[0] == entries[0]);
        assert(entries.push(e).drop_first() =~= entries.drop_first().push(e));
        lemma_spec_root_push(entries.drop_first(), e);
        let head = if is_pt_key(entries[0].0) {
            spec_frame(entries[0].0, entries[0].1)
        } else {
            Seq::<u8>::empty()
        };
        assert(head + (spec_root(entries.drop_first()) + piece) =~= (head + spec_root(
            entries.drop_first(),
        )) + piece);
    }
}

/// The contents of a list of owned hashes, as the spec model sees them.
pub open spec fn hashes_view(hs: Seq<Vec<u8>>) -> Seq<Seq<u8>> {
    Seq::new(hs.len(), |i: int| hs[i]@)
}

/// The contents of a list of `(route, hashes)` reports.
pub open spec fn reports_view(rs: Seq<(Vec<u8>, Vec<Vec<u8>>)>) -> Seq<(Seq<u8>, Seq<Seq<u8>>)> {
    Seq::new(rs.len(), |j: int| (rs[j].0@, hashes_view(rs[j].1@)))
}

/// Write one service's reported hashes into the proof table, from index `i`
/// on: the hash at index `k` lands under `pt_key(route, k)`.
pub open spec fn spec_write_hashes(
    entries: Seq<(Seq<u8>, Seq<u8>)>,
    route: Seq<u8>,
    hashes: Seq<Seq<u8>>,
    i: int,
) -> Seq<(Seq<u8>, Seq<u8>)>
    decreases hashes.len() - i,
{
    if 0 <= i && i < hashes.len() {
        spec_write_hashes(
            kv_put(entries, pt_key(route, i as u64), hashes[i]),
            route,
            hashes,
            i + 1,
        )
    } else {
        entries
    }
}

/// Write every service's report into the proof table, in report order, from
/// report `j` on.
pub open spec fn spec_stage(
    entries: Seq<(Seq<u8>, Seq<u8>)>,
    reports: Seq<(Seq<u8>, Seq<Seq<u8>>)>,
    j: int,
) -> Seq<(Seq<u8>, Seq<u8>)>
    decreases reports.len() - j,
{
    if 0 <= j && j < reports.len() {
        spec_stage(spec_write_hashes(entries, reports[j].0, reports[j].1, 0), reports, j + 1)
    } else {
        entries
    }
}

/// Everything commit writes once the block's patches are merged: the staged
/// proof table, and the app-state record holding the new height and the app
/// hash of the staged table.
pub open spec fn spec_commit_apply(
    entries: Seq<(Seq<u8>, Seq<u8>)>,
    reports: Seq<(Seq<u8>, Seq<Seq<u8>>)>,
    new_height: u64,
) -> Seq<(Seq<u8>, Seq<u8>)> {
    let staged = spec_stage(entries, reports, 0);
    kv_put(
        staged,
        app_state_key(),
        spec_encode_app_state(SpecAppState { height: new_height, hash: spec_root(staged) }),
    )
}

/// Write the hash a service reported at `index` into the proof table.
pub fn save_service_hash(store: &mut Store, route: &Vec<u8>, index: u64, hash: Vec<u8>)
    ensures
        final(store)@ == kv_put(old(store)@, pt_key(route@, index), hash@),
{
    let key = make_pt_key(route, index);
    store.raw_put(&key, hash);
}

/// Persist the app-state record: the committed height and app hash.
pub fn set_commit_info(store: &mut Store, height: u64, hash: Vec<u8>)
    ensures
        final(store)@ == kv_put(
            old(store)@,
            app_state_key(),
            spec_encode_app_state(SpecAppState { height, hash: hash@ }),
        ),
{
    let state = AppState { height, hash };
    let record = encode_app_state(&state);
    let key = make_app_state_key();
    store.raw_put(&key, record);
}

/// Apply a block's bookkeeping to the store: write every reported hash into
/// the proof table, derive the new app hash, and persist the app-state
/// record at the incremented height.  Returns the new app hash.
pub fn apply_commit(store: &mut Store, height: u64, reports: &Vec<(Vec<u8>, Vec<Vec<u8>>)>) -> (root:
    Vec<u8>)
    requires
        height < u64::MAX,
    ensures
        final(store)@ == spec_commit_apply(
            old(store)@,
            reports_view(reports@),
            (height + 1) as u64,
        ),
        root@ == spec_root(spec_stage(old(store)@, reports_view(reports@), 0)),
{
    let ghost rv = reports_view(reports@);
    let mut j: usize = 0;
    while j < reports.len()
        invariant
            j <= reports.len(),
            height < u64::MAX,
            rv == reports_view(reports@),
            spec_stage(store@, rv, j as int) == spec_stage(old(store)@, rv, 0),
        decreases reports.len() - j,
    {
        let route = &reports[j].0;
        let hashes = &reports[j].1;
        let ghost hv = hashes_view(hashes@);
        let ghost pre = store@;
        proof {
            assert(rv[j as int] == (route@, hv));
        }
        let mut i: usize = 0;
        while i < hashes.len()
            invariant
                i <= hashes.len(),
                hv == hashes_view(hashes@),
                spec_write_hashes(store@, route@, hv, i as int) == spec_write_hashes(
                    pre,
                    route@,
                    hv,
                    0,
                ),
            decreases hashes.len() - i,
        {
            let value = clone_bytes(&hashes[i]);
            let ghost mid = store@;
            save_service_hash(store, route, i as u64, value);
            proof {
                assert(hv[i as int] == hashes@[i as int]@);
                assert(spec_write_hashes(mid, route@, hv, i as int) == spec_write_hashes(
                    kv_put(mid, pt_key(route@, i as u64), hv[i as int]),
                    route@,
                    hv,
                    i + 1,
                ));
            }
            i += 1;
        }
        proof {
            assert(spec_write_hashes(store@, route@, hv, hashes@.len() as int) == store@);
            assert(spec_stage(pre, rv, j as int) == spec_stage(
                spec_write_hashes(pre, rv[j as int].0, rv[j as int].1, 0),
                rv,
                j + 1,
            ));
        }
        j += 1;
    }
    proof {
        assert(spec_stage(store@, rv, reports@.len() as int) == store@);
    }
    let root = get_proof_table_root_hash(store);
    let hash_copy = clone_bytes(&root);
    set_commit_info(store, height + 1, hash_copy);
    root
}

/// Compute the app hash of a snapshot of the store.
pub fn get_proof_table_root_hash(snapshot: &Store) -> (r: Vec<u8>)
    ensures
        r@ == spec_root(snapshot@),
{
    let mut r: Vec<u8> = Vec::new();
    let n = snapshot.entry_count();
    let mut i: usize = 0;
    proof {
        assert(snapshot@.take(0) =~= Seq::<(Seq<u8>, Seq<u8>)>::empty());
    }
    while i < n
        invariant
            i <= n,
            n == snapshot@.len(),
            r@ == spec_root(snapshot@.take(i as int)),
        decreases n - i,
    {
        let key = snapshot.entry_key(i);
        let is_pt = key.len() >= 2 && key[0] == RESERVED_SPACE && key[1] == PROOF_TABLE_TAG;
        let ghost pre = r@;
        if is_pt {
            let value = snapshot.entry_value(i);
            let klen_bytes = u64_to_le_bytes(key.len() as u64);
            append_bytes(&mut r, &klen_bytes);
            append_bytes(&mut r, key);
            let vlen_bytes = u64_to_le_bytes(value.len() as u64);
            append_bytes(&mut r, &vlen_bytes);
            append_bytes(&mut r, value);
            proof {
                assert(r@ =~= pre + spec_frame(snapshot@[i as int].0, snapshot@[i as int].1));
            }
        }
        proof {
            lemma_spec_root_push(snapshot@.take(i as int), snapshot@[i as int]);
            assert(snapshot@.take(i as int).push(snapshot@[i as int]) =~= snapshot@.take(i + 1));
            if !is_pt_key(snapshot@[i as int].0) {
                assert(r@ =~= pre + Seq::<u8>::empty());
            }
        }
        i += 1;
    }
    proof {
        assert(snapshot@.take(n as int) =~= snapshot@);
    }
    r
}

} // verus!
