//! The crate-level guarantees that tie several components together: commit
//! never touches service-visible state, committed proof-table entries are
//! retrievable under their `(route, index)` keys and equal what was
//! reported, and the whole commit step is a function of its inputs.

use vstd::prelude::*;

use vstd::bytes::{lemma_auto_spec_u64_to_from_le_bytes, spec_u64_to_le_bytes};

use crate::appstate::{
    app_state_key, lemma_pt_key_injective, pt_key, spec_commit_apply, spec_decode_pt_query,
    spec_encode_app_state, spec_get_service_hash, spec_root, spec_stage, spec_write_hashes,
    SpecAppState,
};
use crate::codec::{spec_encode_bytes, spec_read_bytes};
use crate::kv::{kv_get, kv_put, lemma_kv_get_put};
use crate::node::spec_apply_patches;
use crate::store::{user_key, SERVICE_SPACE};

verus! {

/// A service-space key is never a node record's key.
pub proof fn lemma_user_key_reserved_apart(k: Seq<u8>, route: Seq<u8>, index: u64)
    ensures
        user_key(k) != pt_key(route, index),
        user_key(k) != app_state_key(),
{
    assert(user_key(k)[0] == SERVICE_SPACE);
    assert(pt_key(route, index)[0] == crate::store::RESERVED_SPACE);
    assert(app_state_key()[0] == crate::store::RESERVED_SPACE);
}

/// Writing one service's report never touches a service-space key.
proof fn lemma_write_hashes_get_user(
    entries: Seq<(Seq<u8>, Seq<u8>)>,
    route: Seq<u8>,
    hashes: Seq<Seq<u8>>,
    i: int,
    k: Seq<u8>,
)
    ensures
        kv_get(spec_write_hashes(entries, route, hashes, i), user_key(k)) == kv_get(
            entries,
            user_key(k),
        ),
    decreases hashes.len() - i,
{
    if 0 <= i && i < hashes.len() {
        lemma_user_key_reserved_apart(k, route, i as u64);
        lemma_kv_get_put(entries, pt_key(route, i as u64), hashes[i], user_key(k));
        lemma_write_hashes_get_user(
            kv_put(entries, pt_key(route, i as u64), hashes[i]),
            route,
            hashes,
            i + 1,
            k,
        );
    }
}

/// Staging every report never touches a service-space key.
proof fn lemma_stage_get_user(
    entries: Seq<(Seq<u8>, Seq<u8>)>,
    reports: Seq<(Seq<u8>, Seq<Seq<u8>>)>,
    j: int,
    k: Seq<u8>,
)
    ensures
        kv_get(spec_stage(entries, reports, j), user_key(k)) == kv_get(entries, user_key(k)),
    decreases reports.len() - j,
{
    if 0 <= j && j < reports.len() {
        lemma_write_hashes_get_user(entries, reports[j].0, reports[j].1, 0, k);
        lemma_stage_get_user(
            spec_write_hashes(entries, reports[j].0, reports[j].1, 0),
            reports,
            j + 1,
            k,
        );
    }
}

/// Commit's bookkeeping writes the proof table and the app-state record and
/// nothing else: every service-space key reads the same before and after.
/// In particular, after a block whose transactions all failed, so that no
/// patch was staged, the service-visible store contents are unchanged from
/// before the block.
pub proof fn lemma_commit_preserves_service_content(
    entries: Seq<(Seq<u8>, Seq<u8>)>,
    reports: Seq<(Seq<u8>, Seq<Seq<u8>>)>,
    new_height: u64,
    key: Seq<u8>,
)
    ensures
        kv_get(spec_commit_apply(entries, reports, new_height), user_key(key)) == kv_get(
            entries,
            user_key(key),
        ),
{
    let staged = spec_stage(entries, reports, 0);
    lemma_stage_get_user(entries, reports, 0, key);
    lemma_user_key_reserved_apart(key, Seq::empty(), 0);
    lemma_kv_get_put(
        staged,
        app_state_key(),
        spec_encode_app_state(SpecAppState { height: new_height, hash: spec_root(staged) }),
        user_key(key),
    );
}

/// A block that staged no patches, as after a transaction whose envelope
/// failed to decode (it leaves the pending list exactly as it was), commits
/// to a store whose every service-space key reads as it did before the
/// transaction was delivered: only the app-state record and the proof-table
/// bookkeeping advance.  The height still advances by one, which is part of
/// commit's own contract.
pub proof fn lemma_noop_block_preserves_service_content(
    entries: Seq<(Seq<u8>, Seq<u8>)>,
    reports: Seq<(Seq<u8>, Seq<Seq<u8>>)>,
    new_height: u64,
    key: Seq<u8>,
)
    ensures
        kv_get(
            spec_commit_apply(
                spec_apply_patches(entries, Seq::empty()),
                reports,
                new_height,
            ),
            user_key(key),
        ) == kv_get(entries, user_key(key)),
{
    assert(spec_apply_patches(entries, Seq::empty()) == entries);
    lemma_commit_preserves_service_content(entries, reports, new_height, key);
}

/// A probe key that none of the remaining writes of one report targets reads
/// the same before and after those writes.
proof fn lemma_write_hashes_get_miss(
    entries: Seq<(Seq<u8>, Seq<u8>)>,
    route: Seq<u8>,
    hashes: Seq<Seq<u8>>,
    i: int,
    probe: Seq<u8>,
)
    requires
        forall|j: int| i <= j < hashes.len() ==> probe != #[trigger] pt_key(route, j as u64),
    ensures
        kv_get(spec_write_hashes(entries, route, hashes, i), probe) == kv_get(entries, probe),
    decreases hashes.len() - i,
{
    if 0 <= i && i < hashes.len() {
        assert(probe != pt_key(route, i as u64));
        lemma_kv_get_put(entries, pt_key(route, i as u64), hashes[i], probe);
        lemma_write_hashes_get_miss(
            kv_put(entries, pt_key(route, i as u64), hashes[i]),
            route,
            hashes,
            i + 1,
            probe,
        );
    }
}

/// After one report is written, the entry for each of its `(route, index)`
/// pairs holds exactly the reported hash.
proof fn lemma_write_hashes_get_hit(
    entries: Seq<(Seq<u8>, Seq<u8>)>,
    route: Seq<u8>,
    hashes: Seq<Seq<u8>>,
    i: int,
    k: int,
)
    requires
        0 <= i <= k < hashes.len(),
        route.len() < 0x1_0000_0000_0000_0000,
        hashes.len() < 0x1_0000_0000_0000_0000,
    ensures
        kv_get(spec_write_hashes(entries, route, hashes, i), pt_key(route, k as u64)) == Some(
            hashes[k],
        ),
    decreases hashes.len() - i,
{
    let key_i = pt_key(route, i as u64);
    let stepped = kv_put(entries, key_i, hashes[i]);
    if k == i {
        let probe = pt_key(route, k as u64);
        assert forall|j: int| i + 1 <= j < hashes.len() implies probe != #[trigger] pt_key(
            route,
            j as u64,
        ) by {
            if probe == pt_key(route, j as u64) {
                lemma_pt_key_injective(route, k as u64, route, j as u64);
            }
        }
        lemma_kv_get_put(entries, key_i, hashes[i], probe);
        lemma_write_hashes_get_miss(stepped, route, hashes, i + 1, probe);
    } else {
        lemma_write_hashes_get_hit(stepped, route, hashes, i + 1, k);
    }
}

/// A probe key that no remaining report targets reads the same after the
/// whole staging pass.
proof fn lemma_stage_get_miss(
    entries: Seq<(Seq<u8>, Seq<u8>)>,
    reports: Seq<(Seq<u8>, Seq<Seq<u8>>)>,
    j: int,
    probe: Seq<u8>,
)
    requires
        forall|a: int, x: int|
            j <= a < reports.len() && 0 <= x < reports[a].1.len() ==> probe != #[trigger] pt_key(
                reports[a].0,
                x as u64,
            ),
    ensures
        kv_get(spec_stage(entries, reports, j), probe) == kv_get(entries, probe),
    decreases reports.len() - j,
{
    if 0 <= j && j < reports.len() {
        assert forall|x: int| 0 <= x < reports[j].1.len() implies probe != #[trigger] pt_key(
            reports[j].0,
            x as u64,
        ) by {
            assert(j <= j < reports.len());
        }
        lemma_write_hashes_get_miss(entries, reports[j].0, reports[j].1, 0, probe);
        lemma_stage_get_miss(
            spec_write_hashes(entries, reports[j].0, reports[j].1, 0),
            reports,
            j + 1,
            probe,
        );
    }
}

/// Whether a report list is well formed for staging: routes pairwise
/// distinct and every field short enough for its length prefix.
pub open spec fn reports_wf(reports: Seq<(Seq<u8>, Seq<Seq<u8>>)>) -> bool {
    &&& (forall|a: int, b: int|
        0 <= a < b < reports.len() ==> (#[trigger] reports[a]).0 != (#[trigger] reports[b]).0)
    &&& (forall|a: int|
        0 <= a < reports.len() ==> (#[trigger] reports[a]).0.len() < 0x1_0000_0000
            && reports[a].1.len() < 0x1_0000_0000_0000_0000)
}

/// After the whole staging pass, the entry under `(route of report j,
/// index i)` holds exactly the hash that report `j` listed at `i`.
pub proof fn lemma_stage_get_hit(
    entries: Seq<(Seq<u8>, Seq<u8>)>,
    reports: Seq<(Seq<u8>, Seq<Seq<u8>>)>,
    j: int,
    jj: int,
    k: int,
)
    requires
        reports_wf(reports),
        0 <= j <= jj < reports.len(),
        0 <= k < reports[jj].1.len(),
    ensures
        kv_get(spec_stage(entries, reports, j), pt_key(reports[jj].0, k as u64)) == Some(
            reports[jj].1[k],
        ),
    decreases reports.len() - j,
{
    let probe = pt_key(reports[jj].0, k as u64);
    let stepped = spec_write_hashes(entries, reports[j].0, reports[j].1, 0);
    if j == jj {
        lemma_write_hashes_get_hit(entries, reports[jj].0, reports[jj].1, 0, k);
        assert forall|a: int, x: int|
            j + 1 <= a < reports.len() && 0 <= x < reports[a].1.len() implies probe
            != #[trigger] pt_key(
            reports[a].0,
            x as u64,
        ) by {
            if probe == pt_key(reports[a].0, x as u64) {
                lemma_pt_key_injective(reports[jj].0, k as u64, reports[a].0, x as u64);
            }
        }
        lemma_stage_get_miss(stepped, reports, j + 1, probe);
    } else {
        assert forall|x: int| 0 <= x < reports[j].1.len() implies probe != #[trigger] pt_key(
            reports[j].0,
            x as u64,
        ) by {
            if probe == pt_key(reports[j].0, x as u64) {
                lemma_pt_key_injective(reports[jj].0, k as u64, reports[j].0, x as u64);
            }
        }
        lemma_write_hashes_get_miss(entries, reports[j].0, reports[j].1, 0, probe);
        lemma_stage_get_hit(stepped, reports, j + 1, jj, k);
    }
}

/// The reserved proof-table query key for `(route, index)` decodes back to
/// that pair.
pub proof fn lemma_pt_query_key_round_trip(route: Seq<u8>, index: u64)
    requires
        route.len() < 0x1_0000_0000,
    ensures
        spec_decode_pt_query(spec_encode_bytes(route) + spec_u64_to_le_bytes(index)) == Some(
            (route, index),
        ),
{
    vstd::bytes::lemma_auto_spec_u32_to_from_le_bytes();
    lemma_auto_spec_u64_to_from_le_bytes();
    let e = spec_encode_bytes(route) + spec_u64_to_le_bytes(index);
    let p = 4 + route.len() as int;
    assert(e.subrange(0, 4) =~= vstd::bytes::spec_u32_to_le_bytes(route.len() as u32));
    assert(e.subrange(4, p) =~= route);
    assert(spec_read_bytes(e, 0) == Some((route, p)));
    assert(e.subrange(p, p + 8) =~= spec_u64_to_le_bytes(index));
}

/// Round-trip: every hash a service reported, once committed, is retrievable
/// through the reserved app-hash query under the matching `(route, index)`
/// key, and equals the value originally reported.
pub proof fn lemma_store_hashes_round_trip(
    entries: Seq<(Seq<u8>, Seq<u8>)>,
    reports: Seq<(Seq<u8>, Seq<Seq<u8>>)>,
    new_height: u64,
    j: int,
    i: int,
)
    requires
        reports_wf(reports),
        0 <= j < reports.len(),
        0 <= i < reports[j].1.len(),
    ensures
        kv_get(spec_commit_apply(entries, reports, new_height), pt_key(reports[j].0, i as u64))
            == Some(reports[j].1[i]),
        spec_get_service_hash(
            spec_commit_apply(entries, reports, new_height),
            spec_encode_bytes(reports[j].0) + spec_u64_to_le_bytes(i as u64),
        ) == Some(reports[j].1[i]),
{
    let staged = spec_stage(entries, reports, 0);
    let probe = pt_key(reports[j].0, i as u64);
    lemma_stage_get_hit(entries, reports, 0, j, i);
    crate::appstate::lemma_app_state_key_not_pt();
    lemma_kv_get_put(
        staged,
        app_state_key(),
        spec_encode_app_state(SpecAppState { height: new_height, hash: spec_root(staged) }),
        probe,
    );
    lemma_pt_query_key_round_trip(reports[j].0, i as u64);
}

/// Idempotence of reserved queries: the router's answer for the app-hash
/// route is pinned by the store contents and the key alone, so any two
/// answers that meet the router's contract for the same committed state
/// agree.  Service-routed queries pass the owning service's answer through
/// verbatim against a read-only snapshot, so they are as repeatable as that
/// service's own query handler.
pub proof fn lemma_reserved_query_idempotent(
    entries: Seq<(Seq<u8>, Seq<u8>)>,
    key: Seq<u8>,
    code1: u32,
    value1: Seq<u8>,
    code2: u32,
    value2: Seq<u8>,
)
    requires
        match spec_get_service_hash(entries, key) {
            Some(h) => code1 == 0 && value1 == h,
            None => code1 == crate::QUERYERR_PROOF_TABLE,
        },
        match spec_get_service_hash(entries, key) {
            Some(h) => code2 == 0 && value2 == h,
            None => code2 == crate::QUERYERR_PROOF_TABLE,
        },
    ensures
        code1 == code2,
        code1 == 0 ==> value1 == value2,
{
}

/// The proof-table entries of a store, in store order.
pub open spec fn pt_table(entries: Seq<(Seq<u8>, Seq<u8>)>) -> Seq<(Seq<u8>, Seq<u8>)>
    decreases entries.len(),
{
    if entries.len() == 0 {
        Seq::empty()
    } else if crate::appstate::is_pt_key(entries[0].0) {
        seq![entries[0]] + pt_table(entries.drop_first())
    } else {
        pt_table(entries.drop_first())
    }
}

/// The framed bytes of a list of proof-table entries.
pub open spec fn spec_frames(l: Seq<(Seq<u8>, Seq<u8>)>) -> Seq<u8>
    decreases l.len(),
{
    if l.len() == 0 {
        Seq::empty()
    } else {
        crate::appstate::spec_frame(l[0].0, l[0].1) + spec_frames(l.drop_first())
    }
}

/// The app hash is exactly the framed proof-table entries.
pub proof fn lemma_root_is_framed_table(entries: Seq<(Seq<u8>, Seq<u8>)>)
    ensures
        spec_root(entries) == spec_frames(pt_table(entries)),
    decreases entries.len(),
{
    if entries.len() == 0 {
    } else {
        lemma_root_is_framed_table(entries.drop_first());
        if crate::appstate::is_pt_key(entries[0].0) {
            let t = pt_table(entries);
            assert(t[0] == entries[0]);
            assert(t.drop_first() =~= pt_table(entries.drop_first()));
        } else {
            assert(Seq::<u8>::empty() + spec_root(entries.drop_first()) =~= spec_root(
                entries.drop_first(),
            ));
        }
    }
}

/// Whether every key and value of a table fits its length prefix.
pub open spec fn table_wf(l: Seq<(Seq<u8>, Seq<u8>)>) -> bool {
    forall|i: int|
        0 <= i < l.len() ==> (#[trigger] l[i]).0.len() < 0x1_0000_0000_0000_0000 && l[i].1.len()
            < 0x1_0000_0000_0000_0000
}

/// Framing is injective: equal framed bytes come from equal tables.
pub proof fn lemma_frames_injective(l1: Seq<(Seq<u8>, Seq<u8>)>, l2: Seq<(Seq<u8>, Seq<u8>)>)
    requires
        spec_frames(l1) == spec_frames(l2),
        table_wf(l1),
        table_wf(l2),
    ensures
        l1 == l2,
    decreases l1.len(),
{
    lemma_auto_spec_u64_to_from_le_bytes();
    if l1.len() == 0 && l2.len() == 0 {
        assert(l1 =~= l2);
    } else if l1.len() == 0 {
        assert(spec_frames(l1).len() == 0);
        assert(spec_frames(l2).len() >= 16);
    } else if l2.len() == 0 {
        assert(spec_frames(l2).len() == 0);
        assert(spec_frames(l1).len() >= 16);
    } else {
        let s = spec_frames(l1);
        let k1 = l1[0].0;
        let v1 = l1[0].1;
        let k2 = l2[0].0;
        let v2 = l2[0].1;
        assert(s.subrange(0, 8) =~= spec_u64_to_le_bytes(k1.len() as u64));
        assert(s.subrange(0, 8) =~= spec_u64_to_le_bytes(k2.len() as u64));
        assert(k1.len() == k2.len());
        let kl = k1.len() as int;
        assert(k1 =~= s.subrange(8, 8 + kl));
        assert(k2 =~= s.subrange(8, 8 + kl));
        assert(s.subrange(8 + kl, 16 + kl) =~= spec_u64_to_le_bytes(v1.len() as u64));
        assert(s.subrange(8 + kl, 16 + kl) =~= spec_u64_to_le_bytes(v2.len() as u64));
        assert(v1.len() == v2.len());
        let vl = v1.len() as int;
        assert(v1 =~= s.subrange(16 + kl, 16 + kl + vl));
        assert(v2 =~= s.subrange(16 + kl, 16 + kl + vl));
        assert(l1[0] == l2[0]);
        let flen = 16 + kl + vl;
        assert(spec_frames(l1.drop_first()) =~= s.skip(flen));
        assert(spec_frames(l2.drop_first()) =~= s.skip(flen));
        assert(table_wf(l1.drop_first())) by {
            assert(forall|i: int|
                0 <= i < l1.drop_first().len() ==> #[trigger] l1.drop_first()[i] == l1[i + 1]);
        }
        assert(table_wf(l2.drop_first())) by {
            assert(forall|i: int|
                0 <= i < l2.drop_first().len() ==> #[trigger] l2.drop_first()[i] == l2[i + 1]);
        }
        lemma_frames_injective(l1.drop_first(), l2.drop_first());
        assert(l1.len() == l2.len());
        assert forall|i: int| 0 <= i < l1.len() implies l1[i] == l2[i] by {
            if i > 0 {
                assert(l1[i] == l1.drop_first()[i - 1]);
                assert(l2[i] == l2.drop_first()[i - 1]);
            }
        }
        assert(l1 =~= l2);
    }
}

/// The app hash pins the proof table down: two stores report the same app
/// hash only when they hold the very same proof-table entries in the same
/// order.  Contrapositively, a commit whose staged proof table differs from
/// the previous one, as a successful transaction that changes any reported
/// hash makes it do, yields an app hash that differs from the previous app
/// hash; the height advances by exactly one per commit whatever happened,
/// which is part of commit's own contract.
pub proof fn lemma_app_hash_pins_table(e1: Seq<(Seq<u8>, Seq<u8>)>, e2: Seq<(Seq<u8>, Seq<u8>)>)
    requires
        spec_root(e1) == spec_root(e2),
        table_wf(pt_table(e1)),
        table_wf(pt_table(e2)),
    ensures
        pt_table(e1) == pt_table(e2),
{
    lemma_root_is_framed_table(e1);
    lemma_root_is_framed_table(e2);
    lemma_frames_injective(pt_table(e1), pt_table(e2));
}

/// A successful transaction that changes any hash a service reports changes
/// the app hash: two stores whose proof tables differ report different app
/// hashes, for tables whose keys and values fit their length prefixes.
pub proof fn lemma_changed_table_changes_app_hash(
    e1: Seq<(Seq<u8>, Seq<u8>)>,
    e2: Seq<(Seq<u8>, Seq<u8>)>,
)
    requires
        table_wf(pt_table(e1)),
        table_wf(pt_table(e2)),
        pt_table(e1) != pt_table(e2),
    ensures
        spec_root(e1) != spec_root(e2),
{
    if spec_root(e1) == spec_root(e2) {
        lemma_app_hash_pins_table(e1, e2);
    }
}

/// Determinism: every step of the lifecycle maps equal states and equal
/// inputs to equal results.  The envelope decoder, the patch application,
/// the staging pass and the app hash are all functions of their arguments,
/// so two fresh instances replaying the identical ordered sequence of
/// init-chain, deliver-tx and commit calls, whose services report the same
/// hashes, hold identical app hashes at every height.
pub proof fn lemma_commit_deterministic(
    e1: Seq<(Seq<u8>, Seq<u8>)>,
    e2: Seq<(Seq<u8>, Seq<u8>)>,
    p1: Seq<Seq<(Seq<u8>, Seq<u8>)>>,
    p2: Seq<Seq<(Seq<u8>, Seq<u8>)>>,
    r1: Seq<(Seq<u8>, Seq<Seq<u8>>)>,
    r2: Seq<(Seq<u8>, Seq<Seq<u8>>)>,
    h1: u64,
    h2: u64,
)
    requires
        e1 == e2,
        p1 == p2,
        r1 == r2,
        h1 == h2,
    ensures
        spec_commit_apply(spec_apply_patches(e1, p1), r1, h1) == spec_commit_apply(
            spec_apply_patches(e2, p2),
            r2,
            h2,
        ),
        spec_root(spec_stage(spec_apply_patches(e1, p1), r1, 0)) == spec_root(
            spec_stage(spec_apply_patches(e2, p2), r2, 0),
        ),
{
}

} // verus!
