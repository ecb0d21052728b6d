//! Spec-level model of the key/value contents of the store.
//!
//! The store's contents are modelled as a sequence of `(key, value)` pairs of
//! byte sequences, in first-write order.  `kv_get` finds the first entry with
//! a given key, `kv_put` overwrites that entry in place (or appends a new
//! one), and `kv_apply` folds an ordered write log over a base state, which is
//! what merging a patch does.

use vstd::prelude::*;

verus! {

/// Look a key up: the value of the first entry with this key, if any.
pub open spec fn kv_get(entries: Seq<(Seq<u8>, Seq<u8>)>, key: Seq<u8>) -> Option<Seq<u8>>
    decreases entries.len(),
{
    if entries.len() == 0 {
        Option::None
    } else if entries[0].0 == key {
        Option::Some(entries[0].1)
    } else {
        kv_get(entries.drop_first(), key)
    }
}

/// Write a key: overwrite the first entry with this key in place, or append a
/// fresh entry at the end.  Keeping the position of an overwritten key stable
/// makes the whole store contents a deterministic function of the write
/// history, which the replay-determinism argument rests on.
pub open spec fn kv_put(
    entries: Seq<(Seq<u8>, Seq<u8>)>,
    key: Seq<u8>,
    value: Seq<u8>,
) -> Seq<(Seq<u8>, Seq<u8>)>
    decreases entries.len(),
{
    if entries.len() == 0 {
        seq![(key, value)]
    } else if entries[0].0 == key {
        seq![(key, value)] + entries.drop_first()
    } else {
        seq![entries[0]] + kv_put(entries.drop_first(), key, value)
    }
}

/// Apply an ordered write log to a base state, first write first.
pub open spec fn kv_apply(
    base: Seq<(Seq<u8>, Seq<u8>)>,
    writes: Seq<(Seq<u8>, Seq<u8>)>,
) -> Seq<(Seq<u8>, Seq<u8>)>
    decreases writes.len(),
{
    if writes.len() == 0 {
        base
    } else {
        kv_apply(kv_put(base, writes.first().0, writes.first().1), writes.drop_first())
    }
}

/// The last value a write log assigns to a key, if any.
pub open spec fn log_get(writes: Seq<(Seq<u8>, Seq<u8>)>, key: Seq<u8>) -> Option<Seq<u8>>
    decreases writes.len(),
{
    if writes.len() == 0 {
        Option::None
    } else if writes.last().0 == key {
        Option::Some(writes.last().1)
    } else {
        log_get(writes.drop_last(), key)
    }
}

/// What `kv_put` does to every lookup: the written key now maps to the new
/// value, every other key is untouched.
pub proof fn lemma_kv_get_put(
    entries: Seq<(Seq<u8>, Seq<u8>)>,
    key: Seq<u8>,
    value: Seq<u8>,
    probe: Seq<u8>,
)
    ensures
        kv_get(kv_put(entries, key, value), probe) == if probe == key {
            Option::Some(value)
        } else {
            kv_get(entries, probe)
        },
    decreases entries.len(),
{
    if entries.len() == 0 {
        assert(kv_put(entries, key, value) == seq![(key, value)]);
        assert(kv_put(entries, key, value).drop_first() =~= Seq::<(Seq<u8>, Seq<u8>)>::empty());
    } else if entries[0].0 == key {
        let res = kv_put(entries, key, value);
        assert(res == seq![(key, value)] + entries.drop_first());
        assert(res[0] == (key, value));
        assert(res.drop_first() =~= entries.drop_first());
    } else {
        let res = kv_put(entries, key, value);
        assert(res == seq![entries[0]] + kv_put(entries.drop_first(), key, value));
        assert(res[0] == entries[0]);
        assert(res.drop_first() =~= kv_put(entries.drop_first(), key, value));
        lemma_kv_get_put(entries.drop_first(), key, value, probe);
    }
}

/// Decompose `log_get` at the front of the log instead of the back.
pub proof fn lemma_log_get_front(writes: Seq<(Seq<u8>, Seq<u8>)>, key: Seq<u8>)
    requires
        writes.len() > 0,
    ensures
        log_get(writes, key) == match log_get(writes.drop_first(), key) {
            Option::Some(v) => Option::Some(v),
            Option::None => if writes.first().0 == key {
                Option::Some(writes.first().1)
            } else {
                Option::None
            },
        },
    decreases writes.len(),
{
    if writes.len() == 1 {
        assert(writes.last() == writes.first());
        assert(writes.drop_first() =~= Seq::<(Seq<u8>, Seq<u8>)>::empty());
        assert(writes.drop_last() =~= Seq::<(Seq<u8>, Seq<u8>)>::empty());
    } else {
        assert(writes.drop_first().last() == writes.last());
        assert(writes.drop_last().len() > 0);
        assert(writes.drop_last().first() == writes.first());
        assert(writes.drop_last().drop_first() =~= writes.drop_first().drop_last());
        if writes.last().0 == key {
        } else {
            lemma_log_get_front(writes.drop_last(), key);
        }
    }
}

/// A lookup after applying a write log: the log's last write for the key wins,
/// otherwise the base answers.
pub proof fn lemma_kv_apply_get(
    base: Seq<(Seq<u8>, Seq<u8>)>,
    writes: Seq<(Seq<u8>, Seq<u8>)>,
    key: Seq<u8>,
)
    ensures
        kv_get(kv_apply(base, writes), key) == match log_get(writes, key) {
            Option::Some(v) => Option::Some(v),
            Option::None => kv_get(base, key),
        },
    decreases writes.len(),
{
    if writes.len() == 0 {
    } else {
        let stepped = kv_put(base, writes.first().0, writes.first().1);
        lemma_kv_apply_get(stepped, writes.drop_first(), key);
        lemma_kv_get_put(base, writes.first().0, writes.first().1, key);
        lemma_log_get_front(writes, key);
    }
}

/// Appending one write to a log is the same as applying the log and then the
/// single write.
pub proof fn lemma_kv_apply_push(
    base: Seq<(Seq<u8>, Seq<u8>)>,
    writes: Seq<(Seq<u8>, Seq<u8>)>,
    key: Seq<u8>,
    value: Seq<u8>,
)
    ensures
        kv_apply(base, writes.push((key, value))) == kv_put(kv_apply(base, writes), key, value),
    decreases writes.len(),
{
    let p = writes.push((key, value));
    if writes.len() == 0 {
        assert(p.first() == (key, value));
        assert(p.drop_first() =~= Seq::<(Seq<u8>, Seq<u8>)>::empty());
        assert(kv_apply(base, p) == kv_apply(
            kv_put(base, p.first().0, p.first().1),
            p.drop_first(),
        ));
        assert(kv_apply(kv_put(base, key, value), p.drop_first()) == kv_put(base, key, value));
        assert(kv_apply(base, writes) == base);
    } else {
        assert(p.first() == writes.first());
        assert(p.drop_first() =~= writes.drop_first().push((key, value)));
        let stepped = kv_put(base, writes.first().0, writes.first().1);
        lemma_kv_apply_push(stepped, writes.drop_first(), key, value);
        assert(kv_apply(base, p) == kv_apply(stepped, p.drop_first()));
        assert(kv_apply(base, writes) == kv_apply(stepped, writes.drop_first()));
    }
}

/// The first-found overwrite of `kv_put` as an in-place update, for an entry
/// list whose earlier entries miss the key.
pub proof fn lemma_kv_put_is_update(
    entries: Seq<(Seq<u8>, Seq<u8>)>,
    i: int,
    key: Seq<u8>,
    value: Seq<u8>,
)
    requires
        0 <= i < entries.len(),
        entries[i].0 == key,
        forall|j: int| 0 <= j < i ==> entries[j].0 != key,
    ensures
        kv_put(entries, key, value) =~= entries.update(i, (key, value)),
    decreases i,
{
    if i == 0 {
        assert(kv_put(entries, key, value) == seq![(key, value)] + entries.drop_first());
    } else {
        assert(entries[0].0 != key);
        lemma_kv_put_is_update(entries.drop_first(), i - 1, key, value);
        assert(kv_put(entries, key, value) == seq![entries[0]] + kv_put(
            entries.drop_first(),
            key,
            value,
        ));
        assert(entries.drop_first().update(i - 1, (key, value)) =~= entries.update(
            i,
            (key, value),
        ).drop_first());
    }
}

/// `kv_put` of an absent key is an append.
pub proof fn lemma_kv_put_is_push(entries: Seq<(Seq<u8>, Seq<u8>)>, key: Seq<u8>, value: Seq<u8>)
    requires
        forall|j: int| 0 <= j < entries.len() ==> entries[j].0 != key,
    ensures
        kv_put(entries, key, value) =~= entries.push((key, value)),
    decreases entries.len(),
{
    if entries.len() == 0 {
    } else {
        lemma_kv_put_is_push(entries.drop_first(), key, value);
        assert(kv_put(entries, key, value) == seq![entries[0]] + kv_put(
            entries.drop_first(),
            key,
            value,
        ));
        assert(entries.drop_first().push((key, value)) =~= entries.push((key, value)).drop_first());
    }
}

/// Unfold one step of a forward scan: looking a key up in the tail suffix
/// starting at `i` either stops at `i` or moves to `i + 1`.
pub proof fn lemma_kv_get_skip(entries: Seq<(Seq<u8>, Seq<u8>)>, key: Seq<u8>, i: int)
    requires
        0 <= i < entries.len(),
    ensures
        kv_get(entries.skip(i), key) == if entries[i].0 == key {
            Option::Some(entries[i].1)
        } else {
            kv_get(entries.skip(i + 1), key)
        },
{
    assert(entries.skip(i).len() > 0);
    assert(entries.skip(i)[0] == entries[i]);
    assert(entries.skip(i).drop_first() =~= entries.skip(i + 1));
}

} // verus!
