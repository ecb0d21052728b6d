//! The transactional key/value store that the node manages.
//!
//! `Store` is the committed state: a list of `(key, value)` entries in
//! first-write order, modelled by [`crate::kv`].  A [`Fork`] is an isolated
//! mutable view taken against the committed state; its writes accumulate in
//! an ordered log and become a [`Patch`], which the store merges atomically.
//! A read-only snapshot is simply a shared borrow of the store, since the
//! node is driven strictly sequentially.
//!
//! Keys are namespaced: every key a service reads or writes is prefixed with
//! a service-space marker byte, while the node's own bookkeeping (the app
//! state record and the proof table) lives under a reserved marker, so a
//! service can never touch the node's records.

use vstd::prelude::*;

use crate::kv::{
    kv_apply, kv_get, kv_put, lemma_kv_apply_get, lemma_kv_apply_push, lemma_kv_get_skip,
    lemma_kv_put_is_push, lemma_kv_put_is_update, log_get,
};

verus! {

/// Marker byte that starts every key a service reads or writes.
pub const SERVICE_SPACE: u8 = 1;

/// Marker byte that starts every key of the node's own records.
pub const RESERVED_SPACE: u8 = 0;

/// The key a service name `key` is stored under: service space marker first.
pub open spec fn user_key(key: Seq<u8>) -> Seq<u8> {
    seq![SERVICE_SPACE] + key
}

/// The contents of a list of owned entries, as the spec model sees them.
pub open spec fn entries_view(entries: Seq<(Vec<u8>, Vec<u8>)>) -> Seq<(Seq<u8>, Seq<u8>)> {
    Seq::new(entries.len(), |i: int| (entries[i].0@, entries[i].1@))
}

/// Compare two byte vectors by contents.
pub fn bytes_eq(a: &Vec<u8>, b: &Vec<u8>) -> (r: bool)
    ensures
        r == (a@ == b@),
{
    if a.len() != b.len() {
        return false;
    }
    let mut i: usize = 0;
    while i < a.len()
        invariant
            i <= a.len(),
            a.len() == b.len(),
            forall|j: int| 0 <= j < i ==> a@[j] == b@[j],
        decreases a.len() - i,
    {
        if a[i] != b[i] {
            return false;
        }
        i += 1;
    }
    proof {
        assert(a@ =~= b@);
    }
    true
}

/// Copy a byte vector; the copy has the same contents.
pub fn clone_bytes(v: &Vec<u8>) -> (r: Vec<u8>)
    ensures
        r@ == v@,
{
    let r = v.clone();
    proof {
        assert(r@ =~= v@);
    }
    r
}

/// Append the contents of `src` to `dst`.
pub fn append_bytes(dst: &mut Vec<u8>, src: &Vec<u8>)
    ensures
        final(dst)@ == old(dst)@ + src@,
{
    let mut i: usize = 0;
    while i < src.len()
        invariant
            i <= src.len(),
            dst@ == old(dst)@ + src@.take(i as int),
        decreases src.len() - i,
    {
        dst.push(src[i]);
        proof {
            assert(old(dst)@ + src@.take(i + 1) =~= (old(dst)@ + src@.take(i as int)).push(
                src@[i as int],
            ));
        }
        i += 1;
    }
    proof {
        assert(src@.take(src@.len() as int) =~= src@);
    }
}

/// Prefix a service-space key with its marker byte.
pub fn make_user_key(key: &Vec<u8>) -> (r: Vec<u8>)
    ensures
        r@ == user_key(key@),
{
    let mut r: Vec<u8> = Vec::new();
    r.push(SERVICE_SPACE);
    append_bytes(&mut r, key);
    proof {
        assert(r@ =~= user_key(key@));
    }
    r
}

/// Copy the byte range `from..to` out of a vector.
pub fn bytes_range(v: &Vec<u8>, from: usize, to: usize) -> (r: Vec<u8>)
    requires
        from <= to <= v@.len(),
    ensures
        r@ == v@.subrange(from as int, to as int),
{
    let mut r: Vec<u8> = Vec::new();
    let mut i: usize = from;
    let len = v.len();
    proof {
        assert(v@.subrange(from as int, from as int) =~= Seq::<u8>::empty());
    }
    while i < to
        invariant
            from <= i <= to <= len == v@.len(),
            r@ == v@.subrange(from as int, i as int),
        decreases to - i,
    {
        r.push(v[i]);
        proof {
            assert(v@.subrange(from as int, i + 1) =~= v@.subrange(from as int, i as int).push(
                v@[i as int],
            ));
        }
        i += 1;
    }
    r
}

/// An atomic set of pending writes produced by a fork, in write order.
/// It is opaque to its owner: the node holds patches of successful
/// transactions until commit merges them.
pub struct Patch {
    writes: Vec<(Vec<u8>, Vec<u8>)>,
}

impl View for Patch {
    type V = Seq<(Seq<u8>, Seq<u8>)>;

    closed spec fn view(&self) -> Seq<(Seq<u8>, Seq<u8>)> {
        entries_view(self.writes@)
    }
}

/// The committed key/value state.
pub struct Store {
    entries: Vec<(Vec<u8>, Vec<u8>)>,
}

impl View for Store {
    type V = Seq<(Seq<u8>, Seq<u8>)>;

    closed spec fn view(&self) -> Seq<(Seq<u8>, Seq<u8>)> {
        entries_view(self.entries@)
    }
}

impl Store {
    /// An empty store, as a fresh node starts with.
    pub fn new() -> (r: Store)
        ensures
            r@ == Seq::<(Seq<u8>, Seq<u8>)>::empty(),
    {
        let r = Store { entries: Vec::new() };
        proof {
            assert(r@ =~= Seq::<(Seq<u8>, Seq<u8>)>::empty());
        }
        r
    }

    /// Look up a key as stored, reserved spaces included.
    pub(crate) fn raw_get(&self, key: &Vec<u8>) -> (r: Option<Vec<u8>>)
        ensures
            match r {
                Some(v) => kv_get(self@, key@) == Some(v@),
                None => kv_get(self@, key@) is None,
            },
    {
        let mut i: usize = 0;
        proof {
            assert(self@.skip(0) =~= self@);
        }
        while i < self.entries.len()
            invariant
                i <= self.entries.len(),
                kv_get(self@, key@) == kv_get(self@.skip(i as int), key@),
            decreases self.entries.len() - i,
        {
            proof {
                lemma_kv_get_skip(self@, key@, i as int);
            }
            if bytes_eq(&self.entries[i].0, key) {
                let v = clone_bytes(&self.entries[i].1);
                return Some(v);
            }
            i += 1;
        }
        proof {
            assert(self@.skip(self.entries.len() as int) =~= Seq::<(Seq<u8>, Seq<u8>)>::empty());
        }
        None
    }

    /// Write a key as stored, reserved spaces included.
    pub(crate) fn raw_put(&mut self, key: &Vec<u8>, value: Vec<u8>)
        ensures
            final(self)@ == kv_put(old(self)@, key@, value@),
    {
        let mut i: usize = 0;
        while i < self.entries.len()
            invariant
                i <= self.entries.len(),
                forall|j: int| 0 <= j < i ==> self@[j].0 != key@,
                self == old(self),
            decreases self.entries.len() - i,
        {
            if bytes_eq(&self.entries[i].0, key) {
                let k = clone_bytes(key);
                self.entries.set(i, (k, value));
                proof {
                    lemma_kv_put_is_update(old(self)@, i as int, key@, value@);
                    assert(self@ =~= old(self)@.update(i as int, (key@, value@)));
                }
                return ;
            }
            i += 1;
        }
        let k = clone_bytes(key);
        self.entries.push((k, value));
        proof {
            lemma_kv_put_is_push(old(self)@, key@, value@);
            assert(self@ =~= old(self)@.push((key@, value@)));
        }
    }

    /// Look up a service-space key.
    pub fn get(&self, key: &Vec<u8>) -> (r: Option<Vec<u8>>)
        ensures
            match r {
                Some(v) => kv_get(self@, user_key(key@)) == Some(v@),
                None => kv_get(self@, user_key(key@)) is None,
            },
    {
        let k = make_user_key(key);
        self.raw_get(&k)
    }

    /// How many entries the store holds.
    pub(crate) fn entry_count(&self) -> (n: usize)
        ensures
            n == self@.len(),
    {
        self.entries.len()
    }

    /// The key of the entry at `i`.
    pub(crate) fn entry_key(&self, i: usize) -> (k: &Vec<u8>)
        requires
            i < self@.len(),
        ensures
            k@ == self@[i as int].0,
    {
        &self.entries[i].0
    }

    /// The value of the entry at `i`.
    pub(crate) fn entry_value(&self, i: usize) -> (v: &Vec<u8>)
        requires
            i < self@.len(),
        ensures
            v@ == self@[i as int].1,
    {
        &self.entries[i].1
    }

    /// Open a fork of the committed state: an isolated mutable view whose
    /// writes stay invisible until the resulting patch is merged.
    pub fn fork(&self) -> (f: Fork<'_>)
        ensures
            f.base() == self@,
            f.writes() == Seq::<(Seq<u8>, Seq<u8>)>::empty(),
    {
        let f = Fork { base: self, log: Vec::new() };
        proof {
            assert(f.writes() =~= Seq::<(Seq<u8>, Seq<u8>)>::empty());
        }
        f
    }

    /// Merge a patch: apply its writes in order, atomically from the point of
    /// view of every reader, since the store is borrowed exclusively here.
    pub fn merge(&mut self, patch: &Patch)
        ensures
            final(self)@ == kv_apply(old(self)@, patch@),
    {
        let mut i: usize = 0;
        proof {
            assert(patch@.skip(0) =~= patch@);
        }
        while i < patch.writes.len()
            invariant
                i <= patch.writes.len(),
                kv_apply(old(self)@, patch@) == kv_apply(self@, patch@.skip(i as int)),
            decreases patch.writes.len() - i,
        {
            let ghost pre = self@;
            let v = clone_bytes(&patch.writes[i].1);
            self.raw_put(&patch.writes[i].0, v);
            proof {
                let rest = patch@.skip(i as int);
                assert(rest.first() == patch@[i as int]);
                assert(rest.drop_first() =~= patch@.skip(i + 1));
                assert(kv_apply(pre, rest) == kv_apply(
                    kv_put(pre, patch@[i as int].0, patch@[i as int].1),
                    patch@.skip(i + 1),
                ));
            }
            i += 1;
        }
        proof {
            assert(patch@.skip(patch.writes.len() as int) =~= Seq::<(Seq<u8>, Seq<u8>)>::empty());
        }
    }
}

/// An isolated, mutable, copy-on-write view of the store: reads see the
/// committed state unless overwritten here, writes accumulate in an ordered
/// log that never touches the committed state.
pub struct Fork<'a> {
    base: &'a Store,
    log: Vec<(Vec<u8>, Vec<u8>)>,
}

impl<'a> Fork<'a> {
    /// The committed state this fork was taken against.
    pub closed spec fn base(&self) -> Seq<(Seq<u8>, Seq<u8>)> {
        self.base@
    }

    /// The ordered write log accumulated so far.
    pub closed spec fn writes(&self) -> Seq<(Seq<u8>, Seq<u8>)> {
        entries_view(self.log@)
    }

    /// What the store would hold if this fork were merged now.
    pub open spec fn effective(&self) -> Seq<(Seq<u8>, Seq<u8>)> {
        kv_apply(self.base(), self.writes())
    }

    /// Look up a key as stored, reserved spaces included: the fork's own last
    /// write for the key wins, otherwise the base state answers.
    pub(crate) fn raw_get(&self, key: &Vec<u8>) -> (r: Option<Vec<u8>>)
        ensures
            match r {
                Some(v) => kv_get(self.effective(), key@) == Some(v@),
                None => kv_get(self.effective(), key@) is None,
            },
    {
        proof {
            lemma_kv_apply_get(self.base(), self.writes(), key@);
            assert(self.writes().take(self.log.len() as int) =~= self.writes());
        }
        let mut i: usize = self.log.len();
        while i > 0
            invariant
                i <= self.log.len(),
                log_get(self.writes(), key@) == log_get(self.writes().take(i as int), key@),
            decreases i,
        {
            i -= 1;
            proof {
                let cur = self.writes().take(i + 1);
                assert(cur.last() == self.writes()[i as int]);
                assert(cur.drop_last() =~= self.writes().take(i as int));
            }
            if bytes_eq(&self.log[i].0, key) {
                let v = clone_bytes(&self.log[i].1);
                proof {
                    let cur = self.writes().take(i + 1);
                    assert(cur.len() > 0);
                    assert(cur.last().0 == key@);
                    assert(log_get(cur, key@) == Some(cur.last().1));
                    assert(v@ == self.writes()[i as int].1);
                    assert(log_get(self.writes(), key@) == log_get(cur, key@));
                    assert(log_get(self.writes(), key@) == Some(v@));
                    lemma_kv_apply_get(self.base(), self.writes(), key@);
                    assert(kv_get(self.effective(), key@) == Some(v@));
                }
                return Some(v);
            }
        }
        proof {
            assert(self.writes().take(0) =~= Seq::<(Seq<u8>, Seq<u8>)>::empty());
        }
        self.base.raw_get(key)
    }

    /// Write a key as stored, reserved spaces included.
    pub(crate) fn raw_put(&mut self, key: &Vec<u8>, value: Vec<u8>)
        ensures
            final(self).base() == old(self).base(),
            final(self).writes() == old(self).writes().push((key@, value@)),
            final(self).effective() == kv_put(old(self).effective(), key@, value@),
    {
        let k = clone_bytes(key);
        self.log.push((k, value));
        proof {
            assert(final(self).writes() =~= old(self).writes().push((key@, value@)));
            lemma_kv_apply_push(old(self).base(), old(self).writes(), key@, value@);
        }
    }

    /// Look up a service-space key.
    pub fn get(&self, key: &Vec<u8>) -> (r: Option<Vec<u8>>)
        ensures
            match r {
                Some(v) => kv_get(self.effective(), user_key(key@)) == Some(v@),
                None => kv_get(self.effective(), user_key(key@)) is None,
            },
    {
        let k = make_user_key(key);
        self.raw_get(&k)
    }

    /// Write a service-space key.
    pub fn put(&mut self, key: &Vec<u8>, value: Vec<u8>)
        ensures
            final(self).base() == old(self).base(),
            final(self).writes() == old(self).writes().push((user_key(key@), value@)),
            final(self).effective() == kv_put(old(self).effective(), user_key(key@), value@),
    {
        let k = make_user_key(key);
        self.raw_put(&k, value);
    }

    /// Close the fork and hand its accumulated writes over as a patch.
    pub fn into_patch(self) -> (p: Patch)
        ensures
            p@ == self.writes(),
    {
        Patch { writes: self.log }
    }
}

} // verus!
