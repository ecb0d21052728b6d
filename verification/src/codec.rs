//! The deterministic binary envelope for transactions.
//!
//! A [`SignedTransaction`] travels over the wire as a fixed field sequence:
//! the sender bytes and the route, each with a four-byte little-endian length
//! prefix; one transaction-kind byte; the payload, again length-prefixed; and
//! an eight-byte little-endian nonce.  Decoding consumes the whole input or
//! fails.  Both directions are specified below and proved to round-trip.

use vstd::prelude::*;

use vstd::bytes::{
    lemma_auto_spec_u32_to_from_le_bytes, lemma_auto_spec_u64_to_from_le_bytes,
    spec_u32_from_le_bytes, spec_u32_to_le_bytes, spec_u64_from_le_bytes, spec_u64_to_le_bytes,
    u32_from_le_bytes, u32_to_le_bytes, u64_from_le_bytes, u64_to_le_bytes,
};
use vstd::slice::slice_subrange;

use crate::store::append_bytes;

verus! {

/// A length-prefixed byte field: four little-endian length bytes, then the
/// contents.
pub open spec fn spec_encode_bytes(b: Seq<u8>) -> Seq<u8> {
    spec_u32_to_le_bytes(b.len() as u32) + b
}

/// Read one length-prefixed byte field at `pos`; on success, the contents and
/// the position just past them.
pub open spec fn spec_read_bytes(s: Seq<u8>, pos: int) -> Option<(Seq<u8>, int)>
    recommends
        0 <= pos,
{
    if pos + 4 <= s.len() {
        let n = spec_u32_from_le_bytes(s.subrange(pos, pos + 4)) as int;
        if pos + 4 + n <= s.len() {
            Some((s.subrange(pos + 4, pos + 4 + n), pos + 4 + n))
        } else {
            None
        }
    } else {
        None
    }
}

/// The mathematical contents of a transaction envelope.
pub ghost struct SpecSignedTx {
    pub sender: Seq<u8>,
    pub route: Seq<u8>,
    pub txid: u8,
    pub payload: Seq<u8>,
    pub nonce: u64,
}

/// The envelope's byte form: each variable-length field length-prefixed, the
/// transaction-kind byte and the nonce raw.
pub open spec fn spec_encode_tx(t: SpecSignedTx) -> Seq<u8> {
    spec_encode_bytes(t.sender) + spec_encode_bytes(t.route) + seq![t.txid] + spec_encode_bytes(
        t.payload,
    ) + spec_u64_to_le_bytes(t.nonce)
}

/// Parse an envelope: all four fields in order, consuming the input exactly.
pub open spec fn spec_decode_tx(s: Seq<u8>) -> Option<SpecSignedTx> {
    match spec_read_bytes(s, 0) {
        None => None,
        Some((sender, p1)) => match spec_read_bytes(s, p1) {
            None => None,
            Some((route, p2)) => if p2 + 1 <= s.len() {
                match spec_read_bytes(s, p2 + 1) {
                    None => None,
                    Some((payload, p3)) => if p3 + 8 == s.len() {
                        Some(
                            SpecSignedTx {
                                sender,
                                route,
                                txid: s[p2],
                                payload,
                                nonce: spec_u64_from_le_bytes(s.subrange(p3, p3 + 8)),
                            },
                        )
                    } else {
                        None
                    },
                }
            } else {
                None
            },
        },
    }
}

/// An enveloped transaction: sender identity bytes, the route name of the
/// service it is addressed to, a service-defined transaction-kind
/// discriminant, an opaque payload, and a nonce.  Immutable once constructed.
pub struct SignedTransaction {
    pub sender: Vec<u8>,
    pub route: Vec<u8>,
    pub txid: u8,
    pub payload: Vec<u8>,
    pub nonce: u64,
}

impl View for SignedTransaction {
    type V = SpecSignedTx;

    open spec fn view(&self) -> SpecSignedTx {
        SpecSignedTx {
            sender: self.sender@,
            route: self.route@,
            txid: self.txid,
            payload: self.payload@,
            nonce: self.nonce,
        }
    }
}

impl SignedTransaction {
    /// Assemble an envelope from its parts.
    pub fn new(sender: Vec<u8>, route: Vec<u8>, txid: u8, payload: Vec<u8>, nonce: u64) -> (r:
        SignedTransaction)
        ensures
            r@ == (SpecSignedTx { sender: sender@, route: route@, txid, payload: payload@, nonce }),
    {
        SignedTransaction { sender, route, txid, payload, nonce }
    }

    /// Serialize the envelope to its byte form.
    pub fn encode(&self) -> (r: Vec<u8>)
        requires
            self.sender@.len() < 0x1_0000_0000,
            self.route@.len() < 0x1_0000_0000,
            self.payload@.len() < 0x1_0000_0000,
        ensures
            r@ == spec_encode_tx(self@),
    {
        let mut out: Vec<u8> = Vec::new();
        encode_prefixed(&mut out, &self.sender);
        encode_prefixed(&mut out, &self.route);
        out.push(self.txid);
        encode_prefixed(&mut out, &self.payload);
        let nonce_bytes = u64_to_le_bytes(self.nonce);
        append_bytes(&mut out, &nonce_bytes);
        proof {
            assert(out@ =~= spec_encode_tx(self@));
        }
        out
    }
}

/// Append one length-prefixed field to an output buffer.
fn encode_prefixed(dst: &mut Vec<u8>, b: &Vec<u8>)
    requires
        b@.len() < 0x1_0000_0000,
    ensures
        final(dst)@ == old(dst)@ + spec_encode_bytes(b@),
{
    let len_bytes = u32_to_le_bytes(b.len() as u32);
    append_bytes(dst, &len_bytes);
    append_bytes(dst, b);
    proof {
        assert(final(dst)@ =~= old(dst)@ + spec_encode_bytes(b@));
    }
}

/// Read one length-prefixed field at `pos`.
fn read_prefixed(raw: &Vec<u8>, pos: usize) -> (r: Option<(Vec<u8>, usize)>)
    requires
        pos <= raw@.len(),
    ensures
        match r {
            Some(p) => spec_read_bytes(raw@, pos as int) == Some((p.0@, p.1 as int)) && p.1
                <= raw@.len(),
            None => spec_read_bytes(raw@, pos as int) is None,
        },
{
    let remaining = raw.len() - pos;
    if remaining < 4 {
        return None;
    }
    let n32 = u32_from_le_bytes(slice_subrange(raw.as_slice(), pos, pos + 4));
    let n = n32 as usize;
    if n > remaining - 4 {
        return None;
    }
    let start = pos + 4;
    let mut field: Vec<u8> = Vec::new();
    let mut i: usize = 0;
    while i < n
        invariant
            i <= n,
            start + n <= raw@.len(),
            raw@.len() <= usize::MAX,
            field@ == raw@.subrange(start as int, start + i),
        decreases n - i,
    {
        field.push(raw[start + i]);
        proof {
            assert(raw@.subrange(start as int, start + i + 1) =~= raw@.subrange(
                start as int,
                start + i,
            ).push(raw@[start + i]));
        }
        i += 1;
    }
    Some((field, start + n))
}

/// Deserialize an envelope; `None` when the bytes are not exactly one
/// envelope.
pub fn decode_signed_tx(raw: &Vec<u8>) -> (r: Option<SignedTransaction>)
    ensures
        match r {
            Some(tx) => spec_decode_tx(raw@) == Some(tx@),
            None => spec_decode_tx(raw@) is None,
        },
{
    let sender = read_prefixed(raw, 0);
    let (sender, p1) = match sender {
        Some(p) => p,
        None => { return None },
    };
    let route = read_prefixed(raw, p1);
    let (route, p2) = match route {
        Some(p) => p,
        None => { return None },
    };
    if p2 >= raw.len() {
        return None;
    }
    let txid = raw[p2];
    let payload = read_prefixed(raw, p2 + 1);
    let (payload, p3) = match payload {
        Some(p) => p,
        None => { return None },
    };
    if raw.len() - p3 != 8 {
        return None;
    }
    let nonce = u64_from_le_bytes(slice_subrange(raw.as_slice(), p3, p3 + 8));
    Some(SignedTransaction { sender, route, txid, payload, nonce })
}

/// The envelope codec round-trips: decoding an encoded envelope gives the
/// envelope back, for every envelope whose fields fit their length prefixes.
pub proof fn lemma_tx_round_trip(t: SpecSignedTx)
    requires
        t.sender.len() < 0x1_0000_0000,
        t.route.len() < 0x1_0000_0000,
        t.payload.len() < 0x1_0000_0000,
    ensures
        spec_decode_tx(spec_encode_tx(t)) == Some(t),
{
    lemma_auto_spec_u32_to_from_le_bytes();
    lemma_auto_spec_u64_to_from_le_bytes();
    let e = spec_encode_tx(t);
    let a = 4 + t.sender.len() as int;
    let b = a + 4 + t.route.len() as int;
    let c = b + 1;
    let d = c + 4 + t.payload.len() as int;
    assert(e.len() == d + 8);
    assert(e.subrange(0, 4) =~= spec_u32_to_le_bytes(t.sender.len() as u32));
    assert(spec_u32_from_le_bytes(e.subrange(0, 4)) == t.sender.len());
    assert(e.subrange(4, a) =~= t.sender);
    assert(spec_read_bytes(e, 0) == Some((t.sender, a)));
    assert(e.subrange(a, a + 4) =~= spec_u32_to_le_bytes(t.route.len() as u32));
    assert(spec_u32_from_le_bytes(e.subrange(a, a + 4)) == t.route.len());
    assert(e.subrange(a + 4, b) =~= t.route);
    assert(spec_read_bytes(e, a) == Some((t.route, b)));
    assert(e[b] == t.txid);
    assert(e.subrange(c, c + 4) =~= spec_u32_to_le_bytes(t.payload.len() as u32));
    assert(spec_u32_from_le_bytes(e.subrange(c, c + 4)) == t.payload.len());
    assert(e.subrange(c + 4, d) =~= t.payload);
    assert(spec_read_bytes(e, c) == Some((t.payload, d)));
    assert(e.subrange(d, d + 8) =~= spec_u64_to_le_bytes(t.nonce));
    assert(spec_u64_from_le_bytes(e.subrange(d, d + 8)) == t.nonce);
}

} // verus!
