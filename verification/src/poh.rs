//! The hash-chain recorder: a continuously advancing, verifiable sequence
//! of (slot, hash) pairs. Each tick derives the next hash as the SHA-256
//! digest of the previous hash concatenated with the wall-clock timestamp
//! in milliseconds, and advances the slot by exactly one.

use vstd::prelude::*;

use crate::digests::{sha256, sha256_of};
use crate::errors::LedgerError;

verus! {

/// Big-endian byte `i` of a 128-bit value, counting from the most
/// significant byte.
pub open spec fn be_byte_16(x: u128, i: int) -> u8 {
    ((x >> (((15 - i) * 8) as u128)) & 0xff) as u8
}

/// The 16 bytes of a 128-bit value in big-endian order.
pub open spec fn be_bytes_16(x: u128) -> Seq<u8> {
    Seq::new(16, |i: int| be_byte_16(x, i))
}

/// Encodes a 128-bit value as 16 big-endian bytes.
pub fn u128_to_be_bytes(x: u128) -> (r: Vec<u8>)
    ensures
        r@ == be_bytes_16(x),
{
    let mut r: Vec<u8> = Vec::new();
    let mut i: usize = 0;
    while i < 16
        invariant
            0 <= i <= 16,
            r@.len() == i,
            forall|j: int| 0 <= j < i ==> r@[j] == be_byte_16(x, j),
        decreases 16 - i,
    {
        let s: u128 = ((15 - i) * 8) as u128;
        assert((x >> s) & 0xff < 256) by (bit_vector);
        let b: u8 = ((x >> s) & 0xff) as u8;
        assert(b == be_byte_16(x, i as int));
        r.push(b);
        i = i + 1;
    }
    proof {
        assert(r@ =~= be_bytes_16(x));
    }
    r
}

/// A negative clock reading is clamped to the epoch; otherwise the
/// timestamp is taken as is.
pub open spec fn millis_clamped(t: i64) -> u128 {
    if t >= 0 {
        t as u128
    } else {
        0
    }
}

/// The successor hash of the chain: the SHA-256 digest of the previous
/// hash followed by the 16 big-endian bytes of the timestamp.
pub open spec fn next_hash(h: Seq<u8>, t: u128) -> Seq<u8> {
    sha256_of(h + be_bytes_16(t))
}

/// Law: the recorder is deterministic. Ticking from an identical previous
/// hash at an identical timestamp produces an identical next hash.
pub proof fn lemma_tick_deterministic(h1: Seq<u8>, t1: i64, h2: Seq<u8>, t2: i64)
    requires
        h1 == h2,
        t1 == t2,
    ensures
        next_hash(h1, millis_clamped(t1)) == next_hash(h2, millis_clamped(t2)),
{
}

/// Relies on chrono's `Utc::now`: the current wall-clock time, in
/// milliseconds since the epoch. Nothing is promised of the reading.
#[verifier::external_body]
fn now_millis() -> i64 {
    chrono::Utc::now().timestamp_millis()
}

/// The hash-chain recorder. Both the hash and the slot start at zero.
pub struct PoHRecorder {
    pub current_hash: Vec<u8>,
    pub slot: u64,
}

impl PoHRecorder {
    /// The hash is always a 32-byte digest.
    pub open spec fn wf(&self) -> bool {
        self.current_hash@.len() == 32
    }

    /// The recorder's current hash, as a sequence of bytes.
    pub open spec fn hash_seq(&self) -> Seq<u8> {
        self.current_hash@
    }

    /// The recorder's current slot.
    pub open spec fn slot_spec(&self) -> u64 {
        self.slot
    }

    /// A fresh recorder: slot zero, all-zero hash.
    pub fn new() -> (r: PoHRecorder)
        ensures
            r.wf(),
            r.slot_spec() == 0,
            r.hash_seq() =~= Seq::new(32, |i: int| 0u8),
    {
        let mut h: Vec<u8> = Vec::new();
        let mut i: usize = 0;
        while i < 32
            invariant
                0 <= i <= 32,
                h@.len() == i,
                forall|j: int| 0 <= j < i ==> h@[j] == 0u8,
            decreases 32 - i,
        {
            h.push(0u8);
            i = i + 1;
        }
        PoHRecorder { current_hash: h, slot: 0 }
    }

    /// One tick at a given clock reading: the hash advances along the
    /// chain and the slot increments by exactly one.
    pub fn tick_at(&mut self, now_ms: i64)
        requires
            old(self).wf(),
            old(self).slot_spec() < u64::MAX,
        ensures
            final(self).wf(),
            final(self).slot_spec() == old(self).slot_spec() + 1,
            final(self).hash_seq() == next_hash(old(self).hash_seq(), millis_clamped(now_ms)),
    {
        let t: u128 = if now_ms >= 0 {
            now_ms as u128
        } else {
            0
        };
        let mut input = self.current_hash.clone();
        let mut tail = u128_to_be_bytes(t);
        input.append(&mut tail);
        proof {
            assert(input@ =~= old(self).hash_seq() + be_bytes_16(t));
        }
        self.current_hash = sha256(input.as_slice());
        self.slot = self.slot + 1;
    }

    /// One tick at the current wall-clock time.
    pub fn tick(&mut self)
        requires
            old(self).wf(),
            old(self).slot_spec() < u64::MAX,
        ensures
            final(self).wf(),
            final(self).slot_spec() == old(self).slot_spec() + 1,
            exists|t: u128| final(self).hash_seq() == next_hash(old(self).hash_seq(), t),
    {
        let now = now_millis();
        self.tick_at(now);
        proof {
            assert(self.hash_seq() == next_hash(old(self).hash_seq(), millis_clamped(now)));
        }
    }

    /// Starts the recorder: equivalent to one initial tick. Never fails.
    pub fn start(&mut self) -> (r: Result<(), LedgerError>)
        requires
            old(self).wf(),
            old(self).slot_spec() < u64::MAX,
        ensures
            r is Ok,
            final(self).wf(),
            final(self).slot_spec() == old(self).slot_spec() + 1,
            exists|t: u128| final(self).hash_seq() == next_hash(old(self).hash_seq(), t),
    {
        self.tick();
        Ok(())
    }

    /// The current slot.
    pub fn current_slot(&self) -> (r: u64)
        ensures
            r == self.slot_spec(),
    {
        self.slot
    }

    /// The current hash.
    pub fn hash(&self) -> (r: Vec<u8>)
        ensures
            r@ == self.hash_seq(),
    {
        self.current_hash.clone()
    }
}

} // verus!
