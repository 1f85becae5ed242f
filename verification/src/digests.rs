//! Digest and encoding primitives the consensus engine relies on: SHA-256
//! for the hash chain, scrypt for the proof-of-work search, a Merkle root
//! over transaction-signature leaves, and hexadecimal rendering of
//! signatures for the ledger's de-duplication set.

use vstd::prelude::*;

use crate::numerals::dec_digit_char;
use sha2::Digest;

verus! {

/// The SHA-256 digest of a byte string. The digest itself is not modeled;
/// it is a fixed function of the input bytes alone.
pub uninterp spec fn sha256_of(input: Seq<u8>) -> Seq<u8>;

/// Relies on sha2's `Sha256`: a deterministic 32-byte digest of the input.
#[verifier::external_body]
pub(crate) fn sha256(input: &[u8]) -> (r: Vec<u8>)
    ensures
        r@ == sha256_of(input@),
        r@.len() == 32,
{
    sha2::Sha256::digest(input).to_vec()
}

/// The scrypt digest, at the proposer's fixed cost parameters and empty
/// salt, of a candidate byte string: a fixed function of the input alone.
pub uninterp spec fn pow_digest_of(input: Seq<u8>) -> Seq<u8>;

/// Relies on scrypt's `scrypt`: a deterministic memory-hard digest of the
/// input, filling the requested 32-byte output. With cost parameters
/// `(log_n = 10, r = 1, p = 1)` and a 32-byte output, both `Params::new`
/// and `scrypt` are infallible by their own argument checks.
#[verifier::external_body]
pub(crate) fn pow_digest(input: &[u8]) -> (r: Vec<u8>)
    ensures
        r@ == pow_digest_of(input@),
        r@.len() == 32,
{
    let params = scrypt::Params::new(10, 1, 1).unwrap();
    let mut out = vec![0u8; 32];
    scrypt::scrypt(input, &[], &params, &mut out).unwrap();
    out
}

/// The Merkle root that `rs_merkle` computes over these 32-byte leaves:
/// a fixed function of the leaf sequence alone (`None` for no leaves).
pub uninterp spec fn merkle_root_of(leaves: Seq<Seq<u8>>) -> Option<[u8; 32]>;

/// Relies on rs_merkle's `MerkleTree::from_leaves` and `root`: the root is
/// a deterministic digest of the leaf sequence, absent when there are no
/// leaves.
#[verifier::external_body]
pub(crate) fn merkle_root(leaves: &Vec<Vec<u8>>) -> (r: Option<[u8; 32]>)
    requires
        forall|i: int| 0 <= i < leaves@.len() ==> (#[trigger] leaves@[i])@.len() == 32,
    ensures
        r == merkle_root_of(leaves.deep_view()),
        leaves@.len() == 0 ==> r is None,
{
    let arrs: Vec<[u8; 32]> = leaves.iter().map(|l| <[u8; 32]>::try_from(l.as_slice()).unwrap()).collect();
    rs_merkle::MerkleTree::<rs_merkle::algorithms::Sha256>::from_leaves(&arrs).root()
}

/// The lowercase hexadecimal character for a value in `0 ..= 15`.
pub open spec fn hex_digit_char(d: int) -> char {
    if d < 10 {
        dec_digit_char(d)
    } else if d == 10 {
        'a'
    } else if d == 11 {
        'b'
    } else if d == 12 {
        'c'
    } else if d == 13 {
        'd'
    } else if d == 14 {
        'e'
    } else {
        'f'
    }
}

/// The lowercase hexadecimal rendering of a byte string, two characters
/// per byte, most significant nibble first.
pub open spec fn hex_of(bytes: Seq<u8>) -> Seq<char>
    decreases bytes.len(),
{
    if bytes.len() == 0 {
        Seq::empty()
    } else {
        hex_of(bytes.drop_last()) + seq![
            hex_digit_char(bytes.last() as int / 16),
            hex_digit_char(bytes.last() as int % 16),
        ]
    }
}

/// A hexadecimal rendering is twice as long as its byte string.
pub proof fn lemma_hex_of_len(a: Seq<u8>)
    ensures
        hex_of(a).len() == 2 * a.len(),
    decreases a.len(),
{
    if a.len() > 0 {
        lemma_hex_of_len(a.drop_last());
    }
}

/// Two byte strings with the same hexadecimal rendering are the same:
/// keying the de-duplication set by renderings keys it by signatures.
pub proof fn lemma_hex_of_injective(a: Seq<u8>, b: Seq<u8>)
    requires
        hex_of(a) == hex_of(b),
    ensures
        a == b,
    decreases a.len(),
{
    lemma_hex_of_len(a);
    lemma_hex_of_len(b);
    if a.len() == 0 {
        assert(a =~= b);
    } else {
        let x = a.last();
        let y = b.last();
        let n = a.len() as int;
        assert(hex_of(a)[2 * n - 2] == hex_digit_char(x as int / 16));
        assert(hex_of(a)[2 * n - 1] == hex_digit_char(x as int % 16));
        assert(hex_of(b)[2 * n - 2] == hex_digit_char(y as int / 16));
        assert(hex_of(b)[2 * n - 1] == hex_digit_char(y as int % 16));
        assert(forall|m: int, k: int|
            0 <= m < 16 && 0 <= k < 16 && #[trigger] hex_digit_char(m) == #[trigger] hex_digit_char(
                k,
            ) ==> m == k);
        assert(x as int / 16 == y as int / 16 && x as int % 16 == y as int % 16);
        assert(x == y);
        lemma_hex_of_len(a.drop_last());
        lemma_hex_of_len(b.drop_last());
        let pa = hex_of(a.drop_last());
        let pb = hex_of(b.drop_last());
        let ta = seq![hex_digit_char(x as int / 16), hex_digit_char(x as int % 16)];
        let tb = seq![hex_digit_char(y as int / 16), hex_digit_char(y as int % 16)];
        assert(hex_of(a) == pa + ta);
        assert(hex_of(b) == pb + tb);
        assert forall|i: int| 0 <= i < 2 * n - 2 implies pa[i] == pb[i] by {
            assert((pa + ta)[i] == pa[i]);
            assert((pb + tb)[i] == pb[i]);
        }
        assert(pa =~= pb);
        lemma_hex_of_injective(a.drop_last(), b.drop_last());
        assert forall|i: int| 0 <= i < n implies a[i] == b[i] by {
            if i < n - 1 {
                assert(a.drop_last()[i] == b.drop_last()[i]);
            } else {
                assert(a[i] == x && b[i] == y);
            }
        }
        assert(a =~= b);
    }
}

/// Relies on hex's `encode`: lowercase hexadecimal, two digits per byte.
#[verifier::external_body]
pub(crate) fn hex_encode(bytes: &Vec<u8>) -> (r: String)
    ensures
        r@ == hex_of(bytes@),
{
    hex::encode(bytes)
}

} // verus!
