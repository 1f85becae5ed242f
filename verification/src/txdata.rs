//! The ledger consumes transactions as opaque signed payloads owned by the
//! wallet layer. What the ledger's logic actually reads — the first
//! signature, the paying and receiving account addresses, the message
//! section lengths, and the outcome of cryptographic verification — is
//! extracted here into plain values, each under a name so that the
//! ledger's contracts can speak of a payload's content exactly.

use vstd::prelude::*;

verus! {

#[verifier::external_type_specification]
#[verifier::external_body]
pub struct ExTransaction(solana_sdk::transaction::Transaction);

/// The payload's wire format writes every message section — the account
/// list, the instruction list, and each instruction's account indices and
/// data — behind a compact length prefix that caps a section at this many
/// entries. A longer section cannot be serialized, so verification is only
/// attempted on payloads screened against this bound.
pub const MAX_SECTION_ENTRIES: usize = 65_535;

/// How many account addresses the payload's message names: a fixed
/// function of the payload alone.
pub uninterp spec fn tx_account_count_of(tx: solana_sdk::transaction::Transaction) -> usize;

/// Relies on solana-sdk's `Message.account_keys`: how many account
/// addresses the payload's message names.
#[verifier::external_body]
pub(crate) fn tx_account_count(tx: &solana_sdk::transaction::Transaction) -> (r: usize)
    ensures
        r == tx_account_count_of(*tx),
{
    tx.message.account_keys.len()
}

/// The account-index and data lengths of each compiled instruction of the
/// payload, in order: a fixed function of the payload alone.
pub uninterp spec fn tx_instruction_sizes_of(tx: solana_sdk::transaction::Transaction) -> Seq<
    (usize, usize),
>;

/// Relies on solana-sdk's `Message.instructions`: the account-index and
/// data lengths of each compiled instruction, in order.
#[verifier::external_body]
pub(crate) fn tx_instruction_sizes(tx: &solana_sdk::transaction::Transaction) -> (r: Vec<
    (usize, usize),
>)
    ensures
        r@ == tx_instruction_sizes_of(*tx),
{
    tx.message.instructions.iter().map(|ix| (ix.accounts.len(), ix.data.len())).collect()
}

/// Whether every message section of the payload fits the wire format's
/// length prefix, so that serializing — and therefore verifying — the
/// payload returns.
pub open spec fn payload_within_wire_bounds(tx: solana_sdk::transaction::Transaction) -> bool {
    &&& tx_account_count_of(tx) <= MAX_SECTION_ENTRIES
    &&& tx_instruction_sizes_of(tx).len() <= MAX_SECTION_ENTRIES as int
    &&& forall|i: int|
        0 <= i < tx_instruction_sizes_of(tx).len() ==> (#[trigger] tx_instruction_sizes_of(tx)[i]).0
            <= MAX_SECTION_ENTRIES && tx_instruction_sizes_of(tx)[i].1 <= MAX_SECTION_ENTRIES
}

/// The payload's first signature, as bytes, when one is present: a fixed
/// function of the payload alone.
pub uninterp spec fn tx_first_sig_of(tx: solana_sdk::transaction::Transaction) -> Option<Seq<u8>>;

/// Relies on solana-sdk's `Transaction.signatures`: the first signature of
/// the payload, when one is present; a signature is exactly 64 bytes.
#[verifier::external_body]
pub(crate) fn tx_first_signature(tx: &solana_sdk::transaction::Transaction) -> (r: Option<
    Vec<u8>,
>)
    ensures
        match r {
            Some(s) => tx_first_sig_of(*tx) == Some(s@) && s@.len() == 64,
            None => tx_first_sig_of(*tx) is None,
        },
{
    tx.signatures.get(0).map(|s| s.as_ref().to_vec())
}

/// The base58 rendering of the address at position `i` of the payload's
/// account list, when one is there: a fixed function of the payload alone.
pub uninterp spec fn tx_key_of(tx: solana_sdk::transaction::Transaction, i: usize) -> Option<
    Seq<char>,
>;

/// Relies on solana-sdk's `Message.account_keys`: the address at position
/// `i` of the payload's account list, rendered in its canonical base58
/// form.
#[verifier::external_body]
pub(crate) fn tx_account_key(tx: &solana_sdk::transaction::Transaction, i: usize) -> (r: Option<
    String,
>)
    ensures
        match r {
            Some(s) => tx_key_of(*tx, i) == Some(s@),
            None => tx_key_of(*tx, i) is None,
        },
{
    tx.message.account_keys.get(i).map(|p| p.to_string())
}

/// Whether every signer's signature of the payload is valid over its
/// message bytes: a fixed function of the payload alone.
pub uninterp spec fn tx_verified(tx: solana_sdk::transaction::Transaction) -> bool;

/// Relies on solana-sdk's `Transaction::verify`: whether every signer's
/// signature is valid over the payload's message bytes. `verify`
/// serializes the message, and that serialization refuses — by panic —
/// any message section longer than `MAX_SECTION_ENTRIES`; the `requires`
/// keeps such payloads out, and callers screen the section lengths,
/// through `tx_account_count` and `tx_instruction_sizes`, to establish it.
#[verifier::external_body]
pub(crate) fn tx_verify(tx: &solana_sdk::transaction::Transaction) -> (r: bool)
    requires
        payload_within_wire_bounds(*tx),
    ensures
        r == tx_verified(*tx),
{
    tx.verify().is_ok()
}

/// Whether `signature` is a valid ed25519 signature over `message` by the
/// key whose base58 form is `key`: a fixed function of the three values.
pub uninterp spec fn signature_valid(key: Seq<char>, message: Seq<u8>, signature: Seq<u8>) -> bool;

/// Relies on solana-sdk's `Signature::verify`: true exactly when the
/// signature checks out against the parsed key over the message bytes,
/// false also when the key or the signature does not parse. Total and
/// deterministic in its three arguments.
#[verifier::external_body]
pub(crate) fn verify_signature(key: &String, message: &Vec<u8>, signature: &Vec<u8>) -> (r: bool)
    ensures
        r == signature_valid(key@, message@, signature@),
{
    let parsed_key = match <solana_sdk::pubkey::Pubkey as core::str::FromStr>::from_str(
        key.as_str(),
    ) {
        Ok(k) => k,
        Err(_) => return false,
    };
    let parsed_sig = match solana_sdk::signature::Signature::try_from(signature.clone()) {
        Ok(s) => s,
        Err(_) => return false,
    };
    parsed_sig.verify(parsed_key.as_ref(), message)
}

/// The debug rendering of the payload, recorded verbatim in the durable
/// log: a fixed function of the payload alone.
pub uninterp spec fn tx_debug_of(tx: solana_sdk::transaction::Transaction) -> Seq<char>;

/// Relies on the `Debug` rendering of solana-sdk's `Transaction`, recorded
/// verbatim in the durable log as the node writes it.
#[verifier::external_body]
pub(crate) fn tx_debug_string(tx: &solana_sdk::transaction::Transaction) -> (r: String)
    ensures
        r@ == tx_debug_of(*tx),
{
    format!("{:?}", tx)
}

/// Whether a string is a well-formed account address: a fixed predicate on
/// the characters alone.
pub uninterp spec fn valid_address(s: Seq<char>) -> bool;

/// Relies on solana-sdk's `Pubkey::from_str`: accepts exactly the base58
/// strings that decode to a 32-byte address.
#[verifier::external_body]
pub(crate) fn is_valid_address(s: &String) -> (r: bool)
    ensures
        r == valid_address(s@),
{
    <solana_sdk::pubkey::Pubkey as core::str::FromStr>::from_str(s.as_str()).is_ok()
}

} // verus!
