//! The durable ledger log: append-only, line-oriented, human-readable.
//! Transaction, transfer-summary, finalization and checkpoint records are
//! written but never replayed; airdrop records, in the literal form
//! `Airdrop: <amount> XRS to <address>`, are what restart recovery parses.

use vstd::prelude::*;

use crate::numerals::{all_digits, dec_digits, dec_val, digit_val, parse_u64_dec, u64_to_dec};

verus! {

/// The literal prefix of a replayable airdrop record.
pub open spec fn airdrop_prefix() -> Seq<char> {
    "Airdrop: "@
}

/// The literal separator between an airdrop record's amount and address.
pub open spec fn xrs_sep() -> Seq<char> {
    " XRS to "@
}

/// The airdrop record for a whole-token amount and an address.
pub open spec fn airdrop_line_spec(amount_xrs: u64, addr: Seq<char>) -> Seq<char> {
    airdrop_prefix() + dec_digits(amount_xrs as nat) + xrs_sep() + addr
}

/// The transaction record for a slot, carrying the payload's debug form.
pub open spec fn tx_line_spec(slot: u64, txdbg: Seq<char>) -> Seq<char> {
    "Local Alpha: Slot "@ + dec_digits(slot as nat) + " Tx: "@ + txdbg
}

/// The transfer-summary record, amounts in whole tokens.
pub open spec fn transfer_line_spec(
    amount_xrs: u64,
    from: Seq<char>,
    to: Seq<char>,
    fee_xrs: u64,
) -> Seq<char> {
    "Transfer: "@ + dec_digits(amount_xrs as nat) + " XRS from "@ + from + " to "@ + to
        + ", fee burned: "@ + dec_digits(fee_xrs as nat) + " XRS"@
}

/// The finalization marker for a slot.
pub open spec fn finalized_line_spec(slot: u64) -> Seq<char> {
    "Local Alpha: Tx finalized at slot "@ + dec_digits(slot as nat)
}

/// The checkpoint marker for a slot.
pub open spec fn checkpoint_line_spec(slot: u64) -> Seq<char> {
    "Local Alpha: Checkpoint at slot "@ + dec_digits(slot as nat)
}

/// Whether the separator occurs in `s` at position `i`.
pub open spec fn sep_match_at(s: Seq<char>, i: int) -> bool {
    0 <= i && i + 8 <= s.len() && s.subrange(i, i + 8) == xrs_sep()
}

/// The position of the first separator occurrence at or after `i`, or `-1`.
pub open spec fn first_sep_from(s: Seq<char>, i: int) -> int
    decreases s.len() - i
        when 0 <= i <= s.len()
{
    if i < 0 || i + 8 > s.len() {
        -1
    } else if sep_match_at(s, i) {
        i
    } else {
        first_sep_from(s, i + 1)
    }
}

/// What restart recovery reads out of one log line: the whole-token amount
/// and the recipient address of an airdrop record, or nothing. A line
/// parses exactly when it starts with the airdrop prefix, contains exactly
/// one separator, and the text between prefix and separator is a nonempty
/// digit string whose value fits in a `u64`.
pub open spec fn parse_airdrop_spec(line: Seq<char>) -> Option<(u64, Seq<char>)> {
    if line.len() < 9 || line.subrange(0, 9) != airdrop_prefix() {
        None
    } else {
        let p = first_sep_from(line, 9);
        if p < 0 {
            None
        } else if first_sep_from(line, p + 1) >= 0 {
            None
        } else {
            let d = line.subrange(9, p);
            if d.len() > 0 && all_digits(d) && dec_val(d) <= u64::MAX {
                Some(((dec_val(d)) as u64, line.subrange(p + 8, line.len() as int)))
            } else {
                None
            }
        }
    }
}

/// Whether the separator occurs anywhere in `s`.
pub open spec fn contains_sep(s: Seq<char>) -> bool {
    exists|i: int| sep_match_at(s, i)
}

proof fn lemma_first_sep_found(s: Seq<char>, i: int, q: int)
    requires
        0 <= i <= q,
        q + 8 <= s.len(),
        sep_match_at(s, q),
        forall|p: int| i <= p < q ==> !sep_match_at(s, p),
    ensures
        first_sep_from(s, i) == q,
    decreases q - i,
{
    if i < q {
        lemma_first_sep_found(s, i + 1, q);
    }
}

proof fn lemma_first_sep_none(s: Seq<char>, i: int)
    requires
        0 <= i <= s.len(),
        forall|p: int| i <= p ==> !sep_match_at(s, p),
    ensures
        first_sep_from(s, i) == -1,
    decreases s.len() - i,
{
    if i + 8 <= s.len() {
        lemma_first_sep_none(s, i + 1);
    }
}

/// Law: log round trip. A record written for a whole-token amount and an
/// address parses back to exactly that amount and address, provided the
/// address neither contains the separator nor begins with its tail — true
/// of every well-formed base58 account address, which has no spaces.
pub proof fn lemma_airdrop_line_round_trip(amount_xrs: u64, addr: Seq<char>)
    requires
        !contains_sep(seq![' '] + addr),
    ensures
        parse_airdrop_spec(airdrop_line_spec(amount_xrs, addr)) == Some((amount_xrs, addr)),
{
    reveal_strlit("Airdrop: ");
    reveal_strlit(" XRS to ");
    let d = dec_digits(amount_xrs as nat);
    crate::numerals::lemma_dec_round_trip(amount_xrs as nat);
    let line = airdrop_line_spec(amount_xrs, addr);
    let dlen = d.len() as int;
    let q = 9 + dlen;
    let n = line.len() as int;
    assert(airdrop_prefix().len() == 9);
    assert(xrs_sep().len() == 8);
    assert(n == 9 + dlen + 8 + addr.len());
    assert(forall|i: int| 0 <= i < 9 ==> line[i] == airdrop_prefix()[i]);
    assert(forall|i: int| 0 <= i < dlen ==> line[9 + i] == d[i]);
    assert(forall|i: int| 0 <= i < 8 ==> line[q + i] == xrs_sep()[i]);
    assert(forall|i: int| 0 <= i < addr.len() ==> line[q + 8 + i] == addr[i]);
    assert(line.subrange(0, 9) =~= airdrop_prefix());
    assert(line.subrange(q, q + 8) =~= xrs_sep());
    assert(sep_match_at(line, q));
    // No digit is a space, so the separator cannot start inside the digits.
    assert forall|p: int| 9 <= p < q implies !sep_match_at(line, p) by {
        assert(digit_val(d[p - 9]) >= 0);
        assert(line[p] != ' ');
        if sep_match_at(line, p) {
            assert(line.subrange(p, p + 8)[0] == xrs_sep()[0]);
        }
    }
    lemma_first_sep_found(line, 9, q);
    // Nothing past the one separator matches it again.
    assert forall|p: int| q + 1 <= p implies !sep_match_at(line, p) by {
        if sep_match_at(line, p) {
            let o = p - q;
            assert(forall|k: int| 0 <= k < 8 ==> line.subrange(p, p + 8)[k] == xrs_sep()[k]);
            assert(forall|k: int| 0 <= k < 8 ==> line[p + k] == xrs_sep()[k]);
            if o < 7 {
                // The separator does not overlap itself at offsets 1 to 6.
                assert(line[p] == xrs_sep()[o]);
                assert(line[p] == xrs_sep()[0]);
                assert(o == 4 || o == 7) by {
                    assert(xrs_sep()[o] == ' ');
                }
                assert(line[p + 1] == xrs_sep()[5]);
                assert(line[p + 1] == xrs_sep()[1]);
                assert(false);
            } else {
                // An occurrence past the separator lies inside ` ` + addr.
                let t = seq![' '] + addr;
                assert forall|k: int| 0 <= k < 8 implies t[o - 7 + k] == xrs_sep()[k] by {
                    if o - 7 + k == 0 {
                        assert(t[0] == ' ');
                        assert(line[p + k] == xrs_sep()[k]);
                        assert(p + k == q + 7);
                        assert(line[q + 7] == xrs_sep()[7]);
                    } else {
                        assert(t[o - 7 + k] == addr[o - 8 + k]);
                        assert(line[p + k] == addr[o - 8 + k]);
                    }
                }
                assert(t.subrange(o - 7, o - 7 + 8) =~= xrs_sep());
                assert(sep_match_at(t, o - 7));
                assert(contains_sep(t));
                assert(false);
            }
        }
    }
    lemma_first_sep_none(line, q + 1);
    assert(line.subrange(9, q) =~= d);
    assert(line.subrange(q + 8, n) =~= addr);
}

/// Builds the replayable airdrop record for a whole-token amount.
pub fn airdrop_line(amount_xrs: u64, addr: &String) -> (r: String)
    ensures
        r@ == airdrop_line_spec(amount_xrs, addr@),
{
    let mut s = String::from_str("Airdrop: ");
    let d = u64_to_dec(amount_xrs);
    s.append(d.as_str());
    s.append(" XRS to ");
    s.append(addr.as_str());
    proof {
        assert(s@ =~= airdrop_line_spec(amount_xrs, addr@));
    }
    s
}

/// Builds the transaction record for a slot.
pub fn tx_line(slot: u64, txdbg: &String) -> (r: String)
    ensures
        r@ == tx_line_spec(slot, txdbg@),
{
    let mut s = String::from_str("Local Alpha: Slot ");
    let d = u64_to_dec(slot);
    s.append(d.as_str());
    s.append(" Tx: ");
    s.append(txdbg.as_str());
    proof {
        assert(s@ =~= tx_line_spec(slot, txdbg@));
    }
    s
}

/// Builds the transfer-summary record, amounts in whole tokens.
pub fn transfer_line(amount_xrs: u64, from: &String, to: &String, fee_xrs: u64) -> (r: String)
    ensures
        r@ == transfer_line_spec(amount_xrs, from@, to@, fee_xrs),
{
    let mut s = String::from_str("Transfer: ");
    let d = u64_to_dec(amount_xrs);
    s.append(d.as_str());
    s.append(" XRS from ");
    s.append(from.as_str());
    s.append(" to ");
    s.append(to.as_str());
    s.append(", fee burned: ");
    let f = u64_to_dec(fee_xrs);
    s.append(f.as_str());
    s.append(" XRS");
    proof {
        assert(s@ =~= transfer_line_spec(amount_xrs, from@, to@, fee_xrs));
    }
    s
}

/// Builds the finalization marker for a slot.
pub fn finalized_line(slot: u64) -> (r: String)
    ensures
        r@ == finalized_line_spec(slot),
{
    let mut s = String::from_str("Local Alpha: Tx finalized at slot ");
    let d = u64_to_dec(slot);
    s.append(d.as_str());
    proof {
        assert(s@ =~= finalized_line_spec(slot));
    }
    s
}

/// Builds the checkpoint marker for a slot.
pub fn checkpoint_line(slot: u64) -> (r: String)
    ensures
        r@ == checkpoint_line_spec(slot),
{
    let mut s = String::from_str("Local Alpha: Checkpoint at slot ");
    let d = u64_to_dec(slot);
    s.append(d.as_str());
    proof {
        assert(s@ =~= checkpoint_line_spec(slot));
    }
    s
}

/// Whether the separator occurs at position `i` of `s`.
fn sep_match(s: &str, i: usize, n: usize) -> (r: bool)
    requires
        n == s@.len(),
        i + 8 <= n,
    ensures
        r == sep_match_at(s@, i as int),
{
    proof {
        reveal_strlit(" XRS to ");
    }
    let r = s.get_char(i) == ' ' && s.get_char(i + 1) == 'X' && s.get_char(i + 2) == 'R'
        && s.get_char(i + 3) == 'S' && s.get_char(i + 4) == ' ' && s.get_char(i + 5) == 't'
        && s.get_char(i + 6) == 'o' && s.get_char(i + 7) == ' ';
    proof {
        let ss = s@.subrange(i as int, i as int + 8);
        if r {
            assert(ss =~= xrs_sep());
        } else if ss == xrs_sep() {
            assert(ss[0] == xrs_sep()[0]);
            assert(ss[1] == xrs_sep()[1]);
            assert(ss[2] == xrs_sep()[2]);
            assert(ss[3] == xrs_sep()[3]);
            assert(ss[4] == xrs_sep()[4]);
            assert(ss[5] == xrs_sep()[5]);
            assert(ss[6] == xrs_sep()[6]);
            assert(ss[7] == xrs_sep()[7]);
            assert(false);
        }
    }
    r
}

/// The first separator occurrence at or after `from`, if any.
fn find_sep(s: &str, from: usize, n: usize) -> (r: Option<usize>)
    requires
        n == s@.len(),
        from <= n,
    ensures
        match r {
            Some(p) => from <= p && p as int == first_sep_from(s@, from as int)
                && sep_match_at(s@, p as int),
            None => first_sep_from(s@, from as int) == -1,
        },
{
    if n < 8 {
        return None;
    }
    let mut i = from;
    while i <= n - 8
        invariant
            n == s@.len(),
            8 <= n,
            from <= i <= n,
            first_sep_from(s@, from as int) == first_sep_from(s@, i as int),
        decreases n - i,
    {
        if sep_match(s, i, n) {
            return Some(i);
        }
        i = i + 1;
    }
    None
}

/// Parses one log line as an airdrop record, exactly as restart recovery
/// reads it.
pub fn parse_airdrop_line(line: &str) -> (r: Option<(u64, String)>)
    ensures
        match r {
            Some(p) => parse_airdrop_spec(line@) == Some((p.0, p.1@)),
            None => parse_airdrop_spec(line@) is None,
        },
{
    proof {
        reveal_strlit("Airdrop: ");
    }
    let n = line.unicode_len();
    if n < 9 {
        return None;
    }
    let prefix_ok = line.get_char(0) == 'A' && line.get_char(1) == 'i' && line.get_char(2) == 'r'
        && line.get_char(3) == 'd' && line.get_char(4) == 'r' && line.get_char(5) == 'o'
        && line.get_char(6) == 'p' && line.get_char(7) == ':' && line.get_char(8) == ' ';
    if !prefix_ok {
        proof {
            let ps = line@.subrange(0, 9);
            if ps == airdrop_prefix() {
                assert(ps[0] == airdrop_prefix()[0]);
                assert(ps[1] == airdrop_prefix()[1]);
                assert(ps[2] == airdrop_prefix()[2]);
                assert(ps[3] == airdrop_prefix()[3]);
                assert(ps[4] == airdrop_prefix()[4]);
                assert(ps[5] == airdrop_prefix()[5]);
                assert(ps[6] == airdrop_prefix()[6]);
                assert(ps[7] == airdrop_prefix()[7]);
                assert(ps[8] == airdrop_prefix()[8]);
                assert(false);
            }
        }
        return None;
    }
    proof {
        assert(line@.subrange(0, 9) =~= airdrop_prefix());
    }
    let p = match find_sep(line, 9, n) {
        Some(p) => p,
        None => {
            return None;
        },
    };
    match find_sep(line, p + 1, n) {
        Some(_) => {
            return None;
        },
        None => {},
    }
    let digits = line.substring_char(9, p);
    let amount = match parse_u64_dec(digits) {
        Some(v) => v,
        None => {
            proof {
                let d = line@.subrange(9, p as int);
                assert(digits@ == d);
            }
            return None;
        },
    };
    let addr = line.substring_char(p + 8, n).to_owned();
    proof {
        let d = line@.subrange(9, p as int);
        assert(digits@ == d);
        assert(addr@ == line@.subrange(p as int + 8, line@.len() as int));
    }
    Some((amount, addr))
}

} // verus!
