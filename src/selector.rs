//! Unbiased choice of a word index: rejection sampling whose rerolls are
//! hashed together with secret and context, so that the out-of-range values
//! do not always land on the same indices.

use vstd::prelude::*;
use crate::encoding::{be_to_u64, be_value, decimal, decimal_bytes};
use crate::primitives::{decode_hex, hex_decoded, sha256_digest, sha256_hex};

verus! {

/// Most reroll rounds tried for one word slot.
pub const MAX_REROLLS: u64 = 1000;

/// Width of a candidate as it enters a reroll hash, in bytes.
pub const CANDIDATE_WIDTH: usize = 8;

/// Why no index was chosen.
#[derive(Clone, Copy, Debug, PartialEq, Eq, Structural)]
pub enum SelectError {
    /// `MAX_REROLLS` rounds gave no value in range.
    RerollLimit,
}

/// A candidate as eight big-endian bytes: leading zeros, then the chunk.
pub open spec fn padded(chunk: Seq<u8>) -> Seq<u8> {
    Seq::new((8 - chunk.len()) as nat, |i: int| 0u8) + chunk
}

/// The 32 bytes of the SHA-256 of `data`.
pub open spec fn digest_of(data: Seq<u8>) -> Seq<u8> {
    hex_decoded(sha256_hex(data))
}

/// Value of the first `w`-byte chunk of `h` that is below `n`, if any.
pub open spec fn first_fit(h: Seq<u8>, w: nat, n: nat) -> Option<nat>
    decreases h.len(),
{
    if w == 0 || h.len() < w {
        None
    } else if be_value(h.subrange(0, w as int)) < n {
        Some(be_value(h.subrange(0, w as int)))
    } else {
        first_fit(h.subrange(w as int, h.len() as int), w, n)
    }
}

/// The last whole `w`-byte chunk of `h`.
pub open spec fn last_chunk(h: Seq<u8>, w: nat) -> Seq<u8>
    decreases h.len(),
{
    if w == 0 || h.len() < 2 * w {
        h.subrange(0, w as int)
    } else {
        last_chunk(h.subrange(w as int, h.len() as int), w)
    }
}

/// What one reroll round hashes.
pub open spec fn reroll_input(
    prev: Seq<u8>,
    cand: Seq<u8>,
    key: Seq<u8>,
    domain: Seq<u8>,
    master: Seq<u8>,
    round: nat,
    slot: u8,
) -> Seq<u8> {
    prev + cand + key + domain + master + decimal(round) + seq![slot]
}

/// Outcome of the reroll rounds from `round` on, given the previous round's
/// hash and the current candidate.
pub open spec fn reroll_from(
    prev: Seq<u8>,
    cand: Seq<u8>,
    key: Seq<u8>,
    domain: Seq<u8>,
    master: Seq<u8>,
    slot: u8,
    w: nat,
    n: nat,
    round: nat,
) -> Option<nat>
    decreases MAX_REROLLS + 1 - round,
{
    if round > MAX_REROLLS {
        None
    } else {
        let h = digest_of(reroll_input(prev, cand, key, domain, master, round, slot));
        match first_fit(h, w, n) {
            Some(v) => Some(v),
            None => reroll_from(h, padded(last_chunk(h, w)), key, domain, master, slot, w, n, round + 1),
        }
    }
}

/// The index chosen for a slot whose key window is `chunk`: its value if
/// below `n`, else the outcome of the reroll chain.
pub open spec fn selection(
    chunk: Seq<u8>,
    key: Seq<u8>,
    domain: Seq<u8>,
    master: Seq<u8>,
    slot: u8,
    n: nat,
) -> Option<nat> {
    if be_value(chunk) < n {
        Some(be_value(chunk))
    } else {
        reroll_from(seq![], padded(chunk), key, domain, master, slot, chunk.len(), n, 1)
    }
}

pub proof fn lemma_first_fit_below(h: Seq<u8>, w: nat, n: nat)
    ensures
        first_fit(h, w, n) matches Some(v) ==> v < n,
    decreases h.len(),
{
    if w > 0 && h.len() >= w && be_value(h.subrange(0, w as int)) >= n {
        lemma_first_fit_below(h.subrange(w as int, h.len() as int), w, n);
    }
}

pub proof fn lemma_last_chunk_len(h: Seq<u8>, w: nat)
    requires
        h.len() >= w,
    ensures
        last_chunk(h, w).len() == w,
    decreases h.len(),
{
    if w > 0 && h.len() >= 2 * w {
        lemma_last_chunk_len(h.subrange(w as int, h.len() as int), w);
    }
}

pub proof fn lemma_reroll_below(
    prev: Seq<u8>,
    cand: Seq<u8>,
    key: Seq<u8>,
    domain: Seq<u8>,
    master: Seq<u8>,
    slot: u8,
    w: nat,
    n: nat,
    round: nat,
)
    ensures
        reroll_from(prev, cand, key, domain, master, slot, w, n, round) matches Some(v) ==> v < n,
    decreases MAX_REROLLS + 1 - round,
{
    if round <= MAX_REROLLS {
        let h = digest_of(reroll_input(prev, cand, key, domain, master, round, slot));
        lemma_first_fit_below(h, w, n);
        lemma_reroll_below(h, padded(last_chunk(h, w)), key, domain, master, slot, w, n, round + 1);
    }
}

/// Whatever the key window and context, a chosen index lies below `n`.
pub proof fn lemma_selection_below(
    chunk: Seq<u8>,
    key: Seq<u8>,
    domain: Seq<u8>,
    master: Seq<u8>,
    slot: u8,
    n: nat,
)
    ensures
        selection(chunk, key, domain, master, slot, n) matches Some(v) ==> v < n,
{
    lemma_reroll_below(seq![], padded(chunk), key, domain, master, slot, chunk.len(), n, 1);
}

/// Appends `src` to `dst`.
pub fn append_bytes(dst: &mut Vec<u8>, src: &[u8])
    ensures
        final(dst)@ == old(dst)@ + src@,
{
    let ghost start = dst@;
    let mut i: usize = 0;
    while i < src.len()
        invariant
            i <= src@.len(),
            dst@ == start + src@.subrange(0, i as int),
        decreases src@.len() - i,
    {
        dst.push(src[i]);
        i = i + 1;
        assert(dst@ =~= start + src@.subrange(0, i as int));
    }
    assert(src@.subrange(0, i as int) =~= src@);
}

/// A chunk of at most eight bytes as an eight-byte big-endian candidate.
pub fn pad_candidate(chunk: &[u8]) -> (r: Vec<u8>)
    requires
        chunk@.len() <= CANDIDATE_WIDTH,
    ensures
        r@ == padded(chunk@),
{
    let mut r: Vec<u8> = Vec::new();
    let zeros = CANDIDATE_WIDTH - chunk.len();
    let mut i: usize = 0;
    while i < zeros
        invariant
            i <= zeros,
            zeros == 8 - chunk@.len(),
            r@ == Seq::new(i as nat, |k: int| 0u8),
        decreases zeros - i,
    {
        r.push(0u8);
        i = i + 1;
        assert(r@ =~= Seq::new(i as nat, |k: int| 0u8));
    }
    append_bytes(&mut r, chunk);
    r
}

/// SHA-256 of `data` as 32 bytes.
pub fn digest(data: &[u8]) -> (r: Vec<u8>)
    ensures
        r@ == digest_of(data@),
        r@.len() == 32,
{
    let text = sha256_digest(data);
    match decode_hex(text.as_str()) {
        Ok(bytes) => bytes,
        Err(_) => {
            assert(forall|i: int|
                0 <= i < text@.len() ==> crate::primitives::is_hex_digit(#[trigger] text@[i]));
            Vec::new()
        },
    }
}

/// Scans `hash` in `w`-byte chunks: the value of the first chunk below `n`,
/// and, where there is none, the last whole chunk.
pub fn scan_chunks(hash: &[u8], w: usize, n: u64) -> (r: (Option<u64>, Vec<u8>))
    requires
        1 <= w <= CANDIDATE_WIDTH,
        hash@.len() >= w,
    ensures
        r.0 matches Some(v) ==> first_fit(hash@, w as nat, n as nat) == Some(v as nat),
        r.0 is None ==> first_fit(hash@, w as nat, n as nat) is None && r.1@ == last_chunk(
            hash@,
            w as nat,
        ) && r.1@.len() == w,
{
    proof {
        lemma_last_chunk_len(hash@, w as nat);
    }
    let mut off: usize = 0;
    let mut last: Vec<u8> = Vec::new();
    assert(hash@.subrange(0, hash@.len() as int) =~= hash@);
    while w <= hash.len() - off
        invariant
            1 <= w <= 8,
            off <= hash@.len(),
            hash@.len() >= w,
            first_fit(hash@, w as nat, n as nat) == first_fit(
                hash@.subrange(off as int, hash@.len() as int),
                w as nat,
                n as nat,
            ),
            last_chunk(hash@, w as nat) == (if hash@.len() - off >= w {
                last_chunk(hash@.subrange(off as int, hash@.len() as int), w as nat)
            } else {
                last@
            }),
        decreases hash@.len() - off,
    {
        let ghost rest = hash@.subrange(off as int, hash@.len() as int);
        let chunk = &hash[off..off + w];
        assert(chunk@ =~= rest.subrange(0, w as int));
        assert(rest.subrange(w as int, rest.len() as int) =~= hash@.subrange(
            off + w,
            hash@.len() as int,
        ));
        let v = be_to_u64(chunk);
        if v < n {
            return (Some(v), last);
        }
        last = Vec::new();
        append_bytes(&mut last, chunk);
        assert(last@ =~= chunk@);
        off = off + w;
    }
    (None, last)
}

/// Bytes that one reroll round hashes.
pub fn reroll_input_bytes(
    prev: &[u8],
    cand: &[u8],
    key: &[u8],
    domain: &[u8],
    master: &[u8],
    round: u64,
    slot: u8,
) -> (r: Vec<u8>)
    ensures
        r@ == reroll_input(prev@, cand@, key@, domain@, master@, round as nat, slot),
{
    let mut r: Vec<u8> = Vec::new();
    append_bytes(&mut r, prev);
    append_bytes(&mut r, cand);
    append_bytes(&mut r, key);
    append_bytes(&mut r, domain);
    append_bytes(&mut r, master);
    let digits = decimal_bytes(round);
    append_bytes(&mut r, digits.as_slice());
    r.push(slot);
    assert(r@ =~= reroll_input(prev@, cand@, key@, domain@, master@, round as nat, slot));
    r
}

/// Chooses an index below `n` for word slot `slot`, whose window of the
/// derived key is `chunk`. A value in range is taken as it is; otherwise up
/// to `MAX_REROLLS` rounds hash the previous round's hash, the candidate,
/// the whole key, the domain, the master password, the round's decimal
/// text and the slot, and take the first chunk of the hash that is in range.
pub fn select_index(
    chunk: &[u8],
    key: &[u8],
    domain: &[u8],
    master: &[u8],
    slot: u8,
    n: u64,
) -> (r: Result<u64, SelectError>)
    requires
        chunk@.len() <= CANDIDATE_WIDTH,
        n >= 1,
    ensures
        r matches Ok(v) ==> v < n && selection(chunk@, key@, domain@, master@, slot, n as nat)
            == Some(v as nat),
        r is Err <==> selection(chunk@, key@, domain@, master@, slot, n as nat) is None,
{
    let w = chunk.len();
    let first = be_to_u64(chunk);
    if first < n {
        return Ok(first);
    }
    let mut prev: Vec<u8> = Vec::new();
    let mut cand = pad_candidate(chunk);
    let mut round: u64 = 1;
    assert(prev@ =~= Seq::<u8>::empty());
    while round <= MAX_REROLLS
        invariant
            1 <= round <= MAX_REROLLS + 1,
            1 <= w <= 8,
            w == chunk@.len(),
            selection(chunk@, key@, domain@, master@, slot, n as nat) == reroll_from(
                prev@,
                cand@,
                key@,
                domain@,
                master@,
                slot,
                w as nat,
                n as nat,
                round as nat,
            ),
        decreases MAX_REROLLS + 1 - round,
    {
        let input = reroll_input_bytes(
            prev.as_slice(),
            cand.as_slice(),
            key,
            domain,
            master,
            round,
            slot,
        );
        let h = digest(input.as_slice());
        let (found, last) = scan_chunks(h.as_slice(), w, n);
        if let Some(v) = found {
            proof {
                lemma_first_fit_below(h@, w as nat, n as nat);
            }
            return Ok(v);
        }
        prev = h;
        cand = pad_candidate(last.as_slice());
        round = round + 1;
    }
    Err(SelectError::RerollLimit)
}

} // verus!
