//! The generate and revoke operations: derivation, word choice, assembly.

use vstd::prelude::*;
use vstd::string::StringSliceAdditionalSpecFns;
use crate::kdf::{
    candidate_key,
    derive_key,
    fingerprint,
    is_first_unrevoked,
    is_revoked,
    key_fingerprint,
    DeriveError,
    KdfConfig,
    KdfSettings,
};
use crate::passphrase::{append_chars, assemble, assembled, bytes_needed, needed_bytes_per_word, WordList};
use crate::revocation::RevocationSet;
use crate::selector::{select_index, selection, SelectError};

verus! {

/// Number of words in a passphrase.
pub const AMOUNT_WORDS: usize = 5;

/// Cost exponent of the standard profile.
pub const STANDARD_LOG_N: u8 = 17;

/// Block size of the standard profile.
pub const STANDARD_R: u32 = 8;

/// Parallelism of the standard profile.
pub const STANDARD_P: u32 = 16;

/// Why no passphrase was produced.
#[derive(Clone, Copy, Debug, PartialEq, Eq, Structural)]
pub enum XkcdError {
    /// The configured key is too short to hold a window for every word.
    KeyTooShort,
    /// Key derivation failed.
    Derive(DeriveError),
    /// A word slot found no index within the reroll limit.
    Select(SelectError),
    /// PIN output is not available.
    PinNotImplemented,
}

/// Key length for a list of `n` words: a window per word, at least the
/// KDF's minimum.
pub open spec fn key_len_for(n: nat) -> nat {
    let k = (AMOUNT_WORDS * bytes_needed(n)) as nat;
    if k >= 10 {
        k
    } else {
        10
    }
}

/// The standard profile for a list of `list_len` words.
pub fn standard_settings(list_len: u64) -> (r: KdfSettings)
    requires
        list_len >= 1,
    ensures
        r == (KdfSettings {
            log_n: STANDARD_LOG_N,
            r: STANDARD_R,
            p: STANDARD_P,
            key_len: key_len_for(list_len as nat) as usize,
        }),
{
    let w = needed_bytes_per_word(list_len);
    let k = AMOUNT_WORDS * w;
    let key_len = if k >= 10 {
        k
    } else {
        10
    };
    KdfSettings { log_n: STANDARD_LOG_N, r: STANDARD_R, p: STANDARD_P, key_len }
}

/// The window of `key` that word slot `slot` reads.
pub open spec fn window(key: Seq<u8>, w: nat, slot: nat) -> Seq<u8> {
    key.subrange((slot * w) as int, (slot * w + w) as int)
}

/// The words chosen for the first `slots` slots.
pub open spec fn chosen_words(
    list: Seq<Seq<char>>,
    key: Seq<u8>,
    domain: Seq<u8>,
    master: Seq<u8>,
    w: nat,
    slots: nat,
) -> Option<Seq<Seq<char>>>
    decreases slots,
{
    if slots == 0 {
        Some(seq![])
    } else {
        let slot = (slots - 1) as nat;
        match chosen_words(list, key, domain, master, w, slot) {
            None => None,
            Some(ws) => match selection(
                window(key, w, slot),
                key,
                domain,
                master,
                slot as u8,
                list.len(),
            ) {
                None => None,
                Some(i) => Some(ws.push(list[i as int])),
            },
        }
    }
}

/// The passphrase that a derived key gives.
pub open spec fn passphrase_for_key(
    list: Seq<Seq<char>>,
    key: Seq<u8>,
    domain: Seq<u8>,
    master: Seq<u8>,
) -> Option<Seq<char>> {
    match chosen_words(list, key, domain, master, bytes_needed(list.len()), AMOUNT_WORDS as nat) {
        None => None,
        Some(ws) => Some(assembled(ws)),
    }
}

/// The passphrase of a derivation: the one that the first unrevoked key gives.
pub open spec fn is_derived_passphrase(
    s: KdfSettings,
    list: Seq<Seq<char>>,
    master: Seq<u8>,
    domain: Seq<u8>,
    revoked: Set<Seq<char>>,
    phrase: Seq<char>,
) -> bool {
    exists|a: nat|
        is_first_unrevoked(s, master, domain, revoked, a) && passphrase_for_key(
            list,
            candidate_key(s, master, domain, a),
            domain,
            master,
        ) == Some(phrase)
}

pub proof fn lemma_chosen_none_persists(
    list: Seq<Seq<char>>,
    key: Seq<u8>,
    domain: Seq<u8>,
    master: Seq<u8>,
    w: nat,
    k: nat,
    m: nat,
)
    requires
        k <= m,
        chosen_words(list, key, domain, master, w, k) is None,
    ensures
        chosen_words(list, key, domain, master, w, m) is None,
    decreases m - k,
{
    if k < m {
        lemma_chosen_none_persists(list, key, domain, master, w, k, (m - 1) as nat);
    }
}

/// Chooses a word per slot from the derived `key` and assembles them.
pub fn phrase_from_key(list: &WordList, key: &[u8], domain: &[u8], master: &[u8]) -> (r: Result<
    String,
    SelectError,
>)
    requires
        key@.len() >= AMOUNT_WORDS * bytes_needed(list@.len()),
    ensures
        r matches Ok(s) ==> passphrase_for_key(list@, key@, domain@, master@) == Some(s@),
        r is Err <==> passphrase_for_key(list@, key@, domain@, master@) is None,
{
    let n = list.len();
    let w = needed_bytes_per_word(n);
    let mut words: Vec<Vec<char>> = Vec::new();
    let mut slot: usize = 0;
    let mut off: usize = 0;
    while slot < AMOUNT_WORDS
        invariant
            slot <= AMOUNT_WORDS,
            w == bytes_needed(list@.len()),
            w <= 8,
            n == list@.len(),
            n >= 1,
            list@.len() <= usize::MAX,
            off == slot * w,
            key@.len() >= AMOUNT_WORDS * w,
            forall|k: int| 0 <= k < words@.len() ==> (#[trigger] words@[k])@.len() >= 1,
            chosen_words(list@, key@, domain@, master@, w as nat, slot as nat) == Some(
                Seq::new(words@.len(), |k: int| words@[k]@),
            ),
        decreases AMOUNT_WORDS - slot,
    {
        assert(off + w == (slot + 1) * w) by (nonlinear_arith)
            requires
                off == slot * w,
        ;
        assert((slot + 1) * w <= AMOUNT_WORDS * w) by (nonlinear_arith)
            requires
                slot < AMOUNT_WORDS,
        ;
        let chunk = &key[off..off + w];
        assert(chunk@ =~= window(key@, w as nat, slot as nat));
        let picked = select_index(chunk, key, domain, master, slot as u8, n);
        match picked {
            Ok(idx) => {
                let word = list.word(idx as usize);
                let mut copy: Vec<char> = Vec::new();
                append_chars(&mut copy, word);
                assert(copy@ =~= list@[idx as int]);
                let ghost before = Seq::new(words@.len(), |k: int| words@[k]@);
                words.push(copy);
                assert(Seq::new(words@.len(), |k: int| words@[k]@) =~= before.push(
                    list@[idx as int],
                ));
            },
            Err(e) => {
                proof {
                    lemma_chosen_none_persists(
                        list@,
                        key@,
                        domain@,
                        master@,
                        w as nat,
                        (slot + 1) as nat,
                        AMOUNT_WORDS as nat,
                    );
                }
                return Err(e);
            },
        }
        slot = slot + 1;
        off = off + w;
    }
    Ok(assemble(&words))
}

/// Derives the passphrase for `master` and `domain`: the configured key
/// length is checked first, then the first unrevoked key is derived and its
/// windows choose the words.
pub fn xkcdget(
    config: &KdfConfig,
    list: &WordList,
    master: &str,
    domain: &str,
    revoked: &RevocationSet,
) -> (r: Result<String, XkcdError>)
    ensures
        r == Err::<String, XkcdError>(XkcdError::KeyTooShort) <==> config@.key_len < AMOUNT_WORDS
            * bytes_needed(list@.len()),
        r == Err::<String, XkcdError>(XkcdError::Derive(DeriveError::AttemptsExhausted)) <==> (
        config@.key_len >= AMOUNT_WORDS * bytes_needed(list@.len()) && forall|a: nat|
            a <= u64::MAX ==> is_revoked(
                config@,
                master.spec_bytes(),
                domain.spec_bytes(),
                revoked@,
                a,
            )),
        r != Err::<String, XkcdError>(XkcdError::PinNotImplemented),
        r matches Ok(s) ==> is_derived_passphrase(
            config@,
            list@,
            master.spec_bytes(),
            domain.spec_bytes(),
            revoked@,
            s@,
        ),
        r == Err::<String, XkcdError>(XkcdError::Select(SelectError::RerollLimit)) ==> exists|
            a: nat,
        |
            is_first_unrevoked(config@, master.spec_bytes(), domain.spec_bytes(), revoked@, a)
                && passphrase_for_key(
                list@,
                candidate_key(config@, master.spec_bytes(), domain.spec_bytes(), a),
                domain.spec_bytes(),
                master.spec_bytes(),
            ) is None,
{
    let w = needed_bytes_per_word(list.len());
    if config.key_len() < AMOUNT_WORDS * w {
        return Err(XkcdError::KeyTooShort);
    }
    let key = match derive_key(config, master, domain, revoked) {
        Ok(k) => k,
        Err(e) => {
            return Err(XkcdError::Derive(e));
        },
    };
    let ghost a = key.attempt as nat;
    match phrase_from_key(list, key.bytes.as_slice(), domain.as_bytes(), master.as_bytes()) {
        Ok(s) => {
            assert(is_first_unrevoked(config@, master.spec_bytes(), domain.spec_bytes(), revoked@, a));
            Ok(s)
        },
        Err(e) => {
            assert(is_first_unrevoked(config@, master.spec_bytes(), domain.spec_bytes(), revoked@, a));
            Err(XkcdError::Select(e))
        },
    }
}

/// The revoke operation's computation: the fingerprint of the key that the
/// derivation currently yields, to be appended to the revocation store.
pub fn revoke(config: &KdfConfig, master: &str, domain: &str, revoked: &RevocationSet) -> (r:
    Result<String, DeriveError>)
    ensures
        r matches Ok(fp) ==> exists|a: nat|
            is_first_unrevoked(config@, master.spec_bytes(), domain.spec_bytes(), revoked@, a)
                && fp@ == fingerprint(
                candidate_key(config@, master.spec_bytes(), domain.spec_bytes(), a),
            ),
        r is Err <==> forall|a: nat|
            a <= u64::MAX ==> is_revoked(
                config@,
                master.spec_bytes(),
                domain.spec_bytes(),
                revoked@,
                a,
            ),
{
    match derive_key(config, master, domain, revoked) {
        Ok(key) => {
            let ghost a = key.attempt as nat;
            let fp = key_fingerprint(key.bytes.as_slice());
            assert(is_first_unrevoked(config@, master.spec_bytes(), domain.spec_bytes(), revoked@, a));
            Ok(fp)
        },
        Err(e) => Err(e),
    }
}

/// PIN output for `domain` with `digits` digits; this format has no
/// digit-selection rule, so it is always refused.
pub fn pin(_domain: &str, _digits: u8) -> (r: Result<String, XkcdError>)
    ensures
        r == Err::<String, XkcdError>(XkcdError::PinNotImplemented),
{
    Err(XkcdError::PinNotImplemented)
}

/// For fixed settings, word list, master password, domain and revocation
/// set, the derivation yields one passphrase only.
pub proof fn lemma_passphrase_deterministic(
    s: KdfSettings,
    list: Seq<Seq<char>>,
    master: Seq<u8>,
    domain: Seq<u8>,
    revoked: Set<Seq<char>>,
    p1: Seq<char>,
    p2: Seq<char>,
)
    requires
        is_derived_passphrase(s, list, master, domain, revoked, p1),
        is_derived_passphrase(s, list, master, domain, revoked, p2),
    ensures
        p1 == p2,
{
    let a1 = choose|a: nat|
        is_first_unrevoked(s, master, domain, revoked, a) && passphrase_for_key(
            list,
            candidate_key(s, master, domain, a),
            domain,
            master,
        ) == Some(p1);
    let a2 = choose|a: nat|
        is_first_unrevoked(s, master, domain, revoked, a) && passphrase_for_key(
            list,
            candidate_key(s, master, domain, a),
            domain,
            master,
        ) == Some(p2);
    crate::kdf::lemma_derivation_deterministic(s, master, domain, revoked, a1, a2);
}

/// Once the fingerprint of the derived key is added to the revocation set,
/// the next derivation uses a later attempt, whose key has another
/// fingerprint.
pub proof fn lemma_revoked_key_skipped(
    s: KdfSettings,
    master: Seq<u8>,
    domain: Seq<u8>,
    revoked: Set<Seq<char>>,
    a: nat,
    b: nat,
)
    requires
        is_first_unrevoked(s, master, domain, revoked, a),
        is_first_unrevoked(
            s,
            master,
            domain,
            revoked.insert(fingerprint(candidate_key(s, master, domain, a))),
            b,
        ),
    ensures
        b > a,
        fingerprint(candidate_key(s, master, domain, b)) != fingerprint(
            candidate_key(s, master, domain, a),
        ),
{
    let more = revoked.insert(fingerprint(candidate_key(s, master, domain, a)));
    if b <= a {
        if b < a {
            assert(is_revoked(s, master, domain, revoked, b));
        }
        assert(more.contains(fingerprint(candidate_key(s, master, domain, b))));
    }
}

} // verus!
