//! Memory-hard key derivation that skips revoked keys.

use vstd::prelude::*;
use vstd::string::StringSliceAdditionalSpecFns;
use crate::encoding::{decimal, decimal_bytes};
use crate::primitives::{scrypt_key, scrypt_params, scrypt_params_ok, sha256_digest, sha256_hex};
use crate::revocation::RevocationSet;

verus! {

/// Smallest accepted cost exponent for the hardened profile.
pub const MIN_LOG_N: u8 = 17;

/// Shortest accepted key, in bytes.
pub const MIN_KEY_LEN: usize = 10;

/// Longest accepted key, in bytes.
pub const MAX_KEY_LEN: usize = 64;

/// The KDF's cost parameters and output length.
#[derive(Clone, Copy, Debug, PartialEq, Eq, Structural)]
pub struct KdfSettings {
    /// log2 of the CPU/memory cost.
    pub log_n: u8,
    /// Block size.
    pub r: u32,
    /// Parallelism.
    pub p: u32,
    /// Length of a derived key in bytes.
    pub key_len: usize,
}

/// Why a KDF configuration was refused.
#[derive(Clone, Copy, Debug, PartialEq, Eq, Structural)]
pub enum ConfigError {
    /// The cost exponent is below the hardened minimum.
    CostTooLow,
    /// The key length lies outside `MIN_KEY_LEN..=MAX_KEY_LEN`.
    OutputLength,
    /// scrypt refuses the cost parameters.
    InvalidCost,
}

/// Why no key could be derived.
#[derive(Clone, Copy, Debug, PartialEq, Eq, Structural)]
pub enum DeriveError {
    /// Every attempt index that a `u64` holds gave a revoked key.
    AttemptsExhausted,
}

/// Validated KDF settings, with the scrypt parameters built from them.
pub struct KdfConfig {
    settings: KdfSettings,
    params: scrypt::Params,
}

impl View for KdfConfig {
    type V = KdfSettings;

    closed spec fn view(&self) -> KdfSettings {
        self.settings
    }
}

impl KdfConfig {
    #[verifier::type_invariant]
    spec fn inv(&self) -> bool {
        MIN_KEY_LEN <= self.settings.key_len <= MAX_KEY_LEN
    }

    /// Validates `settings`: the key length first, then scrypt's own bounds.
    /// No hashing happens here.
    pub fn new(settings: KdfSettings) -> (r: Result<KdfConfig, ConfigError>)
        ensures
            r matches Ok(c) ==> c@ == settings,
            r == Err::<KdfConfig, ConfigError>(ConfigError::OutputLength) <==> !(MIN_KEY_LEN
                <= settings.key_len <= MAX_KEY_LEN),
            r == Err::<KdfConfig, ConfigError>(ConfigError::InvalidCost) <==> (MIN_KEY_LEN
                <= settings.key_len <= MAX_KEY_LEN && !scrypt_params_ok(
                settings.log_n,
                settings.r,
                settings.p,
                settings.key_len,
            )),
            r != Err::<KdfConfig, ConfigError>(ConfigError::CostTooLow),
    {
        if settings.key_len < MIN_KEY_LEN || settings.key_len > MAX_KEY_LEN {
            return Err(ConfigError::OutputLength);
        }
        match scrypt_params(settings.log_n, settings.r, settings.p, settings.key_len) {
            Ok(params) => Ok(KdfConfig { settings, params }),
            Err(_) => Err(ConfigError::InvalidCost),
        }
    }

    /// As `new`, but also refuses a cost exponent below `MIN_LOG_N`, before
    /// anything else.
    pub fn hardened(settings: KdfSettings) -> (r: Result<KdfConfig, ConfigError>)
        ensures
            r matches Ok(c) ==> c@ == settings,
            r == Err::<KdfConfig, ConfigError>(ConfigError::CostTooLow) <==> settings.log_n
                < MIN_LOG_N,
            r == Err::<KdfConfig, ConfigError>(ConfigError::OutputLength) <==> (settings.log_n
                >= MIN_LOG_N && !(MIN_KEY_LEN <= settings.key_len <= MAX_KEY_LEN)),
            r == Err::<KdfConfig, ConfigError>(ConfigError::InvalidCost) <==> (settings.log_n
                >= MIN_LOG_N && MIN_KEY_LEN <= settings.key_len <= MAX_KEY_LEN
                && !scrypt_params_ok(settings.log_n, settings.r, settings.p, settings.key_len)),
    {
        if settings.log_n < MIN_LOG_N {
            return Err(ConfigError::CostTooLow);
        }
        KdfConfig::new(settings)
    }

    /// The settings this configuration was built from.
    pub fn settings(&self) -> (r: KdfSettings)
        ensures
            r == self@,
    {
        self.settings
    }

    /// Length of the keys this configuration derives.
    pub fn key_len(&self) -> (r: usize)
        ensures
            r == self@.key_len,
            MIN_KEY_LEN <= r <= MAX_KEY_LEN,
    {
        proof {
            use_type_invariant(self);
        }
        self.settings.key_len
    }
}

/// Relies on scrypt::scrypt: fills `out` with the scrypt output for
/// `password`, `salt` and the cost parameters of `config`, whose `params`
/// `KdfConfig::new` built from its `settings` (no other code writes either
/// field); fails only on an empty or oversized output.
#[verifier::external_body]
fn run_scrypt(password: &[u8], salt: &[u8], config: &KdfConfig, out: &mut Vec<u8>) -> (r: Result<
    (),
    scrypt::errors::InvalidOutputLen,
>)
    ensures
        final(out)@.len() == old(out)@.len(),
        r is Ok <==> (old(out)@.len() > 0 && old(out)@.len() / 32 <= 0xffff_ffff),
        r is Ok ==> final(out)@ == scrypt_key(
            password@,
            salt@,
            config@.log_n,
            config@.r,
            config@.p,
            old(out)@.len(),
        ),
{
    scrypt::scrypt(password, salt, &config.params, out.as_mut_slice())
}

/// KDF salt for one attempt: the domain, a colon, the attempt's decimal text.
pub open spec fn salt_of(domain: Seq<u8>, attempt: nat) -> Seq<u8> {
    domain + seq![58u8] + decimal(attempt)
}

/// The key that attempt `attempt` yields.
pub open spec fn candidate_key(s: KdfSettings, master: Seq<u8>, domain: Seq<u8>, attempt: nat) -> Seq<u8> {
    scrypt_key(master, salt_of(domain, attempt), s.log_n, s.r, s.p, s.key_len as nat)
}

/// The one-way identity of a key in the revocation set.
pub open spec fn fingerprint(key: Seq<u8>) -> Seq<char> {
    sha256_hex(key)
}

pub open spec fn is_revoked(
    s: KdfSettings,
    master: Seq<u8>,
    domain: Seq<u8>,
    revoked: Set<Seq<char>>,
    attempt: nat,
) -> bool {
    revoked.contains(fingerprint(candidate_key(s, master, domain, attempt)))
}

/// `attempt` is the first attempt whose key is not revoked.
pub open spec fn is_first_unrevoked(
    s: KdfSettings,
    master: Seq<u8>,
    domain: Seq<u8>,
    revoked: Set<Seq<char>>,
    attempt: nat,
) -> bool {
    &&& !is_revoked(s, master, domain, revoked, attempt)
    &&& forall|a: nat| a < attempt ==> is_revoked(s, master, domain, revoked, a)
}

/// A derived key and the attempt that produced it.
pub struct DerivedKey {
    pub bytes: Vec<u8>,
    pub attempt: u64,
}

/// Salt bytes for one attempt.
pub fn make_salt(domain: &[u8], attempt: u64) -> (r: Vec<u8>)
    ensures
        r@ == salt_of(domain@, attempt as nat),
{
    let mut salt: Vec<u8> = Vec::new();
    let mut i: usize = 0;
    while i < domain.len()
        invariant
            i <= domain@.len(),
            salt@ == domain@.subrange(0, i as int),
        decreases domain@.len() - i,
    {
        salt.push(domain[i]);
        i = i + 1;
        assert(salt@ =~= domain@.subrange(0, i as int));
    }
    salt.push(58u8);
    let digits = decimal_bytes(attempt);
    let mut j: usize = 0;
    while j < digits.len()
        invariant
            j <= digits@.len(),
            salt@ == domain@ + seq![58u8] + digits@.subrange(0, j as int),
        decreases digits@.len() - j,
    {
        salt.push(digits[j]);
        j = j + 1;
        assert(salt@ =~= domain@ + seq![58u8] + digits@.subrange(0, j as int));
    }
    assert(salt@ =~= salt_of(domain@, attempt as nat));
    salt
}

/// Fingerprint of a key, as stored in the revocation file.
pub fn key_fingerprint(key: &[u8]) -> (r: String)
    ensures
        r@ == fingerprint(key@),
        r@.len() == 64,
{
    sha256_digest(key)
}

/// Derives the key for `master` and `domain`: attempts 0, 1, 2, ... in turn,
/// and the first whose fingerprint is not in `revoked` is returned.
pub fn derive_key(config: &KdfConfig, master: &str, domain: &str, revoked: &RevocationSet) -> (r:
    Result<DerivedKey, DeriveError>)
    ensures
        r matches Ok(k) ==> k.bytes@.len() == config@.key_len,
        r matches Ok(k) ==> is_first_unrevoked(
            config@,
            master.spec_bytes(),
            domain.spec_bytes(),
            revoked@,
            k.attempt as nat,
        ) && k.bytes@ == candidate_key(
            config@,
            master.spec_bytes(),
            domain.spec_bytes(),
            k.attempt as nat,
        ),
        r is Err <==> forall|a: nat|
            a <= u64::MAX ==> is_revoked(
                config@,
                master.spec_bytes(),
                domain.spec_bytes(),
                revoked@,
                a,
            ),
{
    let pw = master.as_bytes();
    let dom = domain.as_bytes();
    let len = config.key_len();
    let mut attempt: u64 = 0;
    loop
        invariant
            MIN_KEY_LEN <= len <= MAX_KEY_LEN,
            len == config@.key_len,
            pw@ == master.spec_bytes(),
            dom@ == domain.spec_bytes(),
            forall|a: nat|
                a < attempt ==> is_revoked(
                    config@,
                    master.spec_bytes(),
                    domain.spec_bytes(),
                    revoked@,
                    a,
                ),
        decreases u64::MAX - attempt,
    {
        let salt = make_salt(dom, attempt);
        let mut key: Vec<u8> = vec![0u8; len];
        let done = run_scrypt(pw, salt.as_slice(), config, &mut key);
        if done.is_err() {
            assert(false);
        }
        let fp = key_fingerprint(key.as_slice());
        if !revoked.contains(fp.as_str()) {
            assert(!is_revoked(config@, master.spec_bytes(), domain.spec_bytes(), revoked@, attempt as nat));
            return Ok(DerivedKey { bytes: key, attempt });
        }
        if attempt == u64::MAX {
            return Err(DeriveError::AttemptsExhausted);
        }
        attempt = attempt + 1;
    }
}

/// Derivation picks one attempt: two attempts that are both the first
/// unrevoked one for the same inputs are the same attempt, so the same key.
pub proof fn lemma_derivation_deterministic(
    s: KdfSettings,
    master: Seq<u8>,
    domain: Seq<u8>,
    revoked: Set<Seq<char>>,
    a1: nat,
    a2: nat,
)
    requires
        is_first_unrevoked(s, master, domain, revoked, a1),
        is_first_unrevoked(s, master, domain, revoked, a2),
    ensures
        a1 == a2,
        candidate_key(s, master, domain, a1) == candidate_key(s, master, domain, a2),
{
    if a1 < a2 {
        assert(is_revoked(s, master, domain, revoked, a1));
    } else if a2 < a1 {
        assert(is_revoked(s, master, domain, revoked, a2));
    }
}

/// Revoking the key derived with no revocations makes the derivation move to
/// attempt 1, whose key has another fingerprint, unless the keys of attempts
/// 0 and 1 share a fingerprint (a SHA-256 collision).
pub proof fn lemma_revocation_moves_on(s: KdfSettings, master: Seq<u8>, domain: Seq<u8>)
    requires
        fingerprint(candidate_key(s, master, domain, 1)) != fingerprint(
            candidate_key(s, master, domain, 0),
        ),
    ensures
        is_first_unrevoked(s, master, domain, Set::empty(), 0),
        is_first_unrevoked(
            s,
            master,
            domain,
            set![fingerprint(candidate_key(s, master, domain, 0))],
            1,
        ),
        fingerprint(candidate_key(s, master, domain, 1)) != fingerprint(
            candidate_key(s, master, domain, 0),
        ),
{
    let revoked = set![fingerprint(candidate_key(s, master, domain, 0))];
    assert forall|a: nat| a < 1 implies is_revoked(s, master, domain, revoked, a) by {
        assert(a == 0);
    }
}

} // verus!
