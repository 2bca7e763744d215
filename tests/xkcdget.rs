use xkcdget::encoding::{be_to_u64, decimal_bytes};
use xkcdget::generator::{
    phrase_from_key, pin, revoke, standard_settings, xkcdget, XkcdError, AMOUNT_WORDS,
};
use xkcdget::kdf::{
    derive_key, key_fingerprint, make_salt, ConfigError, DeriveError, KdfConfig, KdfSettings,
};
use xkcdget::passphrase::{assemble, capitalize, needed_bytes_per_word, WordList, WordListError};
use xkcdget::revocation::RevocationSet;
use xkcdget::selector::{digest, scan_chunks, select_index};

fn test_words(n: usize) -> Vec<String> {
    let mut out = Vec::with_capacity(n);
    for i in 0..n {
        let mut k = i;
        let mut w = String::from("w");
        for _ in 0..4 {
            w.push((b'a' + (k % 26) as u8) as char);
            k /= 26;
        }
        out.push(w);
    }
    out
}

fn cheap_settings(key_len: usize) -> KdfSettings {
    KdfSettings { log_n: 4, r: 8, p: 1, key_len }
}

fn cheap_config() -> KdfConfig {
    KdfConfig::new(cheap_settings(10)).unwrap()
}

fn list_2048() -> WordList {
    WordList::new(&test_words(2048), 2048).unwrap()
}

fn chars(s: &str) -> Vec<char> {
    s.chars().collect()
}

const HELLO_SHA256: &str = "2cf24dba5fb0a30e26e83b2ac5b9e29e1b161e5c1fa7425e73043362938b9824";

#[test]
fn bytes_per_word_for_list_sizes() {
    assert_eq!(needed_bytes_per_word(2048), 2);
    assert_eq!(needed_bytes_per_word(2047), 2);
    assert_eq!(needed_bytes_per_word(256), 1);
    assert_eq!(needed_bytes_per_word(257), 2);
    assert_eq!(needed_bytes_per_word(2), 1);
    assert_eq!(needed_bytes_per_word(1), 0);
    assert_eq!(needed_bytes_per_word(65537), 3);
    assert_eq!(needed_bytes_per_word(u64::MAX), 8);
}

#[test]
fn big_endian_and_decimal() {
    assert_eq!(be_to_u64(&[]), 0);
    assert_eq!(be_to_u64(&[0x07, 0xff]), 2047);
    assert_eq!(be_to_u64(&[1, 0, 0]), 65536);
    assert_eq!(be_to_u64(&[0xff; 8]), u64::MAX);
    assert_eq!(decimal_bytes(0), b"0".to_vec());
    assert_eq!(decimal_bytes(1000), b"1000".to_vec());
    assert_eq!(decimal_bytes(u64::MAX), u64::MAX.to_string().into_bytes());
}

#[test]
fn short_output_length_is_refused() {
    assert_eq!(KdfConfig::new(cheap_settings(5)).err(), Some(ConfigError::OutputLength));
    assert_eq!(KdfConfig::new(cheap_settings(9)).err(), Some(ConfigError::OutputLength));
    assert_eq!(KdfConfig::new(cheap_settings(65)).err(), Some(ConfigError::OutputLength));
    let hardened = KdfSettings { log_n: 17, r: 8, p: 16, key_len: 5 };
    assert_eq!(KdfConfig::hardened(hardened).err(), Some(ConfigError::OutputLength));
}

#[test]
fn cost_bounds() {
    assert_eq!(KdfConfig::hardened(cheap_settings(10)).err(), Some(ConfigError::CostTooLow));
    let zero_r = KdfSettings { log_n: 4, r: 0, p: 1, key_len: 10 };
    assert_eq!(KdfConfig::new(zero_r).err(), Some(ConfigError::InvalidCost));
    let too_costly = KdfSettings { log_n: 16, r: 1, p: 1, key_len: 10 };
    assert_eq!(KdfConfig::new(too_costly).err(), Some(ConfigError::InvalidCost));
    let ok = KdfConfig::new(cheap_settings(64)).unwrap();
    assert_eq!(ok.settings(), cheap_settings(64));
    assert_eq!(ok.key_len(), 64);
    let standard = standard_settings(2048);
    assert_eq!(standard, KdfSettings { log_n: 17, r: 8, p: 16, key_len: 10 });
    assert!(KdfConfig::hardened(standard).is_ok());
    assert_eq!(standard_settings(65537).key_len, 15);
    assert_eq!(standard_settings(2).key_len, 10);
}

#[test]
fn empty_revocation_file_is_empty_set() {
    let set = RevocationSet::parse("");
    assert_eq!(set.len(), 0);
    assert!(!set.contains(HELLO_SHA256));
    assert_eq!(RevocationSet::new().len(), 0);
    assert_eq!(RevocationSet::parse(" \n\t\n").len(), 0);
}

#[test]
fn revocation_file_tokens() {
    let set = RevocationSet::parse("abc\ndef ghi\n\n  jkl\u{a0}mno");
    assert_eq!(set.len(), 5);
    assert_eq!(set.entries[0], chars("abc"));
    assert_eq!(set.entries[3], chars("jkl"));
    assert_eq!(set.entries[4], chars("mno"));
    assert!(set.contains("ghi"));
    assert!(!set.contains("gh"));
    assert!(!set.contains("abc\n"));
    let mut set = set;
    set.insert(HELLO_SHA256);
    assert!(set.contains(HELLO_SHA256));
    assert_eq!(set.len(), 6);
}

#[test]
fn fingerprint_is_sha256_hex() {
    assert_eq!(key_fingerprint(b"hello"), HELLO_SHA256);
    let bytes = digest(b"hello");
    assert_eq!(bytes.len(), 32);
    assert_eq!(bytes[0], 0x2c);
    assert_eq!(bytes[1], 0xf2);
    assert_eq!(bytes[31], 0x24);
}

#[test]
fn salt_text() {
    assert_eq!(make_salt(b"example.com", 0), b"example.com:0".to_vec());
    assert_eq!(make_salt(b"", 12), b":12".to_vec());
}

#[test]
fn chunk_scan() {
    let mut hash = vec![0xffu8; 32];
    hash[6] = 0x07;
    hash[7] = 0xfe;
    assert_eq!(scan_chunks(&hash, 2, 2048).0, Some(2046));
    assert_eq!(scan_chunks(&hash, 2, 2046).0, None);
    let (found, last) = scan_chunks(&hash, 3, 2048);
    assert_eq!(found, None);
    assert_eq!(last, vec![0xff, 0xff, 0xff]);
}

#[test]
fn index_in_range_is_kept() {
    let key = [0u8; 10];
    assert_eq!(select_index(&[0x07, 0xff], &key, b"d", b"m", 0, 2048), Ok(2047));
    assert_eq!(select_index(&[0x00, 0x00], &key, b"d", b"m", 0, 2048), Ok(0));
    assert_eq!(select_index(&[], &key, b"d", b"m", 0, 1), Ok(0));
}

#[test]
fn reroll_lands_in_range_and_is_deterministic() {
    let key = [9u8; 10];
    let a = select_index(&[0xff, 0xff], &key, b"example.com", b"pw", 3, 2048);
    let b = select_index(&[0xff, 0xff], &key, b"example.com", b"pw", 3, 2048);
    assert_eq!(a, b);
    assert!(a.unwrap() < 2048);
}

#[test]
fn reroll_terminates_within_cap() {
    for n in [2u64, 3, 100, 2047, 2049, 40000, 65535] {
        let w = needed_bytes_per_word(n);
        for t in 0u32..200 {
            let key = digest(&t.to_be_bytes());
            let chunk = vec![0xffu8; w];
            let r = select_index(&chunk, &key, b"dom", b"master", (t % 5) as u8, n);
            assert!(matches!(r, Ok(v) if v < n), "n={} t={} r={:?}", n, t, r);
        }
    }
}

#[test]
fn selection_is_close_to_uniform() {
    let n: u64 = 2047;
    let samples = 20000u32;
    let mut buckets = [0u32; 8];
    for t in 0..samples {
        let seed = digest(&t.to_be_bytes());
        let r = select_index(&seed[0..2], &seed, b"uniform", b"secret", 0, n).unwrap();
        buckets[(r * 8 / n) as usize] += 1;
    }
    let expected = samples as f64 / 8.0;
    for b in buckets {
        assert!((b as f64 - expected).abs() < expected * 0.1, "{:?}", buckets);
    }
}

#[test]
fn rerolled_preimage_lands_on_different_indices() {
    let key = [0u8; 10];
    let mut seen = std::collections::BTreeSet::new();
    for d in 0..100u32 {
        let domain = format!("site{}", d);
        let r = select_index(&[0xff, 0xff], &key, domain.as_bytes(), b"pw", 0, 2048).unwrap();
        seen.insert(r);
    }
    assert!(seen.len() > 80, "only {} distinct indices", seen.len());
    let mut by_slot = std::collections::BTreeSet::new();
    for slot in 0..5u8 {
        by_slot.insert(select_index(&[0xff, 0xff], &key, b"site", b"pw", slot, 2048).unwrap());
    }
    assert!(by_slot.len() >= 4);
}

#[test]
fn capitalization() {
    assert_eq!(capitalize(&chars("hello")), chars("Hello"));
    assert_eq!(capitalize(&chars("hELLO")), chars("Hello"));
    assert_eq!(capitalize(&chars("X")), chars("X"));
    assert_eq!(capitalize(&chars("élan")), chars("Élan"));
    assert_eq!(capitalize(&chars("ÉLAN")), chars("Élan"));
}

#[test]
fn assembly() {
    let words = vec![chars("correct"), chars("HORSE"), chars("bAttery")];
    assert_eq!(assemble(&words), "CorrectHorseBattery_1");
    assert_eq!(assemble(&vec![]), "_1");
}

#[test]
fn word_list_checks() {
    let words = test_words(4);
    assert_eq!(WordList::new(&words, 5).err(), Some(WordListError::LengthMismatch));
    assert_eq!(WordList::new(&vec![], 0).err(), Some(WordListError::Empty));
    let with_empty = vec![String::from("a"), String::new()];
    assert_eq!(WordList::new(&with_empty, 2).err(), Some(WordListError::EmptyWord));
    let list = WordList::new(&words, 4).unwrap();
    assert_eq!(list.len(), 4);
    assert_eq!(list.word(1), &chars("wbaaa"));
}

#[test]
fn phrase_from_fixed_key() {
    let list = list_2048();
    let key = [0u8, 1, 0, 2, 0, 3, 0, 4, 0x07, 0xff];
    let phrase = phrase_from_key(&list, &key, b"d", b"m").unwrap();
    assert_eq!(phrase, "WbaaaWcaaaWdaaaWeaaaWtada_1");
}

#[test]
fn derivation_is_deterministic() {
    let config = cheap_config();
    let empty = RevocationSet::new();
    let a = derive_key(&config, "correct horse", "example.com", &empty).unwrap();
    let b = derive_key(&config, "correct horse", "example.com", &empty).unwrap();
    assert_eq!(a.bytes, b.bytes);
    assert_eq!(a.attempt, 0);
    assert_eq!(a.bytes.len(), 10);
    assert_ne!(a.bytes, vec![0u8; 10]);
    let other = derive_key(&config, "correct horse", "example.org", &empty).unwrap();
    assert_ne!(a.bytes, other.bytes);
}

#[test]
fn revoked_key_moves_to_next_attempt() {
    let config = cheap_config();
    let empty = RevocationSet::new();
    let first = derive_key(&config, "m", "d", &empty).unwrap();
    let fp = revoke(&config, "m", "d", &empty).unwrap();
    assert_eq!(fp, key_fingerprint(&first.bytes));
    let mut revoked = RevocationSet::new();
    revoked.insert(&fp);
    let second = derive_key(&config, "m", "d", &revoked).unwrap();
    assert_eq!(second.attempt, 1);
    assert_ne!(key_fingerprint(&second.bytes), fp);
    assert_ne!(second.bytes, first.bytes);
}

#[test]
fn round_trip_passphrase() {
    let config = cheap_config();
    let list = list_2048();
    let empty = RevocationSet::parse("");
    let p1 = xkcdget(&config, &list, "correct horse", "example.com", &empty).unwrap();
    assert!(p1.ends_with("_1"));
    let body = &p1[..p1.len() - 2];
    assert_eq!(body.chars().filter(|c| c.is_ascii_uppercase()).count(), AMOUNT_WORDS);
    assert_eq!(body.len(), 5 * AMOUNT_WORDS);
    let p2 = xkcdget(&config, &list, "correct horse", "example.com", &empty).unwrap();
    assert_eq!(p1, p2);
    let fp = revoke(&config, "correct horse", "example.com", &empty).unwrap();
    let file = format!("{}\n", fp);
    let revoked = RevocationSet::parse(&file);
    let p3 = xkcdget(&config, &list, "correct horse", "example.com", &revoked).unwrap();
    assert_ne!(p1, p3);
    assert!(p3.ends_with("_1"));
}

#[test]
fn key_too_short_for_list() {
    let config = cheap_config();
    let list = WordList::new(&test_words(65537), 65537).unwrap();
    let r = xkcdget(&config, &list, "m", "d", &RevocationSet::new());
    assert_eq!(r, Err(XkcdError::KeyTooShort));
    let longer = KdfConfig::new(cheap_settings(15)).unwrap();
    assert!(xkcdget(&longer, &list, "m", "d", &RevocationSet::new()).is_ok());
}

#[test]
fn pin_is_refused() {
    assert_eq!(pin("example.com", 4), Err(XkcdError::PinNotImplemented));
    assert_ne!(XkcdError::Derive(DeriveError::AttemptsExhausted), XkcdError::KeyTooShort);
}
