use ascon_adapter::adapter::{
    ascon128_decrypt, ascon128_decrypt_checked, ascon128_encrypt, ascon128a_decrypt,
    ascon128a_decrypt_checked, ascon128a_encrypt,
};
use ascon_adapter::align::align;
use ascon_adapter::relocate::{to_appended, to_prepended};
use ascon_aead::aead::{Aead, KeyInit, Payload};
use ascon_aead::{Ascon128, Ascon128a, Key, Nonce};
use rand::distributions::Alphanumeric;
use rand::Rng;

fn gen_random(len: usize) -> Vec<u8> {
    let s: String = rand::thread_rng()
        .sample_iter(&Alphanumeric)
        .take(len)
        .map(char::from)
        .collect();
    s.as_bytes().to_vec()
}

fn reference_encrypt_128(m: &[u8], a: &[u8], n: &[u8; 16], k: &[u8; 16]) -> Vec<u8> {
    let cipher = Ascon128::new(Key::<Ascon128>::from_slice(k));
    cipher
        .encrypt(Nonce::<Ascon128>::from_slice(n), Payload { msg: m, aad: a })
        .expect("reference encryption failed")
}

fn reference_encrypt_128a(m: &[u8], a: &[u8], n: &[u8; 16], k: &[u8; 16]) -> Vec<u8> {
    let cipher = Ascon128a::new(Key::<Ascon128a>::from_slice(k));
    cipher
        .encrypt(Nonce::<Ascon128a>::from_slice(n), Payload { msg: m, aad: a })
        .expect("reference encryption failed")
}

fn assert_decrypt(c: Vec<u8>, a: Vec<u8>, m_exp: Vec<u8>, k: [u8; 16], n: [u8; 16]) {
    let (m, res) = ascon128a_decrypt(c, a, n, k);
    assert_eq!(res, 0);
    assert_eq!(m, m_exp);
}

fn assert_correctness(m: Vec<u8>, a: Vec<u8>, k: [u8; 16], n: [u8; 16]) {
    let (c, res) = ascon128a_encrypt(m.clone(), a.clone(), n, k);
    assert_eq!(res, 0);
    assert_eq!(c.len(), m.len() + 16);
    assert_decrypt(c, a, m, k, n);
}

#[test]
fn correctness_plaintext_length_zero_nonce_zero_key() {
    for len in 0..1024 {
        let m = gen_random(len);
        let a = vec![0; 0];
        let k = [0; 16];
        let n = [0; 16];

        assert_correctness(m, a, k, n);
    }
}

#[test]
fn correctness_plaintext_length_random_nonce_random_key() {
    for len in 0..1024 {
        let m = gen_random(len);
        let a = vec![0; 0];
        let k: [u8; 16] = rand::random();
        let n: [u8; 16] = rand::random();

        assert_correctness(m, a, k, n);
    }
}

#[test]
fn correctness_plaintext_and_ad_length_zero_nonce_zero_key() {
    for len in 0..1024 {
        let m = gen_random(len);
        let a = gen_random(len);
        let k = [0; 16];
        let n = [0; 16];

        assert_correctness(m, a, k, n);
    }
}

#[test]
fn correctness_plaintext_and_ad_length_random_nonce_random_key() {
    for len in 0..1024 {
        let m = gen_random(len);
        let a = gen_random(len);
        let k: [u8; 16] = rand::random();
        let n: [u8; 16] = rand::random();

        assert_correctness(m, a, k, n);
    }
}

#[test]
fn correctness_tag_manipulation() {
    for len in 0..1024 {
        let m = gen_random(len);
        let a = gen_random(len);
        let k: [u8; 16] = rand::random();
        let n: [u8; 16] = rand::random();

        let (mut c, res) = ascon128a_encrypt(m.clone(), a.clone(), n, k);
        assert_eq!(res, 0);

        let r: u8 = rand::random();
        c.resize(c.len() - 5, r);
        c.resize(c.len() + 5, r);

        let (m2, res) = ascon128a_decrypt(c.clone(), a, n, k);
        assert_eq!(res, u32::MAX);
        assert_eq!(m2.len(), c.len() - 16);
    }
}

#[test]
fn round_trip_ascon128_both_entry_points() {
    for len in [0usize, 1, 7, 8, 9, 15, 16, 17, 63, 64, 100] {
        let m = gen_random(len);
        let a = gen_random(len / 2);
        let k: [u8; 16] = rand::random();
        let n: [u8; 16] = rand::random();

        let (c, res) = ascon128_encrypt(m.clone(), a.clone(), n, k);
        assert_eq!(res, 0);
        assert_eq!(c.len(), m.len() + 16);

        let (m2, res2) = ascon128_decrypt(c.clone(), a.clone(), n, k);
        assert_eq!(res2, 0);
        assert_eq!(m2, m);

        let checked = ascon128_decrypt_checked(c, a, n, k);
        assert_eq!(checked, Some(m));
    }
}

#[test]
fn encryption_matches_reference_bytes_ascon128() {
    for len in [0usize, 1, 5, 8, 16, 31, 32, 57, 128] {
        let m = gen_random(len);
        let a = gen_random(len % 7);
        let k: [u8; 16] = rand::random();
        let n: [u8; 16] = rand::random();

        let (c, res) = ascon128_encrypt(m.clone(), a.clone(), n, k);
        assert_eq!(res, 0);
        assert_eq!(c, reference_encrypt_128(&m, &a, &n, &k));
    }
}

#[test]
fn encryption_matches_reference_bytes_ascon128a() {
    for len in [0usize, 1, 5, 8, 16, 31, 32, 57, 128] {
        let m = gen_random(len);
        let a = gen_random(len % 7);
        let k: [u8; 16] = rand::random();
        let n: [u8; 16] = rand::random();

        let (c, res) = ascon128a_encrypt(m.clone(), a.clone(), n, k);
        assert_eq!(res, 0);
        assert_eq!(c, reference_encrypt_128a(&m, &a, &n, &k));
    }
}

#[test]
fn tag_placement_last_16_bytes_are_the_tag() {
    let m = gen_random(37);
    let a = gen_random(9);
    let k: [u8; 16] = rand::random();
    let n: [u8; 16] = rand::random();

    let (c, _) = ascon128_encrypt(m.clone(), a.clone(), n, k);
    let reference = reference_encrypt_128(&m, &a, &n, &k);
    assert_eq!(c.len(), m.len() + 16);
    // the reference output is body || tag; the body and tag halves must agree
    assert_eq!(&c[..m.len()], &reference[..m.len()]);
    assert_eq!(&c[m.len()..], &reference[m.len()..]);
    // the ciphertext body is not the plaintext handed back unchanged
    assert_ne!(&c[..m.len()], &m[..]);
}

#[test]
fn empty_input_fixed_tag_zero_key_zero_nonce() {
    let k = [0u8; 16];
    let n = [0u8; 16];

    for variant in 0..2 {
        let enc = |m: Vec<u8>, a: Vec<u8>| {
            if variant == 0 {
                ascon128_encrypt(m, a, n, k)
            } else {
                ascon128a_encrypt(m, a, n, k)
            }
        };
        let (c1, res1) = enc(Vec::new(), Vec::new());
        let (c2, res2) = enc(Vec::new(), Vec::new());
        assert_eq!(res1, 0);
        assert_eq!(res2, 0);
        assert_eq!(c1.len(), 16);
        assert_eq!(c1, c2);
        let reference = if variant == 0 {
            reference_encrypt_128(&[], &[], &n, &k)
        } else {
            reference_encrypt_128a(&[], &[], &n, &k)
        };
        assert_eq!(c1, reference);

        let (m, res) = if variant == 0 {
            ascon128_decrypt(c1, Vec::new(), n, k)
        } else {
            ascon128a_decrypt(c1, Vec::new(), n, k)
        };
        assert_eq!(res, 0);
        assert_eq!(m.len(), 0);
    }
}

#[test]
fn forgery_any_corruption_is_rejected() {
    let m = gen_random(24);
    let a = gen_random(8);
    let k: [u8; 16] = rand::random();
    let n: [u8; 16] = rand::random();

    let (c, _) = ascon128_encrypt(m.clone(), a.clone(), n, k);
    for i in 0..c.len() {
        let mut corrupted = c.clone();
        corrupted[i] ^= 0x01;
        let (m2, res) = ascon128_decrypt(corrupted.clone(), a.clone(), n, k);
        assert_ne!(res, 0);
        assert_eq!(m2.len(), corrupted.len() - 16);
        assert_eq!(
            ascon128_decrypt_checked(corrupted, a.clone(), n, k),
            None
        );
    }
    // corrupting the associated data must be rejected as well
    let mut bad_a = a.clone();
    bad_a[0] ^= 0x80;
    let (_, res) = ascon128_decrypt(c, bad_a, n, k);
    assert_ne!(res, 0);
}

#[test]
fn align_pads_to_block_and_always_grows() {
    for len in 0..64usize {
        let v = gen_random(len);
        let padded = align(&v);
        assert_eq!(padded.len() % 8, 0);
        assert!(padded.len() > v.len());
        assert!(padded.len() <= v.len() + 8);
        assert_eq!(&padded[..len], &v[..]);
        assert!(padded[len..].iter().all(|&b| b == 0));
    }
}

#[test]
fn relocation_directions_are_inverses() {
    let buf: Vec<u8> = (0u8..36).collect();
    let appended = to_appended(&buf);
    // the 16 leading bytes move to the back
    let mut expected: Vec<u8> = (16u8..36).collect();
    expected.extend(0u8..16);
    assert_eq!(appended, expected);
    assert_eq!(to_prepended(&appended), buf);

    let prepended = to_prepended(&buf);
    let mut expected2: Vec<u8> = (20u8..36).collect();
    expected2.extend(0u8..20);
    assert_eq!(prepended, expected2);
    assert_eq!(to_appended(&prepended), buf);
}
