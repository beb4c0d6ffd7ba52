//! Primitive capability: the two Ascon cipher variants, reached through
//! trusted wrappers. The cipher itself is opaque to this crate; each wrapper
//! follows the primitive's calling convention — block-aligned buffers with
//! the true lengths passed separately, a fused 32-byte nonce-then-key value,
//! and a tag-first layout — and its contract names what the cipher emits.

use vstd::prelude::*;
use ascon_aead::{Ascon128, Ascon128a, Key, Nonce, Tag};
use ascon_aead::aead::{AeadInPlace, KeyInit};

verus! {

/// What the Ascon-128 primitive emits for a given nonce-then-key value,
/// message and associated data: the 16-byte tag followed by the ciphertext
/// body. A function of those three arguments alone.
pub uninterp spec fn enc_128(nk: Seq<u8>, m: Seq<u8>, a: Seq<u8>) -> Seq<u8>;

/// What the Ascon-128a primitive emits, in the same tag-first layout.
pub uninterp spec fn enc_128a(nk: Seq<u8>, m: Seq<u8>, a: Seq<u8>) -> Seq<u8>;

/// Relies on `ascon_aead::Ascon128::encrypt_in_place_detached`: the result is
/// a function of the nonce-then-key value, message and associated data alone;
/// it encrypts the message to a body of the message's length and returns a
/// 16-byte tag, which stands first here as the primitive's layout has it.
/// The call fails only when the message and associated data lengths together
/// overflow 64 bits, which the contract rules out.
#[verifier::external_body]
pub(crate) fn primitive_encrypt_128(
    m_buf: &Vec<u8>,
    mlen: usize,
    a_buf: &Vec<u8>,
    alen: usize,
    nk: &Vec<u8>,
) -> (r: Vec<u8>)
    requires
        mlen <= m_buf@.len(),
        alen <= a_buf@.len(),
        m_buf@.len() % 8 == 0,
        a_buf@.len() % 8 == 0,
        nk@.len() == 32,
        mlen + alen <= u64::MAX,
    ensures
        r@ == enc_128(nk@, m_buf@.take(mlen as int), a_buf@.take(alen as int)),
        r@.len() == 16 + mlen,
{
    let cipher = Ascon128::new(Key::<Ascon128>::from_slice(&nk[16..32]));
    let nonce = Nonce::<Ascon128>::from_slice(&nk[0..16]);
    let mut body = m_buf[..mlen].to_vec();
    let tag = cipher.encrypt_in_place_detached(nonce, &a_buf[..alen], &mut body).unwrap();
    let mut out = tag.to_vec();
    out.append(&mut body);
    out
}

/// Relies on `ascon_aead::Ascon128::decrypt_in_place_detached`: it recovers a
/// body of the ciphertext body's length and accepts exactly when the
/// recomputed tag matches the 16 leading tag bytes — that is, exactly when
/// the tag-first input is what the primitive emits for the returned body
/// under the same nonce-then-key value and associated data. So an emission
/// for some message decrypts to that message with acceptance, and acceptance
/// conversely certifies the input as the emission for what came back. On
/// rejection the returned bytes carry no guarantee.
#[verifier::external_body]
pub(crate) fn primitive_decrypt_128(
    c_buf: &Vec<u8>,
    clen: usize,
    a_buf: &Vec<u8>,
    alen: usize,
    nk: &Vec<u8>,
) -> (r: (Vec<u8>, bool))
    requires
        16 <= clen <= c_buf@.len(),
        alen <= a_buf@.len(),
        c_buf@.len() % 8 == 0,
        a_buf@.len() % 8 == 0,
        nk@.len() == 32,
        clen + alen <= u64::MAX,
    ensures
        r.0@.len() == clen - 16,
        r.1 ==> c_buf@.take(clen as int) == enc_128(nk@, r.0@, a_buf@.take(alen as int)),
        forall|m: Seq<u8>|
            enc_128(nk@, m, a_buf@.take(alen as int)).len() == 16 + m.len()
                && c_buf@.take(clen as int) == #[trigger] enc_128(
                nk@,
                m,
                a_buf@.take(alen as int),
            ) ==> r.1 && r.0@ == m,
{
    let cipher = Ascon128::new(Key::<Ascon128>::from_slice(&nk[16..32]));
    let nonce = Nonce::<Ascon128>::from_slice(&nk[0..16]);
    let tag = Tag::<Ascon128>::from_slice(&c_buf[0..16]);
    let mut body = c_buf[16..clen].to_vec();
    match cipher.decrypt_in_place_detached(nonce, &a_buf[..alen], &mut body, tag) {
        Ok(()) => (body, true),
        Err(_) => (body, false),
    }
}

/// Relies on `ascon_aead::Ascon128a::encrypt_in_place_detached`; the same
/// shape as the Ascon-128 wrapper, for the other variant.
#[verifier::external_body]
pub(crate) fn primitive_encrypt_128a(
    m_buf: &Vec<u8>,
    mlen: usize,
    a_buf: &Vec<u8>,
    alen: usize,
    nk: &Vec<u8>,
) -> (r: Vec<u8>)
    requires
        mlen <= m_buf@.len(),
        alen <= a_buf@.len(),
        m_buf@.len() % 8 == 0,
        a_buf@.len() % 8 == 0,
        nk@.len() == 32,
        mlen + alen <= u64::MAX,
    ensures
        r@ == enc_128a(nk@, m_buf@.take(mlen as int), a_buf@.take(alen as int)),
        r@.len() == 16 + mlen,
{
    let cipher = Ascon128a::new(Key::<Ascon128a>::from_slice(&nk[16..32]));
    let nonce = Nonce::<Ascon128a>::from_slice(&nk[0..16]);
    let mut body = m_buf[..mlen].to_vec();
    let tag = cipher.encrypt_in_place_detached(nonce, &a_buf[..alen], &mut body).unwrap();
    let mut out = tag.to_vec();
    out.append(&mut body);
    out
}

/// Relies on `ascon_aead::Ascon128a::decrypt_in_place_detached`; the same
/// shape and the same two-way acceptance reading as the Ascon-128 wrapper,
/// for the other variant.
#[verifier::external_body]
pub(crate) fn primitive_decrypt_128a(
    c_buf: &Vec<u8>,
    clen: usize,
    a_buf: &Vec<u8>,
    alen: usize,
    nk: &Vec<u8>,
) -> (r: (Vec<u8>, bool))
    requires
        16 <= clen <= c_buf@.len(),
        alen <= a_buf@.len(),
        c_buf@.len() % 8 == 0,
        a_buf@.len() % 8 == 0,
        nk@.len() == 32,
        clen + alen <= u64::MAX,
    ensures
        r.0@.len() == clen - 16,
        r.1 ==> c_buf@.take(clen as int) == enc_128a(nk@, r.0@, a_buf@.take(alen as int)),
        forall|m: Seq<u8>|
            enc_128a(nk@, m, a_buf@.take(alen as int)).len() == 16 + m.len()
                && c_buf@.take(clen as int) == #[trigger] enc_128a(
                nk@,
                m,
                a_buf@.take(alen as int),
            ) ==> r.1 && r.0@ == m,
{
    let cipher = Ascon128a::new(Key::<Ascon128a>::from_slice(&nk[16..32]));
    let nonce = Nonce::<Ascon128a>::from_slice(&nk[0..16]);
    let tag = Tag::<Ascon128a>::from_slice(&c_buf[0..16]);
    let mut body = c_buf[16..clen].to_vec();
    match cipher.decrypt_in_place_detached(nonce, &a_buf[..alen], &mut body, tag) {
        Ok(()) => (body, true),
        Err(_) => (body, false),
    }
}

} // verus!
