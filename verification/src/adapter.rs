//! AEAD adapter: composes the block aligner, the primitive capability and
//! the tag relocator into `encrypt`/`decrypt` operations with the standard
//! `body || tag` ciphertext layout, one pair per cipher variant, plus
//! checked decryption entry points that turn the raw status integer into an
//! `Option`.

use vstd::prelude::*;
use crate::align::align;
use crate::primitive::{
    enc_128, enc_128a, primitive_decrypt_128, primitive_decrypt_128a, primitive_encrypt_128,
    primitive_encrypt_128a,
};
use crate::relocate::{lemma_relocation_inverse, tag_to_back, tag_to_front, to_appended, to_prepended};

verus! {

/// The ciphertext this adapter hands out for the Ascon-128 variant: the
/// primitive's tag-first emission with the tag relocated to the back.
pub open spec fn ciphertext_128(nk: Seq<u8>, m: Seq<u8>, a: Seq<u8>) -> Seq<u8> {
    tag_to_back(enc_128(nk, m, a))
}

/// The ciphertext this adapter hands out for the Ascon-128a variant.
pub open spec fn ciphertext_128a(nk: Seq<u8>, m: Seq<u8>, a: Seq<u8>) -> Seq<u8> {
    tag_to_back(enc_128a(nk, m, a))
}

/// Fuses a 16-byte nonce and a 16-byte key into the 32-byte nonce-then-key
/// value the primitive takes.
fn concat_nonce_key(n: &[u8; 16], k: &[u8; 16]) -> (r: Vec<u8>)
    ensures
        r@ == n@ + k@,
        r@.len() == 32,
{
    let mut r: Vec<u8> = Vec::new();
    let mut i: usize = 0;
    while i < 16
        invariant
            i <= 16,
            r@ == n@.take(i as int),
        decreases 16 - i,
    {
        r.push(n[i]);
        proof {
            assert(r@ =~= n@.take(i + 1));
        }
        i += 1;
    }
    let mut j: usize = 0;
    while j < 16
        invariant
            j <= 16,
            r@ == n@ + k@.take(j as int),
        decreases 16 - j,
    {
        r.push(k[j]);
        proof {
            assert(r@ =~= n@ + k@.take(j + 1));
        }
        j += 1;
    }
    proof {
        assert(r@ =~= n@ + k@);
    }
    r
}

/// Tag placement for Ascon-128: the standard-layout ciphertext is one tag
/// length longer than the message, its trailing 16 bytes are exactly the
/// primitive's tag and its leading bytes are exactly the primitive's body.
pub proof fn lemma_tag_placement_128(nk: Seq<u8>, m: Seq<u8>, a: Seq<u8>)
    requires
        enc_128(nk, m, a).len() == 16 + m.len(),
    ensures
        ciphertext_128(nk, m, a).len() == m.len() + 16,
        ciphertext_128(nk, m, a).skip(m.len() as int) == enc_128(nk, m, a).take(16),
        ciphertext_128(nk, m, a).take(m.len() as int) == enc_128(nk, m, a).skip(16),
{
    assert(ciphertext_128(nk, m, a).skip(m.len() as int) =~= enc_128(nk, m, a).take(16));
    assert(ciphertext_128(nk, m, a).take(m.len() as int) =~= enc_128(nk, m, a).skip(16));
}

/// Tag placement for Ascon-128a, as for Ascon-128.
pub proof fn lemma_tag_placement_128a(nk: Seq<u8>, m: Seq<u8>, a: Seq<u8>)
    requires
        enc_128a(nk, m, a).len() == 16 + m.len(),
    ensures
        ciphertext_128a(nk, m, a).len() == m.len() + 16,
        ciphertext_128a(nk, m, a).skip(m.len() as int) == enc_128a(nk, m, a).take(16),
        ciphertext_128a(nk, m, a).take(m.len() as int) == enc_128a(nk, m, a).skip(16),
{
    assert(ciphertext_128a(nk, m, a).skip(m.len() as int) =~= enc_128a(nk, m, a).take(16));
    assert(ciphertext_128a(nk, m, a).take(m.len() as int) =~= enc_128a(nk, m, a).skip(16));
}

/// Encrypts under Ascon-128: aligns the message and the associated data,
/// invokes the primitive with the true lengths, and relocates the tag to the
/// back. Encryption does not fail; the status is always 0.
pub fn ascon128_encrypt(m: Vec<u8>, a: Vec<u8>, n: [u8; 16], k: [u8; 16]) -> (r: (Vec<u8>, u32))
    requires
        m@.len() + 8 <= usize::MAX,
        a@.len() + 8 <= usize::MAX,
        m@.len() + a@.len() <= u64::MAX,
    ensures
        r.0@ == ciphertext_128(n@ + k@, m@, a@),
        enc_128(n@ + k@, m@, a@).len() == 16 + m@.len(),
        r.0@.len() == m@.len() + 16,
        r.1 == 0,
{
    let am = align(&m);
    let aa = align(&a);
    let nk = concat_nonce_key(&n, &k);
    let out = primitive_encrypt_128(&am, m.len(), &aa, a.len(), &nk);
    proof {
        assert(am@.take(m@.len() as int) == m@);
        assert(aa@.take(a@.len() as int) == a@);
    }
    let c = to_appended(&out);
    (c, 0)
}

/// Encrypts under Ascon-128a, as `ascon128_encrypt` does for Ascon-128.
pub fn ascon128a_encrypt(m: Vec<u8>, a: Vec<u8>, n: [u8; 16], k: [u8; 16]) -> (r: (Vec<u8>, u32))
    requires
        m@.len() + 8 <= usize::MAX,
        a@.len() + 8 <= usize::MAX,
        m@.len() + a@.len() <= u64::MAX,
    ensures
        r.0@ == ciphertext_128a(n@ + k@, m@, a@),
        enc_128a(n@ + k@, m@, a@).len() == 16 + m@.len(),
        r.0@.len() == m@.len() + 16,
        r.1 == 0,
{
    let am = align(&m);
    let aa = align(&a);
    let nk = concat_nonce_key(&n, &k);
    let out = primitive_encrypt_128a(&am, m.len(), &aa, a.len(), &nk);
    proof {
        assert(am@.take(m@.len() as int) == m@);
        assert(aa@.take(a@.len() as int) == a@);
    }
    let c = to_appended(&out);
    (c, 0)
}

/// Decrypts under Ascon-128: relocates the trailing tag to the front, aligns,
/// and invokes the primitive. The returned message always has the
/// ciphertext's length minus the 16 tag bytes. Status 0 comes exactly when
/// the tag verified: whenever the ciphertext is one this adapter produced
/// for some message under the same key, nonce and associated data, the call
/// returns exactly that message with status 0; and conversely status 0
/// certifies the ciphertext as this adapter's output for the returned
/// message. On rejection the status is the failure sentinel and the returned
/// bytes carry no guarantee.
pub fn ascon128_decrypt(c: Vec<u8>, a: Vec<u8>, n: [u8; 16], k: [u8; 16]) -> (r: (Vec<u8>, u32))
    requires
        c@.len() >= 16,
        c@.len() + 8 <= usize::MAX,
        a@.len() + 8 <= usize::MAX,
        c@.len() + a@.len() <= u64::MAX,
    ensures
        r.0@.len() == c@.len() - 16,
        r.1 == 0 || r.1 == u32::MAX,
        r.1 == 0 ==> c@ == ciphertext_128(n@ + k@, r.0@, a@),
        r.1 == 0 ==> enc_128(n@ + k@, r.0@, a@).len() == 16 + r.0@.len(),
        forall|m: Seq<u8>|
            enc_128(n@ + k@, m, a@).len() == 16 + m.len() && c@ == #[trigger] ciphertext_128(
                n@ + k@,
                m,
                a@,
            ) ==> r.1 == 0 && r.0@ == m,
{
    let ct = to_prepended(&c);
    let act = align(&ct);
    let aa = align(&a);
    let nk = concat_nonce_key(&n, &k);
    let (m_out, ok) = primitive_decrypt_128(&act, c.len(), &aa, a.len(), &nk);
    proof {
        assert(act@.take(c@.len() as int) == ct@);
        assert(aa@.take(a@.len() as int) == a@);
        assert forall|m: Seq<u8>|
            enc_128(nk@, m, a@).len() == 16 + m.len() && c@ == #[trigger] ciphertext_128(
                nk@,
                m,
                a@,
            ) implies ok && m_out@ == m by {
            let e = enc_128(nk@, m, a@);
            lemma_relocation_inverse(e);
            assert(ct@ == tag_to_front(tag_to_back(e)));
        }
        if ok {
            assert(tag_to_front(c@) == enc_128(nk@, m_out@, a@));
            lemma_relocation_inverse(c@);
        }
    }
    let status: u32 = if ok {
        0
    } else {
        u32::MAX
    };
    (m_out, status)
}

/// Decrypts under Ascon-128a, as `ascon128_decrypt` does for Ascon-128.
pub fn ascon128a_decrypt(c: Vec<u8>, a: Vec<u8>, n: [u8; 16], k: [u8; 16]) -> (r: (Vec<u8>, u32))
    requires
        c@.len() >= 16,
        c@.len() + 8 <= usize::MAX,
        a@.len() + 8 <= usize::MAX,
        c@.len() + a@.len() <= u64::MAX,
    ensures
        r.0@.len() == c@.len() - 16,
        r.1 == 0 || r.1 == u32::MAX,
        r.1 == 0 ==> c@ == ciphertext_128a(n@ + k@, r.0@, a@),
        r.1 == 0 ==> enc_128a(n@ + k@, r.0@, a@).len() == 16 + r.0@.len(),
        forall|m: Seq<u8>|
            enc_128a(n@ + k@, m, a@).len() == 16 + m.len() && c@ == #[trigger] ciphertext_128a(
                n@ + k@,
                m,
                a@,
            ) ==> r.1 == 0 && r.0@ == m,
{
    let ct = to_prepended(&c);
    let act = align(&ct);
    let aa = align(&a);
    let nk = concat_nonce_key(&n, &k);
    let (m_out, ok) = primitive_decrypt_128a(&act, c.len(), &aa, a.len(), &nk);
    proof {
        assert(act@.take(c@.len() as int) == ct@);
        assert(aa@.take(a@.len() as int) == a@);
        assert forall|m: Seq<u8>|
            enc_128a(nk@, m, a@).len() == 16 + m.len() && c@ == #[trigger] ciphertext_128a(
                nk@,
                m,
                a@,
            ) implies ok && m_out@ == m by {
            let e = enc_128a(nk@, m, a@);
            lemma_relocation_inverse(e);
            assert(ct@ == tag_to_front(tag_to_back(e)));
        }
        if ok {
            assert(tag_to_front(c@) == enc_128a(nk@, m_out@, a@));
            lemma_relocation_inverse(c@);
        }
    }
    let status: u32 = if ok {
        0
    } else {
        u32::MAX
    };
    (m_out, status)
}

/// Checked decryption under Ascon-128: `Some` exactly when the raw entry
/// point reports status 0, so callers cannot use unauthenticated bytes by
/// accident. The legacy entry point `ascon128_decrypt` keeps the raw
/// behaviour of handing the bytes out with a status.
pub fn ascon128_decrypt_checked(c: Vec<u8>, a: Vec<u8>, n: [u8; 16], k: [u8; 16]) -> (r: Option<
    Vec<u8>,
>)
    requires
        c@.len() >= 16,
        c@.len() + 8 <= usize::MAX,
        a@.len() + 8 <= usize::MAX,
        c@.len() + a@.len() <= u64::MAX,
    ensures
        r is Some ==> r->0@.len() == c@.len() - 16,
        r is Some ==> c@ == ciphertext_128(n@ + k@, r->0@, a@),
        forall|m: Seq<u8>|
            enc_128(n@ + k@, m, a@).len() == 16 + m.len() && c@ == #[trigger] ciphertext_128(
                n@ + k@,
                m,
                a@,
            ) ==> (r is Some && r->0@ == m),
{
    let (m_out, status) = ascon128_decrypt(c, a, n, k);
    if status == 0 {
        Some(m_out)
    } else {
        None
    }
}

/// Checked decryption under Ascon-128a, as for Ascon-128.
pub fn ascon128a_decrypt_checked(c: Vec<u8>, a: Vec<u8>, n: [u8; 16], k: [u8; 16]) -> (r: Option<
    Vec<u8>,
>)
    requires
        c@.len() >= 16,
        c@.len() + 8 <= usize::MAX,
        a@.len() + 8 <= usize::MAX,
        c@.len() + a@.len() <= u64::MAX,
    ensures
        r is Some ==> r->0@.len() == c@.len() - 16,
        r is Some ==> c@ == ciphertext_128a(n@ + k@, r->0@, a@),
        forall|m: Seq<u8>|
            enc_128a(n@ + k@, m, a@).len() == 16 + m.len() && c@ == #[trigger] ciphertext_128a(
                n@ + k@,
                m,
                a@,
            ) ==> (r is Some && r->0@ == m),
{
    let (m_out, status) = ascon128a_decrypt(c, a, n, k);
    if status == 0 {
        Some(m_out)
    } else {
        None
    }
}

} // verus!
