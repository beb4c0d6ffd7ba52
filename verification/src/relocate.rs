//! Tag relocator: moves the fixed 16-byte authentication tag between the
//! primitive's native "tag first" layout and the standard "tag appended"
//! AEAD layout. Both directions demand a buffer of at least 16 bytes; a
//! shorter buffer cannot contain a tag and is a caller contract violation.

use vstd::prelude::*;

verus! {

/// The "tag appended" form of a "tag first" buffer: the leading 16 bytes
/// move to the back.
pub open spec fn tag_to_back(s: Seq<u8>) -> Seq<u8> {
    s.skip(16) + s.take(16)
}

/// The "tag first" form of a "tag appended" buffer: the trailing 16 bytes
/// move to the front.
pub open spec fn tag_to_front(s: Seq<u8>) -> Seq<u8> {
    s.skip(s.len() - 16) + s.take(s.len() - 16)
}

/// Relocating the tag to the back and then to the front, or the other way
/// round, restores the starting buffer: the two directions are exact
/// inverses on every buffer long enough to hold a tag.
pub proof fn lemma_relocation_inverse(s: Seq<u8>)
    requires
        s.len() >= 16,
    ensures
        tag_to_front(tag_to_back(s)) == s,
        tag_to_back(tag_to_front(s)) == s,
{
    assert(tag_to_front(tag_to_back(s)) =~= s);
    assert(tag_to_back(tag_to_front(s)) =~= s);
}

/// Turns the primitive's `tag || body` output into the standard `body || tag`
/// layout by moving the first 16 bytes to the back.
pub fn to_appended(buf: &Vec<u8>) -> (r: Vec<u8>)
    requires
        buf@.len() >= 16,
    ensures
        r@ == tag_to_back(buf@),
        r@.len() == buf@.len(),
{
    let n = buf.len();
    let mut r: Vec<u8> = Vec::new();
    let mut i: usize = 16;
    while i < n
        invariant
            16 <= i <= n,
            n == buf@.len(),
            r@ == buf@.subrange(16, i as int),
        decreases n - i,
    {
        r.push(buf[i]);
        proof {
            assert(r@ =~= buf@.subrange(16, i + 1));
        }
        i += 1;
    }
    let mut j: usize = 0;
    while j < 16
        invariant
            j <= 16,
            n == buf@.len() >= 16,
            r@ == buf@.skip(16) + buf@.subrange(0, j as int),
        decreases 16 - j,
    {
        r.push(buf[j]);
        proof {
            assert(r@ =~= buf@.skip(16) + buf@.subrange(0, j + 1));
        }
        j += 1;
    }
    proof {
        assert(r@ =~= tag_to_back(buf@));
    }
    r
}

/// Turns a standard `body || tag` buffer into the primitive's `tag || body`
/// layout by moving the last 16 bytes to the front.
pub fn to_prepended(buf: &Vec<u8>) -> (r: Vec<u8>)
    requires
        buf@.len() >= 16,
    ensures
        r@ == tag_to_front(buf@),
        r@.len() == buf@.len(),
{
    let n = buf.len();
    let split = n - 16;
    let mut r: Vec<u8> = Vec::new();
    let mut i: usize = split;
    while i < n
        invariant
            split <= i <= n,
            n == buf@.len() >= 16,
            split == n - 16,
            r@ == buf@.subrange(split as int, i as int),
        decreases n - i,
    {
        r.push(buf[i]);
        proof {
            assert(r@ =~= buf@.subrange(split as int, i + 1));
        }
        i += 1;
    }
    let mut j: usize = 0;
    while j < split
        invariant
            j <= split,
            n == buf@.len() >= 16,
            split == n - 16,
            r@ == buf@.skip(split as int) + buf@.subrange(0, j as int),
        decreases split - j,
    {
        r.push(buf[j]);
        proof {
            assert(r@ =~= buf@.skip(split as int) + buf@.subrange(0, j + 1));
        }
        j += 1;
    }
    proof {
        assert(r@ =~= tag_to_front(buf@));
    }
    r
}

} // verus!
