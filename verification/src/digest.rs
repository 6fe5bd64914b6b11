//! Content addressing: the cache key of a payload is the uppercase
//! hexadecimal encoding of its 256-bit cryptographic digest. Identical
//! payload bytes always yield the identical key, and the key is the sole
//! identity of a cache entry.

use vstd::prelude::*;

use sha2::Digest;

verus! {

/// The 256-bit digest of a byte sequence, as the hashing crate computes it.
pub uninterp spec fn sha256_of(b: Seq<u8>) -> Seq<u8>;

/// Relies on sha2::Sha256 through digest's one-shot `Digest::digest`:
/// a 32-byte digest that depends on the input bytes alone.
#[verifier::external_body]
fn sha256_digest(payload: &Vec<u8>) -> (r: Vec<u8>)
    ensures
        r@ == sha256_of(payload@),
        r@.len() == 32,
{
    sha2::Sha256::digest(payload.as_slice()).to_vec()
}

/// The ASCII byte of one uppercase hexadecimal digit.
pub open spec fn hex_digit(n: u8) -> u8
    recommends
        n < 16,
{
    if n < 10 {
        (0x30 + n) as u8
    } else {
        (0x37 + n) as u8
    }
}

/// The uppercase hexadecimal encoding of a byte sequence: two digits per
/// byte, high nibble first.
pub open spec fn hex_upper_bytes(s: Seq<u8>) -> Seq<u8> {
    Seq::new(
        s.len() * 2,
        |i: int|
            if i % 2 == 0 {
                hex_digit((s[i / 2] / 16) as u8)
            } else {
                hex_digit((s[i / 2] % 16) as u8)
            },
    )
}

/// The cache key of a payload: the uppercase hexadecimal encoding of its
/// digest, as ASCII bytes.
pub open spec fn key_of(payload: Seq<u8>) -> Seq<u8> {
    hex_upper_bytes(sha256_of(payload))
}

/// Appending one byte to the input appends exactly its two digits to the
/// encoding.
proof fn lemma_hex_step(s: Seq<u8>, i: int)
    requires
        0 <= i < s.len(),
    ensures
        hex_upper_bytes(s.take(i + 1)) =~= hex_upper_bytes(s.take(i)).push(
            hex_digit((s[i] / 16) as u8),
        ).push(hex_digit((s[i] % 16) as u8)),
{
    let a = hex_upper_bytes(s.take(i + 1));
    let b = hex_upper_bytes(s.take(i)).push(hex_digit((s[i] / 16) as u8)).push(
        hex_digit((s[i] % 16) as u8),
    );
    assert forall|j: int| 0 <= j < a.len() implies a[j] == b[j] by {
        if j < 2 * i {
            assert(s.take(i + 1)[j / 2] == s.take(i)[j / 2]);
        } else {
            assert(j / 2 == i);
            assert(s.take(i + 1)[i] == s[i]);
        }
    }
}

/// One uppercase hexadecimal digit as an ASCII byte.
fn hex_digit_byte(n: u8) -> (r: u8)
    requires
        n < 16,
    ensures
        r == hex_digit(n),
{
    if n < 10 {
        0x30 + n
    } else {
        0x37 + n
    }
}

/// Encodes bytes as uppercase hexadecimal ASCII, two digits per byte.
pub fn hex_upper(bytes: &Vec<u8>) -> (r: Vec<u8>)
    ensures
        r@ == hex_upper_bytes(bytes@),
{
    let mut out: Vec<u8> = Vec::new();
    let mut i: usize = 0;
    while i < bytes.len()
        invariant
            i <= bytes@.len(),
            out@ =~= hex_upper_bytes(bytes@.take(i as int)),
        decreases bytes@.len() - i,
    {
        let b = bytes[i];
        out.push(hex_digit_byte(b / 16));
        out.push(hex_digit_byte(b % 16));
        proof {
            lemma_hex_step(bytes@, i as int);
        }
        i = i + 1;
    }
    proof {
        assert(bytes@.take(bytes@.len() as int) =~= bytes@);
        assert(out@ =~= hex_upper_bytes(bytes@));
    }
    out
}

/// Computes the cache key of a payload: 64 uppercase hexadecimal ASCII
/// bytes encoding its 256-bit digest.
pub fn cache_key(payload: &Vec<u8>) -> (r: Vec<u8>)
    ensures
        r@ == key_of(payload@),
        r@.len() == 64,
{
    let d = sha256_digest(payload);
    hex_upper(&d)
}

/// Content addressing is deterministic: identical payload bytes yield the
/// identical cache key.
pub proof fn lemma_key_deterministic(a: Seq<u8>, b: Seq<u8>)
    requires
        a == b,
    ensures
        key_of(a) == key_of(b),
{
}

} // verus!
