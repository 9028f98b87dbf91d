use vstd::prelude::*;

verus! {

/// A creature's immutable 16-byte trait vector.
#[derive(Clone, Copy, Debug)]
pub struct Kitty(pub [u8; 16]);

/// One byte of a child's traits: the bits of `a` where the selector is set, the bits of `b`
/// elsewhere.
pub open spec fn combine_spec(a: u8, b: u8, selector: u8) -> u8 {
    (selector & a) | (!selector & b)
}

/// Bit `i` of `x`, as 0 or 1.
pub open spec fn bit(x: u8, i: u8) -> u8 {
    (x >> i) & 1u8
}

/// Byte-wise combination of two trait vectors under a selector vector.
pub open spec fn combine_seq(a: Seq<u8>, b: Seq<u8>, selector: Seq<u8>) -> Seq<u8> {
    Seq::new(a.len(), |i: int| combine_spec(a[i], b[i], selector[i]))
}

/// Combines one byte of two parents' traits under a selector byte.
pub fn combine_dna(dna1: u8, dna2: u8, selector: u8) -> (r: u8)
    ensures
        r == combine_spec(dna1, dna2, selector),
        forall|i: u8|
            i < 8 ==> #[trigger] bit(r, i) == if bit(selector, i) == 1 {
                bit(dna1, i)
            } else {
                bit(dna2, i)
            },
{
    let r = (selector & dna1) | (!selector & dna2);
    assert forall|i: u8|
        i < 8 implies #[trigger] bit(r, i) == if bit(selector, i) == 1 {
            bit(dna1, i)
        } else {
            bit(dna2, i)
        } by {
        assert(((selector & dna1) | (!selector & dna2)) >> i & 1u8 == if (selector >> i) & 1u8
            == 1u8 {
            (dna1 >> i) & 1u8
        } else {
            (dna2 >> i) & 1u8
        }) by (bit_vector)
            requires
                i < 8,
        ;
    }
    r
}

/// Combines two parents' trait vectors byte by byte under a selector vector.
pub fn combine_kitties(kitty1: &Kitty, kitty2: &Kitty, selector: &[u8; 16]) -> (r: Kitty)
    ensures
        r.0@ == combine_seq(kitty1.0@, kitty2.0@, selector@),
{
    let mut new_dna: [u8; 16] = [0u8; 16];
    let mut i: usize = 0;
    while i < 16
        invariant
            0 <= i <= 16,
            new_dna@.len() == 16,
            forall|j: int|
                0 <= j < i ==> new_dna@[j] == combine_spec(kitty1.0@[j], kitty2.0@[j], selector@[j]),
        decreases 16 - i,
    {
        let byte = combine_dna(kitty1.0[i], kitty2.0[i], selector[i]);
        new_dna[i] = byte;
        i = i + 1;
    }
    assert(new_dna@ =~= combine_seq(kitty1.0@, kitty2.0@, selector@));
    Kitty(new_dna)
}

/// What `sp_crypto_hashing::blake2_128` returns for the given bytes.
pub uninterp spec fn blake2_128_of(data: Seq<u8>) -> Seq<u8>;

/// The little-endian bytes of a `u64`.
pub open spec fn le_bytes_u64(x: u64) -> Seq<u8> {
    Seq::new(8, |i: int| ((x >> ((8 * i) as u64)) & 0xffu64) as u8)
}

/// The little-endian bytes of a `u32`.
pub open spec fn le_bytes_u32(x: u32) -> Seq<u8> {
    Seq::new(4, |i: int| ((x >> ((8 * i) as u32)) & 0xffu32) as u8)
}

/// The seed material of one random draw: the SCALE encoding of `(seed, who, draw)`.
pub open spec fn seed_material(seed: Seq<u8>, who: u64, draw: u32) -> Seq<u8> {
    seed + le_bytes_u64(who) + le_bytes_u32(draw)
}

/// The 16 random bytes drawn for `who` at draw number `draw` under `seed`.
pub open spec fn random_draw(seed: Seq<u8>, who: u64, draw: u32) -> Seq<u8> {
    blake2_128_of(seed_material(seed, who, draw))
}

/// Relies on parity_scale_codec's `Encode` for a tuple: the fields' encodings one after the
/// other, a byte array as its bytes without a length prefix, integers little-endian.
#[verifier::external_body]
fn encode_seed_material(seed: &[u8; 32], who: u64, draw: u32) -> (r: Vec<u8>)
    ensures
        r@ == seed_material(seed@, who, draw),
{
    parity_scale_codec::Encode::encode(&(seed, who, draw))
}

/// Relies on sp_crypto_hashing::blake2_128: a 16-byte Blake2b digest, a function of the bytes
/// alone.
#[verifier::external_body]
fn blake2_128(data: &Vec<u8>) -> (r: [u8; 16])
    ensures
        r@ == blake2_128_of(data@),
{
    sp_crypto_hashing::blake2_128(data.as_slice())
}

/// Derives 16 pseudo-random bytes from an environment seed, the caller and a draw counter:
/// the Blake2b-128 digest of their SCALE encoding.
pub fn random_value(seed: &[u8; 32], who: u64, draw: u32) -> (r: [u8; 16])
    ensures
        r@ == random_draw(seed@, who, draw),
{
    let material = encode_seed_material(seed, who, draw);
    blake2_128(&material)
}

} // verus!
