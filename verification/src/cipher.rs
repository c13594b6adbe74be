//! The keyed, position-dependent byte transform: each input byte is XORed
//! with the key byte under a cursor that walks the key table circularly,
//! and the result has its bit order reversed.

use vstd::prelude::*;

verus! {

/// The circular key table driving the keystream. Immutable and never empty.
pub struct KeyTable {
    bytes: Vec<u8>,
}

impl View for KeyTable {
    type V = Seq<u8>;

    closed spec fn view(&self) -> Seq<u8> {
        self.bytes@
    }
}

impl KeyTable {
    /// A key table is well formed when it holds at least one byte.
    pub open spec fn wf(&self) -> bool {
        self@.len() > 0
    }

    /// Builds a key table from raw bytes; an empty table is rejected.
    pub fn new(bytes: Vec<u8>) -> (r: Option<KeyTable>)
        ensures
            match r {
                Some(k) => k.wf() && k@ == bytes@,
                None => bytes@.len() == 0,
            },
    {
        if bytes.len() == 0 {
            None
        } else {
            Some(KeyTable { bytes })
        }
    }

    pub fn len(&self) -> (n: usize)
        ensures
            n == self@.len(),
    {
        self.bytes.len()
    }

    pub fn byte_at(&self, i: usize) -> (b: u8)
        requires
            i < self@.len(),
        ensures
            b == self@[i as int],
    {
        self.bytes[i]
    }
}

/// The fixed, keyless bit permutation: bit 0 swaps with bit 7, bit 1 with
/// bit 6, and so on over all 8 bits.
pub open spec fn rev_bits(b: u8) -> u8 {
    ((b & 0x01) << 7) | ((b & 0x02) << 5) | ((b & 0x04) << 3) | ((b & 0x08) << 1)
        | ((b & 0x10) >> 1) | ((b & 0x20) >> 3) | ((b & 0x40) >> 5) | ((b & 0x80) >> 7)
}

/// One decoded byte: XOR with the key byte, then reverse the bit order.
pub open spec fn spec_transform(b: u8, k: u8) -> u8 {
    rev_bits(b ^ k)
}

/// One encoded byte: reverse the bit order, then XOR with the key byte.
/// This is the inverse of `spec_transform` under the same key byte.
pub open spec fn spec_untransform(b: u8, k: u8) -> u8 {
    rev_bits(b) ^ k
}

/// Reverses the bit order of a byte.
pub fn reverse_bit_order(b: u8) -> (r: u8)
    ensures
        r == rev_bits(b),
{
    let x: u8 = (b >> 4) | (b << 4);
    let y: u8 = ((x & 0xCC) >> 2) | ((x & 0x33) << 2);
    let z: u8 = ((y & 0xAA) >> 1) | ((y & 0x55) << 1);
    proof {
        assert(z == rev_bits(b)) by (bit_vector)
            requires
                x == (b >> 4) | (b << 4),
                y == ((x & 0xCC) >> 2) | ((x & 0x33) << 2),
                z == ((y & 0xAA) >> 1) | ((y & 0x55) << 1),
        ;
    }
    z
}

/// Reversing the bit order of a byte twice gives the byte back.
pub proof fn lemma_reverse_involutive(b: u8)
    by (bit_vector)
    ensures
        rev_bits(rev_bits(b)) == b,
{
}

/// Decoding an encoded byte under the same key byte gives the byte back.
pub proof fn lemma_transform_round_trip(b: u8, k: u8)
    by (bit_vector)
    ensures
        spec_transform(spec_untransform(b, k), k) == b,
{
}

/// Applies the transform at the given cursor and advances the cursor by
/// one position, wrapping around the key table.
pub fn transform(byte: u8, cursor: usize, key: &KeyTable) -> (r: (u8, usize))
    requires
        key.wf(),
        cursor < key@.len(),
    ensures
        r.0 == spec_transform(byte, key@[cursor as int]),
        r.1 == (cursor + 1) % (key@.len() as int),
        r.1 < key@.len(),
{
    let n = key.len();
    let out = reverse_bit_order(byte ^ key.byte_at(cursor));
    let next = (cursor + 1) % n;
    (out, next)
}

/// The whole input decoded from the given start cursor: byte `i` of the
/// result is byte `i` of the input transformed under key byte
/// `(start + i) mod len(key)`.
pub open spec fn decoded_seq(data: Seq<u8>, key: Seq<u8>, start: int) -> Seq<u8>
    recommends
        key.len() > 0,
{
    Seq::new(data.len(), |i: int| spec_transform(data[i], key[(start + i) % (key.len() as int)]))
}

/// The whole input encoded from the given start cursor; the inverse of
/// `decoded_seq` over the same cursor trajectory.
pub open spec fn encoded_seq(data: Seq<u8>, key: Seq<u8>, start: int) -> Seq<u8>
    recommends
        key.len() > 0,
{
    Seq::new(data.len(), |i: int| spec_untransform(data[i], key[(start + i) % (key.len() as int)]))
}

/// Encoding a plaintext and then decoding it over the same cursor
/// trajectory gives the plaintext back.
pub proof fn lemma_round_trip(plain: Seq<u8>, key: Seq<u8>, start: int)
    requires
        key.len() > 0,
    ensures
        decoded_seq(encoded_seq(plain, key, start), key, start) == plain,
{
    let enc = encoded_seq(plain, key, start);
    assert forall|i: int| 0 <= i < plain.len() implies decoded_seq(enc, key, start)[i]
        == plain[i] by {
        lemma_transform_round_trip(plain[i], key[(start + i) % (key.len() as int)]);
    }
    assert(decoded_seq(enc, key, start) =~= plain);
}

/// Appending one byte to the input appends its transform to the decoded
/// output.
pub proof fn lemma_decoded_seq_push(data: Seq<u8>, b: u8, key: Seq<u8>, start: int)
    requires
        key.len() > 0,
    ensures
        decoded_seq(data.push(b), key, start) == decoded_seq(data, key, start).push(
            spec_transform(b, key[(start + data.len()) % (key.len() as int)]),
        ),
{
    assert(decoded_seq(data.push(b), key, start) =~= decoded_seq(data, key, start).push(
        spec_transform(b, key[(start + data.len()) % (key.len() as int)]),
    ));
}

/// Chunking invariance at the level of the transform: decoding the
/// concatenation of two chunks equals decoding the first chunk and then
/// the second from the cursor where the first one left off.
pub proof fn lemma_decoded_seq_append(a: Seq<u8>, b: Seq<u8>, key: Seq<u8>, start: int)
    requires
        key.len() > 0,
        0 <= start,
    ensures
        decoded_seq(a + b, key, start) == decoded_seq(a, key, start) + decoded_seq(
            b,
            key,
            (start + a.len()) % (key.len() as int),
        ),
{
    let m = key.len() as int;
    let rest = decoded_seq(b, key, (start + a.len()) % m);
    let joined = decoded_seq(a, key, start) + rest;
    assert forall|i: int| 0 <= i < a.len() + b.len() implies decoded_seq(a + b, key, start)[i]
        == joined[i] by {
        if i >= a.len() {
            let j: int = i - a.len();
            vstd::arithmetic::div_mod::lemma_add_mod_noop(start + a.len(), j, m);
            vstd::arithmetic::div_mod::lemma_add_mod_noop_right((start + a.len()) % m, j, m);
            assert(((start + a.len()) % m + j) % m == (start + a.len() + j) % m);
        }
    }
    assert(decoded_seq(a + b, key, start) =~= joined);
}

} // verus!
