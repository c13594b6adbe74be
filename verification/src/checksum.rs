//! The rolling checksum over the decoded output bytes, backed by the
//! `adler32` crate. The accumulator is modelled by the sequence of bytes
//! fed to it, and its digest by an uninterpreted function of that
//! sequence alone.

use vstd::prelude::*;

verus! {

#[verifier::external_type_specification]
#[verifier::external_body]
pub struct ExRollingAdler32(adler32::RollingAdler32);

/// The bytes an accumulator has been fed since it was created.
pub uninterp spec fn adler_fed(a: adler32::RollingAdler32) -> Seq<u8>;

/// The 32-bit Adler-32 digest of a byte sequence.
pub uninterp spec fn adler32_of(s: Seq<u8>) -> u32;

/// Relies on adler32::RollingAdler32::new: a fresh accumulator over no
/// bytes.
#[verifier::external_body]
pub(crate) fn adler_new() -> (r: adler32::RollingAdler32)
    ensures
        adler_fed(r) == Seq::<u8>::empty(),
{
    adler32::RollingAdler32::new()
}

/// Relies on adler32::RollingAdler32::update: feeds exactly one more byte
/// to the accumulator.
#[verifier::external_body]
pub(crate) fn adler_update(a: &mut adler32::RollingAdler32, b: u8)
    ensures
        adler_fed(*final(a)) == adler_fed(*old(a)).push(b),
{
    a.update(b)
}

/// Relies on adler32::RollingAdler32::hash: the digest is a function of
/// the bytes fed so far and of nothing else.
#[verifier::external_body]
pub(crate) fn adler_hash(a: &adler32::RollingAdler32) -> (r: u32)
    ensures
        r == adler32_of(adler_fed(*a)),
{
    a.hash()
}

} // verus!
