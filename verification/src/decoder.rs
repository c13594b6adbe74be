//! The streaming decode-and-verify engine. A container stream carries a
//! 4-byte little-endian Adler-32 checksum followed by the obfuscated
//! payload. The payload is decoded byte by byte under the keystream, the
//! checksum of the decoded bytes is accumulated as they are produced, and
//! the output is handed out only when it matches the embedded checksum.

use vstd::prelude::*;

use crate::checksum::{adler32_of, adler_fed, adler_hash, adler_new, adler_update};
use crate::cipher::{decoded_seq, lemma_decoded_seq_push, spec_transform, transform, KeyTable};

verus! {

/// Why a decode operation, or the surrounding job, failed.
#[derive(Debug, PartialEq, Eq)]
pub enum DecodeError {
    /// Fewer than 4 header bytes were available.
    TruncatedHeader,
    /// The transform completed but the digest of the output disagrees
    /// with the embedded checksum: wrong key, wrong variant, or a
    /// corrupted input.
    ChecksumMismatch { expected: u32, actual: u32 },
    /// No output filename can be derived from the input filename.
    UnrecognizedExtension,
    /// An underlying read, open or write failed; carries a description
    /// of the originating condition.
    IOFailure(String),
}

/// A 32-bit integer read from four bytes, least significant first.
pub open spec fn spec_le32(b0: u8, b1: u8, b2: u8, b3: u8) -> u32 {
    (b0 as u32) | ((b1 as u32) << 8) | ((b2 as u32) << 16) | ((b3 as u32) << 24)
}

/// The expected checksum embedded at the head of a stream.
pub open spec fn spec_header(s: Seq<u8>) -> u32
    recommends
        s.len() >= 4,
{
    spec_le32(s[0], s[1], s[2], s[3])
}

/// The keystream phase is tied to the embedded checksum: the cursor
/// starts at the checksum value reduced modulo the key length.
pub open spec fn spec_start_cursor(expected: u32, key: Seq<u8>) -> int
    recommends
        key.len() > 0,
{
    (expected as int) % (key.len() as int)
}

/// The decoded payload of a stream: everything after the 4 header bytes,
/// transformed from the start cursor the header dictates.
pub open spec fn spec_payload(s: Seq<u8>, key: Seq<u8>) -> Seq<u8>
    recommends
        s.len() >= 4,
        key.len() > 0,
{
    decoded_seq(s.skip(4), key, spec_start_cursor(spec_header(s), key))
}

/// What decoding a whole stream under a key returns: the verified
/// plaintext, or the error the protocol prescribes.
pub open spec fn spec_decode(s: Seq<u8>, key: Seq<u8>) -> Result<Seq<u8>, DecodeError>
    recommends
        key.len() > 0,
{
    if s.len() < 4 {
        Err(DecodeError::TruncatedHeader)
    } else {
        let expected = spec_header(s);
        let out = spec_payload(s, key);
        if adler32_of(out) == expected {
            Ok(out)
        } else {
            Err(DecodeError::ChecksumMismatch { expected, actual: adler32_of(out) })
        }
    }
}

/// The exec-level result agrees with the spec-level one.
pub open spec fn decode_result_matches(
    r: Result<Vec<u8>, DecodeError>,
    s: Result<Seq<u8>, DecodeError>,
) -> bool {
    match (r, s) {
        (Ok(v), Ok(t)) => v@ == t,
        (Err(e1), Err(e2)) => e1 == e2,
        _ => false,
    }
}

/// Reads a 32-bit integer from four bytes, least significant first.
pub fn le32(b0: u8, b1: u8, b2: u8, b3: u8) -> (r: u32)
    ensures
        r == spec_le32(b0, b1, b2, b3),
{
    (b0 as u32) | ((b1 as u32) << 8) | ((b2 as u32) << 16) | ((b3 as u32) << 24)
}

/// Stepping the cursor once more commutes with reducing it modulo the
/// key length.
proof fn lemma_mod_succ(x: int, m: int)
    requires
        m > 0,
    ensures
        ((x % m) + 1) % m == (x + 1) % m,
{
    vstd::arithmetic::div_mod::lemma_add_mod_noop(x, 1, m);
    vstd::arithmetic::div_mod::lemma_add_mod_noop_right(x % m, 1, m);
}

/// Decodes a whole stream held in memory and verifies its checksum.
/// Returns the decoded payload exactly when the stream has a full header
/// and the digest of the decoded payload equals the embedded checksum;
/// nothing is returned on any failure.
pub fn decode(data: &[u8], key: &KeyTable) -> (r: Result<Vec<u8>, DecodeError>)
    requires
        key.wf(),
    ensures
        decode_result_matches(r, spec_decode(data@, key@)),
{
    if data.len() < 4 {
        return Err(DecodeError::TruncatedHeader);
    }
    let expected = le32(data[0], data[1], data[2], data[3]);
    let n = key.len();
    let mut cursor: usize = (expected as usize) % n;
    let ghost start: int = spec_start_cursor(expected, key@);
    let mut adler = adler_new();
    let mut out: Vec<u8> = Vec::new();
    let mut i: usize = 4;
    proof {
        assert(data@.subrange(4, 4) =~= Seq::<u8>::empty());
        assert(out@ =~= decoded_seq(data@.subrange(4, 4), key@, start));
        vstd::arithmetic::div_mod::lemma_mod_twice(expected as int, key@.len() as int);
    }
    while i < data.len()
        invariant
            key.wf(),
            n == key@.len(),
            4 <= i <= data@.len(),
            expected == spec_header(data@),
            start == spec_start_cursor(expected, key@),
            cursor == (start + (i - 4)) % (key@.len() as int),
            out@ == decoded_seq(data@.subrange(4, i as int), key@, start),
            adler_fed(adler) == out@,
        decreases data@.len() - i,
    {
        let b = data[i];
        let (t, next) = transform(b, cursor, key);
        adler_update(&mut adler, t);
        out.push(t);
        proof {
            let m = key@.len() as int;
            let prefix = data@.subrange(4, i as int);
            assert(data@.subrange(4, (i + 1) as int) =~= prefix.push(data@[i as int]));
            lemma_decoded_seq_push(prefix, data@[i as int], key@, start);
            lemma_mod_succ(start + (i - 4), m);
        }
        cursor = next;
        i = i + 1;
    }
    proof {
        assert(data@.subrange(4, data@.len() as int) =~= data@.skip(4));
    }
    let actual = adler_hash(&adler);
    if actual == expected {
        Ok(out)
    } else {
        Err(DecodeError::ChecksumMismatch { expected, actual })
    }
}

/// Decoding is deterministic: any two results that meet the decode
/// contract for the same stream and the same key are equal, output bytes
/// and error alike.
pub proof fn lemma_decode_deterministic(
    r1: Result<Vec<u8>, DecodeError>,
    r2: Result<Vec<u8>, DecodeError>,
    stream: Seq<u8>,
    key: Seq<u8>,
)
    requires
        decode_result_matches(r1, spec_decode(stream, key)),
        decode_result_matches(r2, spec_decode(stream, key)),
    ensures
        match (r1, r2) {
            (Ok(v1), Ok(v2)) => v1@ == v2@,
            (Err(e1), Err(e2)) => e1 == e2,
            _ => false,
        },
{
}

/// An incremental decoder: raw stream bytes, header included, are fed in
/// chunks of any size, and `finish` yields exactly what decoding the
/// concatenation of all chunks at once would. Chunk boundaries can not
/// influence the result, which is a function of the fed bytes alone.
pub struct StreamDecoder {
    key: KeyTable,
    header: Vec<u8>,
    cursor: usize,
    out: Vec<u8>,
    adler: adler32::RollingAdler32,
    seen: Ghost<Seq<u8>>,
}

impl StreamDecoder {
    /// All raw stream bytes fed so far, header bytes included.
    pub closed spec fn fed(self) -> Seq<u8> {
        self.seen@
    }

    /// The key table this decoder was created over.
    pub closed spec fn key_view(self) -> Seq<u8> {
        self.key@
    }

    pub closed spec fn wf(self) -> bool {
        let s = self.seen@;
        let m = self.key@.len() as int;
        &&& self.key.wf()
        &&& if s.len() < 4 {
            &&& self.header@ == s
            &&& self.out@ == Seq::<u8>::empty()
            &&& adler_fed(self.adler) == self.out@
        } else {
            let start: int = spec_start_cursor(spec_header(s), self.key@);
            &&& self.header@ == s.take(4)
            &&& self.out@ == decoded_seq(s.skip(4), self.key@, start)
            &&& self.cursor == (start + (s.len() - 4)) % m
            &&& self.cursor < m
            &&& adler_fed(self.adler) == self.out@
        }
    }

    /// A fresh decoder over the given key table; no bytes fed yet.
    pub fn new(key: KeyTable) -> (r: StreamDecoder)
        requires
            key.wf(),
        ensures
            r.wf(),
            r.fed() == Seq::<u8>::empty(),
            r.key_view() == key@,
    {
        StreamDecoder {
            key,
            header: Vec::new(),
            cursor: 0,
            out: Vec::new(),
            adler: adler_new(),
            seen: Ghost(Seq::empty()),
        }
    }

    /// Feeds the next chunk of the raw stream. Only the bytes fed grow;
    /// how the stream is cut into chunks leaves no other trace.
    pub fn feed(&mut self, chunk: &[u8])
        requires
            old(self).wf(),
        ensures
            final(self).wf(),
            final(self).key_view() == old(self).key_view(),
            final(self).fed() == old(self).fed() + chunk@,
    {
        let ghost fed0 = self.seen@;
        let mut j: usize = 0;
        proof {
            assert(fed0 + chunk@.take(0) =~= fed0);
        }
        while self.header.len() < 4 && j < chunk.len()
            invariant
                self.wf(),
                j <= chunk@.len(),
                self.key@ == old(self).key@,
                self.seen@ == fed0 + chunk@.take(j as int),
            decreases chunk@.len() - j,
        {
            let b = chunk[j];
            self.header.push(b);
            proof {
                assert(chunk@.take((j + 1) as int) =~= chunk@.take(j as int).push(chunk@[j as int]));
            }
            self.seen = Ghost(self.seen@.push(b));
            j = j + 1;
            if self.header.len() == 4 {
                let e = le32(self.header[0], self.header[1], self.header[2], self.header[3]);
                let n = self.key.len();
                self.cursor = (e as usize) % n;
                proof {
                    let s = self.seen@;
                    assert(s.take(4) =~= s);
                    assert(s.skip(4) =~= Seq::<u8>::empty());
                    assert(decoded_seq(s.skip(4), self.key@, self.cursor as int) =~= Seq::<
                        u8,
                    >::empty());
                    vstd::arithmetic::div_mod::lemma_mod_twice(e as int, n as int);
                }
            }
        }
        while j < chunk.len()
            invariant
                self.wf(),
                j <= chunk@.len(),
                self.key@ == old(self).key@,
                self.seen@ == fed0 + chunk@.take(j as int),
                j < chunk@.len() ==> self.seen@.len() >= 4,
            decreases chunk@.len() - j,
        {
            let b = chunk[j];
            let (t, next) = transform(b, self.cursor, &self.key);
            adler_update(&mut self.adler, t);
            self.out.push(t);
            proof {
                let s = self.seen@;
                let m = self.key@.len() as int;
                let start: int = spec_start_cursor(spec_header(s), self.key@);
                assert(s.push(b).take(4) =~= s.take(4));
                assert(s.push(b).skip(4) =~= s.skip(4).push(b));
                lemma_decoded_seq_push(s.skip(4), b, self.key@, start);
                lemma_mod_succ(start + (s.len() - 4), m);
                assert(chunk@.take((j + 1) as int) =~= chunk@.take(j as int).push(chunk@[j as int]));
            }
            self.cursor = next;
            self.seen = Ghost(self.seen@.push(b));
            j = j + 1;
        }
        proof {
            assert(fed0 + chunk@.take(chunk@.len() as int) =~= fed0 + chunk@);
        }
    }

    /// Ends the stream: verifies the accumulated checksum against the
    /// embedded one and hands out the decoded payload only on a match —
    /// exactly the result of decoding the fed bytes in one piece.
    pub fn finish(self) -> (r: Result<Vec<u8>, DecodeError>)
        requires
            self.wf(),
        ensures
            decode_result_matches(r, spec_decode(self.fed(), self.key_view())),
    {
        if self.header.len() < 4 {
            return Err(DecodeError::TruncatedHeader);
        }
        let expected = le32(self.header[0], self.header[1], self.header[2], self.header[3]);
        let actual = adler_hash(&self.adler);
        if actual == expected {
            Ok(self.out)
        } else {
            Err(DecodeError::ChecksumMismatch { expected, actual })
        }
    }
}

} // verus!
