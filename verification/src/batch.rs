//! One decode job, and the aggregation of a batch's outcomes. A job is a
//! pure function of its own filename, input bytes and the shared
//! read-only key table: jobs share no mutable state, so a batch may run
//! them in any order or concurrently without affecting any result.

use vstd::prelude::*;

use crate::cipher::KeyTable;
use crate::decoder::{decode, spec_decode, DecodeError};
use crate::naming::{get_output_filename, spec_output_filename};

verus! {

/// What one job returns: the resolved output filename paired with the
/// verified plaintext, or the error the protocol prescribes. A filename
/// with no recognized extension fails before any decoding.
pub open spec fn spec_decode_job(name: Seq<char>, data: Seq<u8>, key: Seq<u8>) -> Result<
    (Seq<char>, Seq<u8>),
    DecodeError,
>
    recommends
        key.len() > 0,
{
    match spec_output_filename(name) {
        None => Err(DecodeError::UnrecognizedExtension),
        Some(out_name) => match spec_decode(data, key) {
            Ok(bytes) => Ok((out_name, bytes)),
            Err(e) => Err(e),
        },
    }
}

/// The exec-level job result agrees with the spec-level one.
pub open spec fn job_result_matches(
    r: Result<(String, Vec<u8>), DecodeError>,
    s: Result<(Seq<char>, Seq<u8>), DecodeError>,
) -> bool {
    match (r, s) {
        (Ok(o1), Ok(o2)) => o1.0@ == o2.0 && o1.1@ == o2.1,
        (Err(e1), Err(e2)) => e1 == e2,
        _ => false,
    }
}

/// Runs one decode job: resolves the output filename, decodes the input
/// bytes and verifies their checksum. Succeeds exactly when the
/// extension is recognized, the header is complete and the checksum of
/// the decoded payload matches the embedded one. Reads nothing but its
/// arguments and the read-only key table, so jobs are independent.
pub fn decode_job(input_filename: &str, data: &[u8], key: &KeyTable) -> (r: Result<
    (String, Vec<u8>),
    DecodeError,
>)
    requires
        key.wf(),
    ensures
        job_result_matches(r, spec_decode_job(input_filename@, data@, key@)),
{
    match get_output_filename(input_filename) {
        None => Err(DecodeError::UnrecognizedExtension),
        Some(out_name) => match decode(data, key) {
            Ok(bytes) => Ok((out_name, bytes)),
            Err(e) => Err(e),
        },
    }
}

/// How many entries of the sequence are set.
pub open spec fn count_trues(s: Seq<bool>) -> int
    decreases s.len(),
{
    if s.len() == 0 {
        0
    } else {
        count_trues(s.drop_last()) + (if s.last() {
            1 as int
        } else {
            0 as int
        })
    }
}

proof fn lemma_count_trues_bounds(s: Seq<bool>)
    ensures
        0 <= count_trues(s) <= s.len(),
    decreases s.len(),
{
    if s.len() > 0 {
        lemma_count_trues_bounds(s.drop_last());
    }
}

proof fn lemma_count_trues_zero(s: Seq<bool>)
    ensures
        (count_trues(s) == 0) <==> (forall|j: int| 0 <= j < s.len() ==> !s[j]),
    decreases s.len(),
{
    if s.len() > 0 {
        lemma_count_trues_zero(s.drop_last());
        lemma_count_trues_bounds(s.drop_last());
        assert(forall|j: int| 0 <= j < s.len() - 1 ==> s.drop_last()[j] == s[j]);
    }
}

/// Counts the failed jobs of a batch, given one failure flag per job.
/// The count is zero exactly when every job succeeded: the batch outcome
/// is "all succeeded" or "at least one failed".
pub fn count_failures(failed: &Vec<bool>) -> (n: usize)
    ensures
        n == count_trues(failed@),
        (n == 0) <==> (forall|j: int| 0 <= j < failed@.len() ==> !failed@[j]),
{
    let mut n: usize = 0;
    let mut i: usize = 0;
    proof {
        assert(failed@.take(0) =~= Seq::<bool>::empty());
    }
    while i < failed.len()
        invariant
            i <= failed@.len(),
            n <= i,
            n == count_trues(failed@.take(i as int)),
        decreases failed@.len() - i,
    {
        proof {
            assert(failed@.take((i + 1) as int).drop_last() =~= failed@.take(i as int));
            assert(failed@.take((i + 1) as int).last() == failed@[i as int]);
        }
        if failed[i] {
            n = n + 1;
        }
        i = i + 1;
    }
    proof {
        assert(failed@.take(failed@.len() as int) =~= failed@);
        lemma_count_trues_zero(failed@);
    }
    n
}

} // verus!
