//! Flush-loop state: what has been anchored, and what comes next.
//!
//! Progress is tracked by a count of consumed records and checked by re-hashing the
//! last consumed record: if the log was rotated or rewritten underneath, the check fails
//! and the next batch starts over from the beginning, with the reason reported, instead
//! of quietly resuming at the wrong offset.
use vstd::prelude::*;

use crate::attest::{decision_digest, decision_digest_spec, DecisionRecord};
use crate::commit::{hex_string, Digest};

verus! {

/// Persisted progress.
#[derive(Debug, Clone, Default, PartialEq)]
pub struct Checkpoint {
    /// Parseable records consumed so far.
    pub processed: usize,
    /// Hex digest of the last consumed record, as a tripwire for rotation or truncation;
    /// empty when nothing was consumed.
    pub last_digest: String,
    /// Roots anchored so far, newest last. Kept for operator inspection, not for logic.
    pub roots: Vec<String>,
}

impl Checkpoint {
    /// A checkpoint that has consumed nothing.
    pub fn fresh() -> (c: Checkpoint)
        ensures
            c.processed == 0,
            c.last_digest@.len() == 0,
            c.roots@.len() == 0,
    {
        Checkpoint { processed: 0, last_digest: String::new(), roots: Vec::new() }
    }
}

/// Why a resync happened, so it can be reported rather than hidden.
#[derive(Debug, Clone, Copy, PartialEq, Eq, Structural)]
pub enum Resync {
    /// Progress matched the log. Normal.
    NotNeeded,
    /// The log is shorter than the recorded progress: rotated or truncated.
    LogShrank,
    /// The record at the recorded offset no longer hashes as expected: the log was rewritten.
    DigestMismatch,
}

/// What the next flush should cover.
#[derive(Debug, Clone)]
pub struct NextBatch<'a> {
    pub records: &'a [(DecisionRecord, u64)],
    pub start_index: usize,
    pub resync: Resync,
}

/// The tripwire recorded after consuming `upto` records of `all`: the hex digest of the
/// last one, or the empty string when none was consumed.
pub open spec fn tripwire(all: Seq<(DecisionRecord, u64)>, upto: int) -> Seq<char> {
    if upto == 0 {
        Seq::empty()
    } else {
        hex_string(decision_digest_spec(all[upto - 1].0, all[upto - 1].1))
    }
}

/// Where the next batch starts, and why, given the log and the stored progress.
pub open spec fn next_start(all: Seq<(DecisionRecord, u64)>, processed: usize, last_digest: Seq<char>) -> (usize, Resync) {
    if processed > all.len() {
        (0, Resync::LogShrank)
    } else if processed > 0 && last_digest.len() != 0 && hex_string(
        decision_digest_spec(all[processed - 1].0, all[processed - 1].1),
    ) != last_digest {
        (0, Resync::DigestMismatch)
    } else {
        (processed, Resync::NotNeeded)
    }
}

/// Select the records to anchor next, validating stored progress against the live log.
///
/// The resync reason is returned rather than silently corrected: a rotated log means some
/// decisions may never have been anchored, and an operator needs to know of the gap.
pub fn next_batch<'a>(all: &'a [(DecisionRecord, u64)], checkpoint: &Checkpoint) -> (b: NextBatch<'a>)
    ensures
        (b.start_index, b.resync) == next_start(all@, checkpoint.processed, checkpoint.last_digest@),
        b.records@ == all@.subrange(b.start_index as int, all@.len() as int),
{
    let mut start = checkpoint.processed;
    let mut resync = Resync::NotNeeded;
    if start > all.len() {
        resync = Resync::LogShrank;
        start = 0;
    } else if start > 0 && !checkpoint.last_digest.as_str().is_empty() {
        let entry = &all[start - 1];
        let hex = decision_digest(&entry.0, entry.1).to_hex();
        if !(hex == checkpoint.last_digest) {
            resync = Resync::DigestMismatch;
            start = 0;
        }
    }
    let (_, records) = all.split_at(start);
    NextBatch { records, start_index: start, resync }
}

/// Advance progress after a batch has actually been anchored, recording the anchored
/// root. Call this only after the transaction lands: advancing on a planned batch would
/// skip records if the send failed.
pub fn advance(checkpoint: &mut Checkpoint, all: &[(DecisionRecord, u64)], consumed_upto: usize, root: &Digest)
    requires
        consumed_upto <= all@.len(),
    ensures
        final(checkpoint).processed == consumed_upto,
        final(checkpoint).last_digest@ == tripwire(all@, consumed_upto as int),
        final(checkpoint).roots@.len() == old(checkpoint).roots@.len() + 1,
        forall|i: int| 0 <= i < old(checkpoint).roots@.len() ==> #[trigger] final(checkpoint).roots@[i] == old(checkpoint).roots@[i],
        final(checkpoint).roots@.last()@ == hex_string(root.0@),
{
    checkpoint.processed = consumed_upto;
    if consumed_upto == 0 {
        checkpoint.last_digest = String::new();
    } else {
        let entry = &all[consumed_upto - 1];
        checkpoint.last_digest = decision_digest(&entry.0, entry.1).to_hex();
    }
    checkpoint.roots.push(root.to_hex());
}

/// Progress recorded by `advance` is picked up exactly by `next_batch`: the next batch
/// starts where the anchored one ended, with no resync, so nothing repeats and nothing is
/// skipped.
pub proof fn advance_then_next_resumes(all: Seq<(DecisionRecord, u64)>, consumed_upto: usize)
    requires
        consumed_upto <= all.len(),
    ensures
        next_start(all, consumed_upto, tripwire(all, consumed_upto as int)) == (consumed_upto, Resync::NotNeeded),
{
}

/// A log that shrank below the recorded progress always restarts from the beginning,
/// reported as such.
pub proof fn shrunk_log_restarts(all: Seq<(DecisionRecord, u64)>, processed: usize, last_digest: Seq<char>)
    requires
        processed > all.len(),
    ensures
        next_start(all, processed, last_digest) == (0usize, Resync::LogShrank),
{
}

} // verus!
