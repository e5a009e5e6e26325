//! Exact verification that compares the reference file with each candidate in
//! turn, one pair at a time.
//!
//! For every candidate the pair's fingerprints are taken, their sizes compared,
//! both files read side by side in chunks of `VERIFY_BUFFER_SIZE` bytes and compared
//! chunk by chunk, and the fingerprints taken again: the pair only counts as equal
//! when nothing differed and neither file changed meanwhile. Once every pair is
//! equal, the fingerprint of every file is taken a last time: the group is only
//! verified when each file still reports what it reported when first seen, so
//! that the files stayed unchanged during the whole verification.

use vstd::prelude::*;
use crate::protocol::{
    FileCursor, PendingRead, Progress, ResultAction, ResultVerification, VerifyAction, VerifyEvent,
    action_fits, after_action, chunk_amount, chunk_len, no_files_open, pending_of, prefix_equal,
    progress_below,
};
use crate::types::{DuplicateGroup, DuplicateScanResult, Fingerprint};

verus! {

pub const VERIFY_BUFFER_SIZE: usize = 1024 * 1024;

/// What the comparison of the reference with one candidate observed.
pub struct PairRecord {
    pub reference_before: Fingerprint,
    pub candidate_before: Fingerprint,
    /// The reference bytes delivered for this pair, in order.
    pub reference_bytes: Seq<u8>,
    /// The candidate bytes delivered for this pair, in order.
    pub candidate_bytes: Seq<u8>,
    pub reference_after: Fingerprint,
    pub candidate_after: Fingerprint,
}

/// The pair was found equal: same size, the same bytes over the whole size, and
/// neither file changed during the comparison.
pub open spec fn pair_identical(r: PairRecord) -> bool {
    &&& r.reference_before.len == r.candidate_before.len
    &&& r.reference_bytes.len() == r.reference_before.len
    &&& r.candidate_bytes == r.reference_bytes
    &&& r.reference_after == r.reference_before
    &&& r.candidate_after == r.candidate_before
}

/// The pair was found different: the sizes differ, a byte differs, or one of the
/// files changed during the comparison.
pub open spec fn pair_rejected(r: PairRecord) -> bool {
    ||| r.reference_before.len != r.candidate_before.len
    ||| exists|k: int|
        0 <= k < r.candidate_bytes.len() && k < r.reference_bytes.len() && r.candidate_bytes[k]
            != r.reference_bytes[k]
    ||| r.reference_after != r.reference_before
    ||| r.candidate_after != r.candidate_before
}

/// The fingerprint first taken of file `k`: the reference's at the first pair,
/// a candidate's at its own pair.
pub open spec fn first_fingerprint(records: Seq<PairRecord>, k: int) -> Fingerprint {
    if k == 0 { records[0].reference_before } else { records[k - 1].candidate_before }
}

/// The fingerprints first taken of the reference and of every candidate compared.
pub open spec fn first_fingerprints(records: Seq<PairRecord>) -> Seq<Fingerprint> {
    Seq::new(records.len() + 1, |k: int| first_fingerprint(records, k))
}

/// A group of `n` files is accepted: there is a record for every candidate,
/// each of them found its pair equal, and the fingerprints taken of all files
/// at the end (`closing`) are those first taken of them.
pub open spec fn accepted_pairs(n: nat, records: Seq<PairRecord>, closing: Seq<Fingerprint>) -> bool {
    &&& n >= 2
    &&& records.len() == n - 1
    &&& forall|j: int| 0 <= j < records.len() ==> pair_identical(#[trigger] records[j])
    &&& closing == first_fingerprints(records)
}

/// A group of `n` files is rejected: it has fewer than two files; or every pair
/// before the last one compared was equal and the last one was found different;
/// or every pair was equal but a file taken at the end reports something else
/// than when it was first seen.
pub open spec fn rejected_pairs(n: nat, records: Seq<PairRecord>, closing: Seq<Fingerprint>) -> bool {
    ||| n < 2
    ||| {
        &&& 1 <= records.len() <= n - 1
        &&& forall|j: int| 0 <= j < records.len() - 1 ==> pair_identical(#[trigger] records[j])
        &&& pair_rejected(records.last())
    }
    ||| {
        &&& records.len() == n - 1
        &&& forall|j: int| 0 <= j < records.len() ==> pair_identical(#[trigger] records[j])
        &&& exists|k: int| 0 <= k < closing.len() && k < n && #[trigger] closing[k] != first_fingerprint(records, k)
    }
}

/// A group is never both accepted and rejected: the verdict of a pairwise
/// verification is fixed by what it observed of the files.
pub proof fn lemma_pair_verdict_follows_observation(n: nat, records: Seq<PairRecord>, closing: Seq<Fingerprint>)
    ensures
        !(accepted_pairs(n, records, closing) && rejected_pairs(n, records, closing)),
{
    if accepted_pairs(n, records, closing) && rejected_pairs(n, records, closing) {
        let r = records.last();
        assert(pair_identical(records[records.len() - 1]));
        if exists|k: int|
            0 <= k < r.candidate_bytes.len() && k < r.reference_bytes.len() && r.candidate_bytes[k]
                != r.reference_bytes[k] {
            let k = choose|k: int|
                0 <= k < r.candidate_bytes.len() && k < r.reference_bytes.len() && r.candidate_bytes[k]
                    != r.reference_bytes[k];
            assert(r.candidate_bytes[k] == r.reference_bytes[k]);
        }
        if exists|k: int| 0 <= k < closing.len() && k < n && #[trigger] closing[k] != first_fingerprint(records, k) {
            let k = choose|k: int| 0 <= k < closing.len() && k < n && #[trigger] closing[k] != first_fingerprint(records, k);
            assert(closing[k] == first_fingerprints(records)[k]);
        }
    }
}

/// The records with `chunk` appended to the reference bytes of the last pair.
pub open spec fn with_reference_chunk(records: Seq<PairRecord>, chunk: Seq<u8>) -> Seq<PairRecord> {
    records.update(
        records.len() - 1,
        PairRecord { reference_bytes: records.last().reference_bytes + chunk, ..records.last() },
    )
}

/// The records with `chunk` appended to the candidate bytes of the last pair.
pub open spec fn with_candidate_chunk(records: Seq<PairRecord>, chunk: Seq<u8>) -> Seq<PairRecord> {
    records.update(
        records.len() - 1,
        PairRecord { candidate_bytes: records.last().candidate_bytes + chunk, ..records.last() },
    )
}

/// The pair's files were read side by side over the reference's whole size
/// without a difference.
pub open spec fn pair_read(r: PairRecord) -> bool {
    &&& r.reference_bytes.len() == r.reference_before.len
    &&& r.candidate_bytes == r.reference_bytes
}

/// What a fingerprint `fp` of file `i` may do to the records and the closing
/// fingerprints: open the next pair (the reference's), give a freshly opened
/// pair its candidate's fingerprint, record the reference's or the candidate's
/// once the pair was read in full, or be one of the fingerprints taken at the
/// end.
pub open spec fn fingerprint_recorded(
    records: Seq<PairRecord>,
    closing: Seq<Fingerprint>,
    new_records: Seq<PairRecord>,
    new_closing: Seq<Fingerprint>,
    i: nat,
    fp: Fingerprint,
) -> bool {
    ||| i == 0 && new_records == records.push(opened_record(fp)) && new_closing == closing
    ||| records.len() > 0 && i == records.len() && new_closing == closing && records.last() == opened_record(
        records.last().reference_before,
    ) && new_records == records.update(
        records.len() - 1,
        PairRecord { candidate_before: fp, candidate_after: fp, ..records.last() },
    )
    ||| records.len() > 0 && i == 0 && new_closing == closing && pair_read(records.last()) && new_records
        == records.update(records.len() - 1, PairRecord { reference_after: fp, ..records.last() })
    ||| records.len() > 0 && i == records.len() && new_closing == closing && pair_read(records.last())
        && new_records == records.update(
        records.len() - 1,
        PairRecord { candidate_after: fp, ..records.last() },
    )
    ||| i == closing.len() && new_records == records && new_closing == closing.push(fp)
}

/// A group with a pair whose candidate bytes, as handed back for it, differ at
/// any offset from the reference bytes handed back for the same pair is never
/// accepted. (`step` records in each pair exactly the buffers of its reads.)
pub proof fn lemma_pair_difference_rejects(
    n: nat,
    records: Seq<PairRecord>,
    closing: Seq<Fingerprint>,
    j: int,
    k: int,
)
    requires
        0 <= j < records.len(),
        0 <= k < records[j].candidate_bytes.len(),
        k < records[j].reference_bytes.len(),
        records[j].candidate_bytes[k] != records[j].reference_bytes[k],
    ensures
        !accepted_pairs(n, records, closing),
{
    if accepted_pairs(n, records, closing) {
        assert(pair_identical(records[j]));
    }
}

/// A record holding only the reference fingerprint; the fields not observed yet
/// repeat it, so that nothing in it counts as a difference.
pub open spec fn opened_record(fp: Fingerprint) -> PairRecord {
    PairRecord {
        reference_before: fp,
        candidate_before: fp,
        reference_bytes: Seq::empty(),
        candidate_bytes: Seq::empty(),
        reference_after: fp,
        candidate_after: fp,
    }
}

pub enum PairPhase {
    ReferenceBefore,
    CandidateBefore,
    OpeningReference,
    OpeningCandidate,
    ReadingReference,
    ReadingCandidate,
    ReferenceAfter,
    CandidateAfter,
    Closing,
    Done,
}

/// The state of a pairwise verification of one group.
pub struct PairwiseVerifier {
    file_count: usize,
    phase: PairPhase,
    verdict: bool,
    candidate: usize,
    reference_before: Fingerprint,
    candidate_before: Fingerprint,
    reference_after: Fingerprint,
    remaining: u64,
    amount: usize,
    reference_buffer: Vec<u8>,
    candidate_buffer: Vec<u8>,
    first_seen: Vec<Fingerprint>,
    closing_index: usize,
    records: Ghost<Seq<PairRecord>>,
    closing: Ghost<Seq<Fingerprint>>,
    files: Ghost<FileCursor>,
}

/// How far the files of the pair compared last may be read: the size its
/// reference reported before reading.
pub open spec fn pair_limit(records: Seq<PairRecord>) -> nat {
    if records.len() > 0 { records.last().reference_before.len as nat } else { 0 }
}

impl PairwiseVerifier {
    pub closed spec fn file_count(&self) -> nat {
        self.file_count as nat
    }

    /// One record per pair compared so far, the candidate `j + 1` in `records()[j]`.
    pub closed spec fn records(&self) -> Seq<PairRecord> {
        self.records@
    }

    /// Where the pair's files stand after the operations asked for so far.
    pub closed spec fn files(&self) -> FileCursor {
        self.files@
    }

    /// What the answer to the operation asked for last carries.
    pub closed spec fn pending(&self) -> PendingRead {
        match self.phase {
            PairPhase::ReferenceBefore | PairPhase::ReferenceAfter => PendingRead::Fingerprint(0),
            PairPhase::CandidateBefore | PairPhase::CandidateAfter => PendingRead::Fingerprint(
                self.candidate as nat,
            ),
            PairPhase::Closing => PendingRead::Fingerprint(self.closing_index as nat),
            PairPhase::ReadingReference => PendingRead::Reference(self.amount as nat),
            PairPhase::ReadingCandidate => PendingRead::Candidate(0, self.amount as nat),
            _ => PendingRead::Nothing,
        }
    }

    /// The fingerprints taken of the files at the end, in file order.
    pub closed spec fn closing(&self) -> Seq<Fingerprint> {
        self.closing@
    }

    /// The work left: the pairs left, within a pair its stages, the bytes left
    /// and the reads of the current chunk, then the fingerprints to take at the
    /// end.
    pub closed spec fn progress(&self) -> Progress {
        let n = self.file_count as int;
        let pairs = (n - self.candidate) as nat;
        match self.phase {
            PairPhase::ReferenceBefore => (2, pairs, 7, 0, 0),
            PairPhase::CandidateBefore => (2, pairs, 6, 0, 0),
            PairPhase::OpeningReference => (2, pairs, 5, 0, 0),
            PairPhase::OpeningCandidate => (2, pairs, 4, 0, 0),
            PairPhase::ReadingReference => (2, pairs, 3, self.remaining as nat, 2),
            PairPhase::ReadingCandidate => (2, pairs, 3, self.remaining as nat, 1),
            PairPhase::ReferenceAfter => (2, pairs, 2, 0, 0),
            PairPhase::CandidateAfter => (2, pairs, 1, 0, 0),
            PairPhase::Closing => (1, (n - self.closing_index) as nat, 0, 0, 0),
            PairPhase::Done => (0, 0, 0, 0, 0),
        }
    }

    /// The fingerprints first taken so far agree with the records.
    closed spec fn first_seen_wf(&self, len: int) -> bool {
        &&& self.first_seen@.len() == len
        &&& forall|k: int| 0 <= k < len ==> #[trigger] self.first_seen@[k] == first_fingerprint(self.records@, k)
    }

    pub closed spec fn finished(&self) -> Option<bool> {
        if self.phase is Done {
            Some(self.verdict)
        } else {
            None
        }
    }

    closed spec fn current(&self) -> PairRecord {
        self.records@[self.candidate - 1]
    }

    closed spec fn offset(&self) -> int {
        self.reference_before.len - self.remaining
    }

    closed spec fn sizes_agree(&self) -> bool {
        let cur = self.current();
        &&& cur.reference_before == self.reference_before
        &&& cur.candidate_before == self.candidate_before
        &&& self.reference_before.len == self.candidate_before.len
        &&& cur.candidate_after == cur.candidate_before
    }

    closed spec fn pair_wf(&self) -> bool {
        let cur = self.current();
        match self.phase {
            PairPhase::ReferenceBefore => {
                &&& self.records@.len() == self.candidate - 1
                &&& self.first_seen_wf(if self.candidate == 1 { 0 } else { self.candidate as int })
            },
            PairPhase::CandidateBefore => {
                &&& self.records@.len() == self.candidate
                &&& cur == opened_record(self.reference_before)
                &&& self.first_seen_wf(self.candidate as int)
            },
            PairPhase::OpeningReference | PairPhase::OpeningCandidate => {
                &&& self.files@.reference == Some(0nat)
                &&& self.phase is OpeningCandidate ==> self.files@.candidates == seq![(self.candidate as nat, 0nat)]
                &&& self.records@.len() == self.candidate
                &&& self.sizes_agree()
                &&& cur.reference_bytes.len() == 0
                &&& cur.candidate_bytes.len() == 0
                &&& cur.reference_after == cur.reference_before
                &&& self.reference_buffer.len() == VERIFY_BUFFER_SIZE
                &&& self.candidate_buffer.len() == VERIFY_BUFFER_SIZE
            },
            PairPhase::ReadingReference => {
                &&& self.files@.reference == Some((self.offset() + self.amount) as nat)
                &&& self.files@.candidates == seq![(self.candidate as nat, self.offset() as nat)]
                &&& self.records@.len() == self.candidate
                &&& self.sizes_agree()
                &&& 0 < self.remaining <= self.reference_before.len
                &&& self.amount == chunk_len(self.remaining, VERIFY_BUFFER_SIZE)
                &&& cur.reference_bytes.len() == self.offset()
                &&& cur.candidate_bytes == cur.reference_bytes
                &&& cur.reference_after == cur.reference_before
                &&& self.candidate_buffer.len() == VERIFY_BUFFER_SIZE
            },
            PairPhase::ReadingCandidate => {
                &&& self.files@.reference == Some((self.offset() + self.amount) as nat)
                &&& self.files@.candidates == seq![(self.candidate as nat, (self.offset() + self.amount) as nat)]
                &&& self.records@.len() == self.candidate
                &&& self.sizes_agree()
                &&& 0 < self.remaining <= self.reference_before.len
                &&& self.amount == chunk_len(self.remaining, VERIFY_BUFFER_SIZE)
                &&& cur.reference_bytes.len() == self.offset() + self.amount
                &&& cur.candidate_bytes == cur.reference_bytes.take(self.offset())
                &&& cur.reference_after == cur.reference_before
                &&& self.reference_buffer.len() == VERIFY_BUFFER_SIZE
                &&& self.reference_buffer@.take(self.amount as int) == cur.reference_bytes.skip(
                    self.offset(),
                )
            },
            PairPhase::ReferenceAfter => {
                &&& self.records@.len() == self.candidate
                &&& self.sizes_agree()
                &&& cur.reference_bytes.len() == self.reference_before.len
                &&& cur.candidate_bytes == cur.reference_bytes
                &&& cur.reference_after == cur.reference_before
            },
            PairPhase::CandidateAfter => {
                &&& self.records@.len() == self.candidate
                &&& self.sizes_agree()
                &&& cur.reference_bytes.len() == self.reference_before.len
                &&& cur.candidate_bytes == cur.reference_bytes
                &&& cur.reference_after == self.reference_after
            },
            PairPhase::Closing | PairPhase::Done => true,
        }
    }

    /// The invariant of the verification state.
    pub closed spec fn wf(&self) -> bool {
        if self.phase is Done {
            &&& self.verdict ==> accepted_pairs(self.file_count as nat, self.records@, self.closing@)
            &&& !self.verdict ==> rejected_pairs(self.file_count as nat, self.records@, self.closing@)
        } else if self.phase is Closing {
            &&& 2 <= self.file_count
            &&& self.records@.len() == self.file_count - 1
            &&& forall|j: int| 0 <= j < self.records@.len() ==> pair_identical(#[trigger] self.records@[j])
            &&& self.first_seen_wf(self.file_count as int)
            &&& self.closing_index < self.file_count
            &&& self.closing@.len() == self.closing_index
            &&& forall|k: int| 0 <= k < self.closing_index ==> #[trigger] self.closing@[k] == self.first_seen@[k]
        } else {
            &&& 2 <= self.file_count
            &&& 1 <= self.candidate < self.file_count
            &&& forall|j: int| 0 <= j < self.candidate - 1 ==> pair_identical(#[trigger] self.records@[j])
            &&& self.pair_wf()
            &&& self.closing@.len() == 0
            &&& (self.phase is ReferenceBefore || self.phase is CandidateBefore || self.first_seen_wf(
                self.candidate + 1,
            ))
        }
    }

    /// The event that answers the operation asked for last.
    pub closed spec fn expects(&self, e: VerifyEvent) -> bool {
        match self.phase {
            PairPhase::ReferenceBefore | PairPhase::CandidateBefore | PairPhase::ReferenceAfter
            | PairPhase::CandidateAfter | PairPhase::Closing => e is Fingerprint,
            PairPhase::OpeningReference | PairPhase::OpeningCandidate => e is Ready,
            PairPhase::ReadingReference | PairPhase::ReadingCandidate => e matches VerifyEvent::Filled(b)
                && b.len() == VERIFY_BUFFER_SIZE,
            PairPhase::Done => false,
        }
    }

    /// `a` is the operation the verification asks for in its present state.
    pub closed spec fn asks(&self, a: VerifyAction) -> bool {
        match self.phase {
            PairPhase::ReferenceBefore | PairPhase::ReferenceAfter => a == VerifyAction::ReadFingerprint(0),
            PairPhase::CandidateBefore | PairPhase::CandidateAfter => a == VerifyAction::ReadFingerprint(
                self.candidate,
            ),
            PairPhase::OpeningReference => a is OpenReference,
            PairPhase::OpeningCandidate => a == VerifyAction::OpenCandidates {
                first: self.candidate,
                count: 1,
            },
            PairPhase::ReadingReference => a matches VerifyAction::ReadReference { amount, buffer }
                && amount == self.amount && buffer.len() == VERIFY_BUFFER_SIZE,
            PairPhase::ReadingCandidate => a matches VerifyAction::ReadCandidate { slot, amount, buffer }
                && slot == 0 && amount == self.amount && buffer.len() == VERIFY_BUFFER_SIZE,
            PairPhase::Closing => a == VerifyAction::ReadFingerprint(self.closing_index),
            PairPhase::Done => a == VerifyAction::Finished(self.verdict),
        }
    }

    /// What an operation asked for requires of the files: reads ask for a
    /// positive amount that fits the buffer handed out, candidates are opened by
    /// valid indices.
    pub proof fn lemma_asks_bounds(&self, a: VerifyAction)
        requires
            self.wf(),
            self.asks(a),
        ensures
            a matches VerifyAction::ReadFingerprint(i) ==> i < self.file_count(),
            a matches VerifyAction::OpenCandidates { first, count } ==> 1 <= first && first + count
                <= self.file_count() && count == 1,
            a matches VerifyAction::ReadReference { amount, buffer } ==> 1 <= amount <= buffer.len(),
            a matches VerifyAction::ReadCandidate { slot, amount, buffer } ==> slot == 0 && 1 <= amount
                <= buffer.len(),
            a matches VerifyAction::Finished(v) ==> self.finished() == Some(v),
    {
    }

    /// Hands out the reference buffer for the next chunk of the current pair.
    fn read_reference_chunk(&mut self) -> (action: VerifyAction)
        requires
            old(self).remaining > 0,
            old(self).reference_buffer.len() == VERIFY_BUFFER_SIZE,
            old(self).files@.reference is Some,
        ensures
            final(self).files@ == after_action(old(self).files@, action),
            final(self).phase is ReadingReference,
            final(self).amount == chunk_len(old(self).remaining, VERIFY_BUFFER_SIZE),
            final(self).file_count == old(self).file_count,
            final(self).candidate == old(self).candidate,
            final(self).remaining == old(self).remaining,
            final(self).reference_before == old(self).reference_before,
            final(self).candidate_before == old(self).candidate_before,
            final(self).candidate_buffer == old(self).candidate_buffer,
            final(self).records == old(self).records,
            final(self).first_seen == old(self).first_seen,
            final(self).closing == old(self).closing,
            action matches VerifyAction::ReadReference { amount, buffer } && amount == final(self).amount
                && buffer.len() == VERIFY_BUFFER_SIZE,
    {
        self.amount = chunk_amount(self.remaining, VERIFY_BUFFER_SIZE);
        let mut buffer: Vec<u8> = Vec::new();
        core::mem::swap(&mut buffer, &mut self.reference_buffer);
        self.phase = PairPhase::ReadingReference;
        self.files = Ghost(
            FileCursor {
                reference: Some((self.files@.reference->0 + self.amount) as nat),
                candidates: self.files@.candidates,
            },
        );
        VerifyAction::ReadReference { amount: self.amount, buffer }
    }

    /// Advances the verification by the outcome of the operation asked for last
    /// and returns the next operation.
    pub fn step(&mut self, event: VerifyEvent) -> (action: VerifyAction)
        requires
            old(self).wf(),
            old(self).finished() is None,
            old(self).expects(event),
        ensures
            final(self).wf(),
            final(self).asks(action),
            final(self).file_count() == old(self).file_count(),
            action is Finished || progress_below(final(self).progress(), old(self).progress()),
            final(self).files() == after_action(old(self).files(), action),
            action_fits(old(self).files(), action, pair_limit(final(self).records())),
            action matches VerifyAction::Finished(v) ==> (v ==> accepted_pairs(
                final(self).file_count(),
                final(self).records(),
                final(self).closing(),
            )) && (!v ==> rejected_pairs(
                final(self).file_count(),
                final(self).records(),
                final(self).closing(),
            )),
            final(self).pending() == pending_of(action),
            old(self).pending() is Nothing ==> final(self).records() == old(self).records()
                && final(self).closing() == old(self).closing(),
            old(self).pending() matches PendingRead::Fingerprint(i) ==> (event matches VerifyEvent::Fingerprint(fp)
                ==> fingerprint_recorded(
                old(self).records(),
                old(self).closing(),
                final(self).records(),
                final(self).closing(),
                i,
                fp,
            )),
            old(self).pending() matches PendingRead::Reference(amount) ==> (event matches VerifyEvent::Filled(b)
                ==> final(self).records() == with_reference_chunk(old(self).records(), b@.take(amount as int))
                && final(self).closing() == old(self).closing()),
            old(self).pending() matches PendingRead::Candidate(slot, amount) ==> (event matches VerifyEvent::Filled(
                b,
            ) ==> final(self).records() == with_candidate_chunk(old(self).records(), b@.take(amount as int))
                && final(self).closing() == old(self).closing()),
    {
        self.advance(event)
    }

    /// Advances the verification by one event; see `step`.
    fn advance(&mut self, event: VerifyEvent) -> (action: VerifyAction)
        requires
            old(self).wf(),
            old(self).finished() is None,
            old(self).expects(event),
        ensures
            final(self).wf(),
            final(self).asks(action),
            final(self).file_count() == old(self).file_count(),
            action is Finished || progress_below(final(self).progress(), old(self).progress()),
            final(self).files() == after_action(old(self).files(), action),
            action_fits(old(self).files(), action, pair_limit(final(self).records())),
            action matches VerifyAction::Finished(v) ==> (v ==> accepted_pairs(
                final(self).file_count(),
                final(self).records(),
                final(self).closing(),
            )) && (!v ==> rejected_pairs(
                final(self).file_count(),
                final(self).records(),
                final(self).closing(),
            )),
            old(self).phase is ReadingReference ==> (event matches VerifyEvent::Filled(b) ==> final(self).records()
                == with_reference_chunk(old(self).records(), b@.take(old(self).amount as int))
                && final(self).closing() == old(self).closing()),
            old(self).phase is ReadingCandidate ==> (event matches VerifyEvent::Filled(b) ==> final(self).records()
                == with_candidate_chunk(old(self).records(), b@.take(old(self).amount as int))
                && final(self).closing() == old(self).closing()),
            event matches VerifyEvent::Fingerprint(fp) ==> (old(self).pending() matches PendingRead::Fingerprint(i)
                ==> fingerprint_recorded(
                old(self).records(),
                old(self).closing(),
                final(self).records(),
                final(self).closing(),
                i,
                fp,
            )),
            (old(self).phase is OpeningReference || old(self).phase is OpeningCandidate) ==> final(self).records()
                == old(self).records() && final(self).closing() == old(self).closing(),

    {
        let ghost n = self.file_count as nat;
        match self.phase {
            PairPhase::ReferenceBefore => {
                let fp = match event {
                    VerifyEvent::Fingerprint(fp) => fp,
                    _ => {
                        proof {
                            assert(false);
                        }
                        return VerifyAction::Finished(false);
                    },
                };
                self.reference_before = fp;
                let ghost old_records = self.records@;
                self.records = Ghost(self.records@.push(opened_record(fp)));
                if self.candidate == 1 {
                    self.first_seen.push(fp);
                }
                assert forall|k: int| 0 <= k < self.first_seen@.len() implies #[trigger] self.first_seen@[k]
                    == first_fingerprint(self.records@, k) by {
                    if k > 0 {
                        assert(self.records@[k - 1] == old_records[k - 1]);
                    } else if self.candidate > 1 {
                        assert(self.records@[0] == old_records[0]);
                    }
                }
                assert forall|j: int| 0 <= j < self.candidate - 1 implies pair_identical(
                    #[trigger] self.records@[j],
                ) by {
                    assert(self.records@[j] == old_records[j]);
                }
                self.phase = PairPhase::CandidateBefore;
                VerifyAction::ReadFingerprint(self.candidate)
            },
            PairPhase::CandidateBefore => {
                let fp = match event {
                    VerifyEvent::Fingerprint(fp) => fp,
                    _ => {
                        proof {
                            assert(false);
                        }
                        return VerifyAction::Finished(false);
                    },
                };
                let ghost i = self.candidate - 1;
                let ghost cur = self.records@[i];
                self.candidate_before = fp;
                self.records = Ghost(
                    self.records@.update(
                        i,
                        PairRecord { candidate_before: fp, candidate_after: fp, ..cur },
                    ),
                );
                self.first_seen.push(fp);
                assert forall|k: int| 0 <= k < self.first_seen@.len() implies #[trigger] self.first_seen@[k]
                    == first_fingerprint(self.records@, k) by {
                    if k < self.candidate {
                        if k > 0 {
                            assert(self.records@[k - 1].candidate_before == old(self).records@[k
                                - 1].candidate_before);
                        } else {
                            assert(self.records@[0].reference_before == old(self).records@[0].reference_before);
                        }
                    }
                }
                if self.reference_before.len != fp.len {
                    self.phase = PairPhase::Done;
                    self.verdict = false;
                    return VerifyAction::Finished(false);
                }
                self.reference_buffer = vec![0u8; VERIFY_BUFFER_SIZE];
                self.candidate_buffer = vec![0u8; VERIFY_BUFFER_SIZE];
                self.phase = PairPhase::OpeningReference;
                self.files = Ghost(FileCursor { reference: Some(0), candidates: self.files@.candidates });
                VerifyAction::OpenReference
            },
            PairPhase::OpeningReference => {
                self.phase = PairPhase::OpeningCandidate;
                self.files = Ghost(
                    FileCursor {
                        reference: self.files@.reference,
                        candidates: Seq::new(1, |k: int| ((self.candidate + k) as nat, 0nat)),
                    },
                );
                assert(self.files@.candidates =~= seq![(self.candidate as nat, 0nat)]);
                VerifyAction::OpenCandidates { first: self.candidate, count: 1 }
            },
            PairPhase::OpeningCandidate => {
                assert(self.current().candidate_bytes =~= self.current().reference_bytes);
                self.remaining = self.reference_before.len;
                if self.remaining > 0 {
                    self.read_reference_chunk()
                } else {
                    self.phase = PairPhase::ReferenceAfter;
                    VerifyAction::ReadFingerprint(0)
                }
            },
            PairPhase::ReadingReference => {
                let buf = match event {
                    VerifyEvent::Filled(b) => b,
                    _ => {
                        proof {
                            assert(false);
                        }
                        return VerifyAction::Finished(false);
                    },
                };
                let ghost i = self.candidate - 1;
                let ghost cur = self.records@[i];
                let ghost off = self.offset();
                self.reference_buffer = buf;
                self.records = Ghost(
                    self.records@.update(
                        i,
                        PairRecord {
                            reference_bytes: cur.reference_bytes + self.reference_buffer@.take(
                                self.amount as int,
                            ),
                            ..cur
                        },
                    ),
                );
                proof {
                    let ncur = self.records@[i];
                    assert(ncur.reference_bytes.take(off) =~= cur.reference_bytes);
                    assert(self.reference_buffer@.take(self.amount as int) =~= ncur.reference_bytes.skip(
                        off,
                    ));
                }
                let mut buffer: Vec<u8> = Vec::new();
                core::mem::swap(&mut buffer, &mut self.candidate_buffer);
                self.phase = PairPhase::ReadingCandidate;
                let ghost c = self.files@.candidates;
                self.files = Ghost(
                    FileCursor {
                        reference: self.files@.reference,
                        candidates: c.update(0, (c[0].0, (c[0].1 + self.amount) as nat)),
                    },
                );
                assert(self.files@.candidates =~= seq![(self.candidate as nat, (off + self.amount) as nat)]);
                VerifyAction::ReadCandidate { slot: 0, amount: self.amount, buffer }
            },
            PairPhase::ReadingCandidate => {
                let buf = match event {
                    VerifyEvent::Filled(b) => b,
                    _ => {
                        proof {
                            assert(false);
                        }
                        return VerifyAction::Finished(false);
                    },
                };
                let ghost i = self.candidate - 1;
                let ghost cur = self.records@[i];
                let ghost off = self.offset();
                self.candidate_buffer = buf;
                self.records = Ghost(
                    self.records@.update(
                        i,
                        PairRecord {
                            candidate_bytes: cur.candidate_bytes + self.candidate_buffer@.take(
                                self.amount as int,
                            ),
                            ..cur
                        },
                    ),
                );
                let equal = prefix_equal(&self.reference_buffer, &self.candidate_buffer, self.amount);
                let ghost ncur = self.records@[i];
                if !equal {
                    proof {
                        let a = self.reference_buffer@.take(self.amount as int);
                        let b = self.candidate_buffer@.take(self.amount as int);
                        let k = lemma_first_difference(a, b);
                        assert(ncur.candidate_bytes[off + k] == b[k]);
                        assert(ncur.reference_bytes[off + k] == a[k]);
                    }
                    self.phase = PairPhase::Done;
                    self.verdict = false;
                    return VerifyAction::Finished(false);
                }
                proof {
                    assert(ncur.candidate_bytes =~= ncur.reference_bytes);
                }
                self.remaining = self.remaining - self.amount as u64;
                if self.remaining > 0 {
                    self.read_reference_chunk()
                } else {
                    self.phase = PairPhase::ReferenceAfter;
                    VerifyAction::ReadFingerprint(0)
                }
            },
            PairPhase::ReferenceAfter => {
                let fp = match event {
                    VerifyEvent::Fingerprint(fp) => fp,
                    _ => {
                        proof {
                            assert(false);
                        }
                        return VerifyAction::Finished(false);
                    },
                };
                let ghost i = self.candidate - 1;
                let ghost cur = self.records@[i];
                self.reference_after = fp;
                self.records = Ghost(self.records@.update(i, PairRecord { reference_after: fp, ..cur }));
                self.phase = PairPhase::CandidateAfter;
                VerifyAction::ReadFingerprint(self.candidate)
            },
            PairPhase::CandidateAfter => {
                let fp = match event {
                    VerifyEvent::Fingerprint(fp) => fp,
                    _ => {
                        proof {
                            assert(false);
                        }
                        return VerifyAction::Finished(false);
                    },
                };
                let ghost i = self.candidate - 1;
                let ghost cur = self.records@[i];
                self.records = Ghost(self.records@.update(i, PairRecord { candidate_after: fp, ..cur }));
                if self.reference_before != self.reference_after || self.candidate_before != fp {
                    self.phase = PairPhase::Done;
                    self.verdict = false;
                    return VerifyAction::Finished(false);
                }
                assert(pair_identical(self.records@[i]));
                self.candidate = self.candidate + 1;
                if self.candidate < self.file_count {
                    self.phase = PairPhase::ReferenceBefore;
                    VerifyAction::ReadFingerprint(0)
                } else {
                    self.closing_index = 0;
                    self.phase = PairPhase::Closing;
                    VerifyAction::ReadFingerprint(0)
                }
            },
            PairPhase::Closing => {
                let fp = match event {
                    VerifyEvent::Fingerprint(fp) => fp,
                    _ => {
                        proof {
                            assert(false);
                        }
                        return VerifyAction::Finished(false);
                    },
                };
                let ghost old_closing = self.closing@;
                self.closing = Ghost(self.closing@.push(fp));
                if fp != self.first_seen[self.closing_index] {
                    self.phase = PairPhase::Done;
                    self.verdict = false;
                    assert(self.closing@[self.closing_index as int] != first_fingerprint(
                        self.records@,
                        self.closing_index as int,
                    ));
                    return VerifyAction::Finished(false);
                }
                assert forall|k: int| 0 <= k < self.closing_index + 1 implies #[trigger] self.closing@[k]
                    == self.first_seen@[k] by {
                    if k < self.closing_index {
                        assert(self.closing@[k] == old_closing[k]);
                    }
                }
                self.closing_index = self.closing_index + 1;
                if self.closing_index < self.file_count {
                    VerifyAction::ReadFingerprint(self.closing_index)
                } else {
                    self.phase = PairPhase::Done;
                    self.verdict = true;
                    assert(self.closing@ =~= first_fingerprints(self.records@));
                    VerifyAction::Finished(true)
                }
            },
            PairPhase::Done => {
                proof {
                    assert(false);
                }
                VerifyAction::Finished(false)
            },
        }
    }
}

/// Starts the exact verification of `group`: the group is marked unverified
/// until the verification ends in its favour. A group of fewer than two files is
/// rejected at once.
pub fn verify_group(group: &mut DuplicateGroup) -> (r: (PairwiseVerifier, VerifyAction))
    ensures
        final(group).files == old(group).files,
        !final(group).verified,
        r.0.wf(),
        r.0.file_count() == old(group).files.len(),
        r.0.records() == Seq::<PairRecord>::empty(),
        r.0.closing() == Seq::<Fingerprint>::empty(),
        r.0.files() == no_files_open(),
        r.0.pending() == pending_of(r.1),
        r.0.asks(r.1),
        old(group).files.len() < 2 ==> r.1 == VerifyAction::Finished(false),
        old(group).files.len() >= 2 ==> r.1 == VerifyAction::ReadFingerprint(0),
{
    group.verified = false;
    let n = group.files.len();
    let none = Fingerprint { len: 0, modified: None };
    let mut v = PairwiseVerifier {
        file_count: n,
        phase: PairPhase::ReferenceBefore,
        verdict: false,
        candidate: 1,
        reference_before: none,
        candidate_before: none,
        reference_after: none,
        remaining: 0,
        amount: 0,
        reference_buffer: Vec::new(),
        candidate_buffer: Vec::new(),
        first_seen: Vec::new(),
        closing_index: 0,
        records: Ghost(Seq::empty()),
        closing: Ghost(Seq::empty()),
        files: Ghost(no_files_open()),
    };
    if n < 2 {
        v.phase = PairPhase::Done;
        (v, VerifyAction::Finished(false))
    } else {
        (v, VerifyAction::ReadFingerprint(0))
    }
}

impl PairwiseVerifier {
    /// Records the verdict in the group that was verified.
    pub fn finish(&self, group: &mut DuplicateGroup) -> (verified: bool)
        requires
            self.wf(),
            self.finished() is Some,
            old(group).files.len() == self.file_count(),
        ensures
            Some(verified) == self.finished(),
            final(group).verified == verified,
            final(group).files == old(group).files,
            verified ==> accepted_pairs(final(group).files.len() as nat, self.records(), self.closing()),
            !verified ==> rejected_pairs(final(group).files.len() as nat, self.records(), self.closing()),
    {
        group.verified = self.verdict;
        self.verdict
    }
}

/// Starts verifying every group of `result` in order, counting the verified ones.
pub fn verify_result(result: &DuplicateScanResult) -> (r: (ResultVerification, ResultAction))
    ensures
        r.0.wf(),
        r.0.group_count() == result.groups.len(),
        r.0.outcomes() == Seq::<bool>::empty(),
        r.0.asks(r.1),
{
    ResultVerification::start(result.groups.len())
}

/// Two sequences of the same length that differ differ at some index.
pub proof fn lemma_first_difference(a: Seq<u8>, b: Seq<u8>) -> (k: int)
    requires
        a.len() == b.len(),
        a != b,
    ensures
        0 <= k < a.len(),
        a[k] != b[k],
{
    if forall|i: int| 0 <= i < a.len() ==> a[i] == b[i] {
        assert(a =~= b);
    }
    choose|i: int| 0 <= i < a.len() && a[i] != b[i]
}

} // verus!
