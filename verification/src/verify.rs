//! Backend-independent exact byte verification of duplicate groups.
//!
//! Duplicate detection and exact verification are deliberately separate: the
//! engines decide which files are candidates; a verifier decides whether a
//! candidate group is truly byte-identical.
//!
//! `GroupVerifier` compares one reference chunk against a bounded batch of up to
//! `MAX_CANDIDATES_PER_BATCH` candidate files with two reusable buffers of
//! `VERIFY_BUFFER_SIZE` bytes, so the reference is read once per batch.

use vstd::prelude::*;
use crate::protocol::{
    FileCursor, PendingRead, Progress, ResultAction, ResultVerification, VerifyAction, VerifyEvent,
    action_fits, after_action, chunk_amount, chunk_len, no_files_open, pending_of, prefix_equal,
    progress_below,
};
use crate::types::{DuplicateGroup, DuplicateScanResult, Fingerprint};

verus! {

pub const VERIFY_BUFFER_SIZE: usize = 4 * 1024 * 1024;

pub const MAX_CANDIDATES_PER_BATCH: usize = 16;

/// `x` increased by `d`, held at `u64::MAX`.
pub open spec fn saturated(x: int, d: int) -> u64 {
    if x + d > u64::MAX { u64::MAX } else { (x + d) as u64 }
}

/// The two reusable buffers of a verification, with counters of the bytes read
/// into each.
pub struct VerificationWorkspace {
    reference_buffer: Vec<u8>,
    candidate_buffer: Vec<u8>,
    reference_bytes_read: u64,
    candidate_bytes_read: u64,
}

impl VerificationWorkspace {
    pub closed spec fn buffers_ready(&self) -> bool {
        &&& self.reference_buffer.len() == VERIFY_BUFFER_SIZE
        &&& self.candidate_buffer.len() == VERIFY_BUFFER_SIZE
    }

    /// Bytes counted as read from references.
    pub closed spec fn reference_count(&self) -> u64 {
        self.reference_bytes_read
    }

    /// Bytes counted as read from candidates.
    pub closed spec fn candidate_count(&self) -> u64 {
        self.candidate_bytes_read
    }

    pub fn reference_bytes_read(&self) -> (r: u64)
        ensures
            r == self.reference_count(),
    {
        self.reference_bytes_read
    }

    pub fn candidate_bytes_read(&self) -> (r: u64)
        ensures
            r == self.candidate_count(),
    {
        self.candidate_bytes_read
    }

    /// The contents of the buffer reference chunks are read into.
    pub closed spec fn reference_buffer_contents(&self) -> Seq<u8> {
        self.reference_buffer@
    }

    /// The contents of the buffer candidate chunks are read into.
    pub closed spec fn candidate_buffer_contents(&self) -> Seq<u8> {
        self.candidate_buffer@
    }

    pub closed spec fn same_buffers(&self, other: VerificationWorkspace) -> bool {
        &&& self.reference_buffer == other.reference_buffer
        &&& self.candidate_buffer == other.candidate_buffer
    }

    pub fn new() -> (r: VerificationWorkspace)
        ensures
            r.buffers_ready(),
            r.reference_buffer_contents() == Seq::new(VERIFY_BUFFER_SIZE as nat, |i: int| 0u8),
            r.candidate_buffer_contents() == Seq::new(VERIFY_BUFFER_SIZE as nat, |i: int| 0u8),
            r.reference_count() == 0,
            r.candidate_count() == 0,
    {
        let w = VerificationWorkspace {
            reference_buffer: vec![0u8; VERIFY_BUFFER_SIZE],
            candidate_buffer: vec![0u8; VERIFY_BUFFER_SIZE],
            reference_bytes_read: 0,
            candidate_bytes_read: 0,
        };
        assert(w.reference_buffer@ =~= Seq::new(VERIFY_BUFFER_SIZE as nat, |i: int| 0u8));
        assert(w.candidate_buffer@ =~= Seq::new(VERIFY_BUFFER_SIZE as nat, |i: int| 0u8));
        w
    }

    /// Counts `bytes` more bytes read from the reference.
    pub fn record_reference_read(&mut self, bytes: usize)
        ensures
            final(self).reference_count() == saturated(old(self).reference_count() as int, bytes as int),
            final(self).candidate_count() == old(self).candidate_count(),
            final(self).same_buffers(*old(self)),
    {
        self.reference_bytes_read = self.reference_bytes_read.saturating_add(bytes as u64);
    }

    /// Counts `bytes` more bytes read from candidates.
    pub fn record_candidate_read(&mut self, bytes: usize)
        ensures
            final(self).candidate_count() == saturated(old(self).candidate_count() as int, bytes as int),
            final(self).reference_count() == old(self).reference_count(),
            final(self).same_buffers(*old(self)),
    {
        self.candidate_bytes_read = self.candidate_bytes_read.saturating_add(bytes as u64);
    }
}

/// Whether all fingerprints report the size of the first; false for none.
pub open spec fn sizes_match(fingerprints: Seq<Fingerprint>) -> bool {
    &&& fingerprints.len() > 0
    &&& forall|i: int| 0 <= i < fingerprints.len() ==> (#[trigger] fingerprints[i]).len == fingerprints[0].len
}

pub fn all_sizes_match(fingerprints: &Vec<Fingerprint>) -> (r: bool)
    ensures
        r == sizes_match(fingerprints@),
{
    if fingerprints.len() == 0 {
        return false;
    }
    let reference_size = fingerprints[0].len;
    let mut i: usize = 0;
    while i < fingerprints.len()
        invariant
            i <= fingerprints.len(),
            fingerprints.len() > 0,
            reference_size == fingerprints@[0].len,
            forall|j: int| 0 <= j < i ==> (#[trigger] fingerprints@[j]).len == reference_size,
        decreases fingerprints.len() - i,
    {
        if fingerprints[i].len != reference_size {
            return false;
        }
        i = i + 1;
    }
    true
}

/// What the verification of a group of `n` files observed, file by file.
pub struct GroupObservation {
    /// The fingerprints taken before reading, one per file.
    pub before: Seq<Fingerprint>,
    /// For each candidate (index `1..n`), the reference bytes delivered while its
    /// batch was read.
    pub expected: Seq<Seq<u8>>,
    /// For each candidate, its own bytes as delivered.
    pub delivered: Seq<Seq<u8>>,
    /// The fingerprints taken after reading, in file order.
    pub after: Seq<Fingerprint>,
}

/// The group was found identical: all files had the same size, every candidate's
/// bytes equal the reference bytes read alongside them over the whole size, and
/// no file changed during the verification.
pub open spec fn group_identical(n: nat, o: GroupObservation) -> bool {
    &&& n >= 2
    &&& o.before.len() == n
    &&& sizes_match(o.before)
    &&& o.expected.len() == n
    &&& o.delivered.len() == n
    &&& forall|i: int|
        1 <= i < n ==> #[trigger] o.delivered[i] == o.expected[i] && o.delivered[i].len()
            == o.before[0].len
    &&& o.after.len() == n
    &&& forall|i: int| 0 <= i < n ==> #[trigger] o.after[i] == o.before[i]
}

/// The group was found different: fewer than two files, sizes that differ, a
/// candidate byte that differs from the reference byte read alongside it, or a
/// file that changed during the verification.
pub open spec fn group_rejected(n: nat, o: GroupObservation) -> bool {
    ||| n < 2
    ||| (o.before.len() == n && !sizes_match(o.before))
    ||| exists|i: int, k: int|
        1 <= i < n && 0 <= k < o.delivered[i].len() && k < o.expected[i].len() && #[trigger] o.delivered[i][k]
            != #[trigger] o.expected[i][k]
    ||| exists|i: int| 0 <= i < o.after.len() && i < o.before.len() && #[trigger] o.after[i] != o.before[i]
}

/// A group is never both found identical and found different: the verdict of
/// a verification is fixed by what it observed of the files (the sizes, the
/// bytes read and the fingerprints), and the workspace plays no part in it. So
/// verifying several groups with one shared workspace gives each group the
/// verdict a fresh workspace would give it on the same files.
pub proof fn lemma_verdict_follows_observation(n: nat, o: GroupObservation)
    ensures
        !(group_identical(n, o) && group_rejected(n, o)),
{
    if group_identical(n, o) && group_rejected(n, o) {
        if exists|i: int, k: int|
            1 <= i < n && 0 <= k < o.delivered[i].len() && k < o.expected[i].len() && #[trigger] o.delivered[i][k]
                != #[trigger] o.expected[i][k] {
            let (i, k) = choose|i: int, k: int|
                1 <= i < n && 0 <= k < o.delivered[i].len() && k < o.expected[i].len() && #[trigger] o.delivered[i][k]
                    != #[trigger] o.expected[i][k];
            assert(o.delivered[i] == o.expected[i]);
        }
        if exists|i: int| 0 <= i < o.after.len() && i < o.before.len() && #[trigger] o.after[i] != o.before[i] {
            let i = choose|i: int| 0 <= i < o.after.len() && i < o.before.len() && #[trigger] o.after[i] != o.before[i];
            assert(o.after[i] == o.before[i]);
        }
    }
}

/// A group with a candidate whose bytes, as handed back for it, differ at any
/// offset from the reference bytes handed back alongside them is never found
/// identical: it is found different. (`step` records in `delivered` exactly the
/// buffers of the candidate reads and in `expected` those of the reference
/// reads.)
pub proof fn lemma_candidate_difference_rejects(n: nat, o: GroupObservation, i: int, k: int)
    requires
        1 <= i < n,
        0 <= k < o.delivered[i].len(),
        k < o.expected[i].len(),
        o.delivered[i][k] != o.expected[i][k],
    ensures
        !group_identical(n, o),
        group_rejected(n, o),
{
    assert(o.delivered[i][k] != o.expected[i][k]);
}

/// Appends `chunk` to the entries `lo .. hi`.
pub open spec fn append_range(s: Seq<Seq<u8>>, lo: int, hi: int, chunk: Seq<u8>) -> Seq<Seq<u8>> {
    Seq::new(s.len(), |i: int| if lo <= i < hi { s[i] + chunk } else { s[i] })
}

/// Appends `chunk` to the entries of the candidates open in `c`.
pub open spec fn append_to_open(s: Seq<Seq<u8>>, c: FileCursor, chunk: Seq<u8>) -> Seq<Seq<u8>> {
    if c.candidates.len() > 0 {
        append_range(s, c.candidates[0].0 as int, (c.candidates[0].0 + c.candidates.len()) as int, chunk)
    } else {
        s
    }
}

pub enum BatchPhase {
    Before,
    OpeningReference,
    Rewinding,
    OpeningBatch,
    ReadingReference,
    ReadingCandidate,
    After,
    Done,
}

/// The state of the batched exact verification of one group.
pub struct GroupVerifier {
    file_count: usize,
    phase: BatchPhase,
    verdict: bool,
    before: Vec<Fingerprint>,
    after_index: usize,
    reference_size: u64,
    batch_start: usize,
    batch_len: usize,
    remaining: u64,
    amount: usize,
    slot: usize,
    workspace: VerificationWorkspace,
    expected: Ghost<Seq<Seq<u8>>>,
    delivered: Ghost<Seq<Seq<u8>>>,
    after: Ghost<Seq<Fingerprint>>,
    initial_reads: Ghost<(u64, u64)>,
    files: Ghost<FileCursor>,
    reference_total: Ghost<nat>,
    candidate_total: Ghost<nat>,
    batches_done: Ghost<nat>,
}

/// How far the files of a group may be read: the size the reference reported
/// before reading.
pub open spec fn read_limit(before: Seq<Fingerprint>) -> nat {
    if before.len() > 0 { before[0].len as nat } else { 0 }
}

/// Number of batches the candidates of a group of `n` files are read in.
pub open spec fn batch_count(n: nat) -> nat {
    ((n + 14) / 16) as nat
}

/// Counting in two steps saturates like counting at once.
pub proof fn lemma_saturated_twice(a: u64, x: nat, d: nat)
    ensures
        saturated(saturated(a as int, x as int) as int, d as int) == saturated(a as int, (x + d) as int),
{
}

proof fn lemma_mul_distributes(a: int, b: int, c: int)
    by (nonlinear_arith)
    ensures
        a * (b + c) == a * b + a * c,
        (b + c) * a == b * a + c * a,
{
}

proof fn lemma_last_batch(n: int, bd: int, bl: int)
    by (nonlinear_arith)
    requires
        bd >= 0,
        1 <= bl <= 16,
        n == 1 + 16 * bd + bl,
    ensures
        (n + 14) / 16 == bd + 1,
{
}

impl GroupVerifier {
    pub closed spec fn file_count(&self) -> nat {
        self.file_count as nat
    }

    /// Everything observed so far.
    pub closed spec fn observation(&self) -> GroupObservation {
        GroupObservation {
            before: self.before@,
            expected: self.expected@,
            delivered: self.delivered@,
            after: self.after@,
        }
    }

    pub closed spec fn finished(&self) -> Option<bool> {
        if self.phase is Done {
            Some(self.verdict)
        } else {
            None
        }
    }

    /// Where the group's files stand after the operations asked for so far.
    pub closed spec fn files(&self) -> FileCursor {
        self.files@
    }

    /// What the answer to the operation asked for last carries.
    pub closed spec fn pending(&self) -> PendingRead {
        match self.phase {
            BatchPhase::Before => PendingRead::Fingerprint(self.before@.len()),
            BatchPhase::After => PendingRead::Fingerprint(self.after_index as nat),
            BatchPhase::ReadingReference => PendingRead::Reference(self.amount as nat),
            BatchPhase::ReadingCandidate => PendingRead::Candidate(self.slot as nat, self.amount as nat),
            _ => PendingRead::Nothing,
        }
    }

    /// Taking the fingerprints before reading.
    pub closed spec fn collecting_before(&self) -> bool {
        self.phase is Before
    }

    /// Taking the fingerprints after reading.
    pub closed spec fn collecting_after(&self) -> bool {
        self.phase is After
    }

    /// The work left: the fingerprints to take before reading, then the
    /// batches of candidates, within a batch the bytes left and the reads of
    /// the current chunk, then the fingerprints to take after reading.
    pub closed spec fn progress(&self) -> Progress {
        let n = self.file_count as int;
        let batches = (n - self.batch_start) as nat;
        match self.phase {
            BatchPhase::Before => (3, (n - self.before@.len()) as nat, 0, 0, 0),
            BatchPhase::OpeningReference => (2, batches, 3, 0, 0),
            BatchPhase::Rewinding => (2, batches, 2, 0, 0),
            BatchPhase::OpeningBatch => (2, batches, 1, 0, 0),
            BatchPhase::ReadingReference => (2, batches, 0, self.remaining as nat, (self.batch_len + 1) as nat),
            BatchPhase::ReadingCandidate => (
                2,
                batches,
                0,
                self.remaining as nat,
                (self.batch_len - self.slot) as nat,
            ),
            BatchPhase::After => (1, (n - self.after_index) as nat, 0, 0, 0),
            BatchPhase::Done => (0, 0, 0, 0, 0),
        }
    }

    closed spec fn offset(&self) -> int {
        self.reference_size - self.remaining
    }

    closed spec fn in_batch(&self, i: int) -> bool {
        self.batch_start <= i < self.batch_start + self.batch_len
    }

    /// The candidates `1 .. hi` are complete: their bytes equal the reference bytes
    /// read alongside them, over the whole size.
    closed spec fn complete_below(&self, hi: int) -> bool {
        forall|i: int|
            1 <= i < hi ==> #[trigger] self.delivered@[i] == self.expected@[i] && self.delivered@[i].len()
                == self.reference_size
    }

    /// Nothing was read yet for the candidates `lo ..`.
    closed spec fn untouched_from(&self, lo: int) -> bool {
        &&& forall|i: int| lo <= i < self.file_count ==> (#[trigger] self.delivered@[i]).len() == 0
        &&& forall|i: int| lo <= i < self.file_count ==> (#[trigger] self.expected@[i]).len() == 0
    }

    /// Candidates before the current batch are complete; those after it untouched.
    closed spec fn outside_batch_wf(&self) -> bool {
        &&& self.complete_below(self.batch_start as int)
        &&& self.untouched_from(self.batch_start + self.batch_len)
    }

    closed spec fn batch_bounds(&self) -> bool {
        &&& 1 <= self.batch_start < self.file_count
        &&& self.batch_len == if self.file_count - self.batch_start < MAX_CANDIDATES_PER_BATCH {
            (self.file_count - self.batch_start) as usize
        } else {
            MAX_CANDIDATES_PER_BATCH
        }
    }

    closed spec fn sized_wf(&self) -> bool {
        &&& self.before@.len() == self.file_count
        &&& sizes_match(self.before@)
        &&& self.reference_size == self.before@[0].len
        &&& self.expected@.len() == self.file_count
        &&& self.delivered@.len() == self.file_count
    }

    closed spec fn phase_wf(&self) -> bool {
        match self.phase {
            BatchPhase::Before => {
                &&& self.files@ == no_files_open()
                &&& self.before@.len() < self.file_count
                &&& self.expected@ == Seq::new(self.file_count as nat, |i: int| Seq::<u8>::empty())
                &&& self.delivered@ == Seq::new(self.file_count as nat, |i: int| Seq::<u8>::empty())
                &&& self.after@.len() == 0
                &&& self.workspace.buffers_ready()
            },
            BatchPhase::OpeningReference => {
                &&& self.files@.reference == Some(0nat)
                &&& self.sized_wf()
                &&& self.batch_start == 1
                &&& self.batch_len == 0
                &&& self.outside_batch_wf()
                &&& self.after@.len() == 0
                &&& self.workspace.buffers_ready()
            },
            BatchPhase::Rewinding | BatchPhase::OpeningBatch => {
                &&& self.files@.reference == Some(0nat)
                &&& self.phase is OpeningBatch ==> self.files@.candidates == Seq::new(
                    self.batch_len as nat,
                    |k: int| ((self.batch_start + k) as nat, 0nat),
                )
                &&& self.sized_wf()
                &&& self.batch_bounds()
                &&& self.outside_batch_wf()
                &&& forall|i: int|
                    self.in_batch(i) ==> (#[trigger] self.delivered@[i]).len() == 0
                        && self.expected@[i].len() == 0
                &&& self.after@.len() == 0
                &&& self.workspace.buffers_ready()
            },
            BatchPhase::ReadingReference => {
                &&& self.files@.reference == Some((self.offset() + self.amount) as nat)
                &&& self.files@.candidates == Seq::new(
                    self.batch_len as nat,
                    |k: int| ((self.batch_start + k) as nat, self.offset() as nat),
                )
                &&& self.sized_wf()
                &&& self.batch_bounds()
                &&& self.outside_batch_wf()
                &&& 0 < self.remaining <= self.reference_size
                &&& self.amount == chunk_len(self.remaining, VERIFY_BUFFER_SIZE)
                &&& forall|i: int|
                    self.in_batch(i) ==> #[trigger] self.delivered@[i] == self.expected@[i]
                        && self.expected@[i].len() == self.offset()
                &&& self.after@.len() == 0
                &&& self.workspace.candidate_buffer.len() == VERIFY_BUFFER_SIZE
            },
            BatchPhase::ReadingCandidate => {
                &&& self.files@.reference == Some((self.offset() + self.amount) as nat)
                &&& self.files@.candidates == Seq::new(
                    self.batch_len as nat,
                    |k: int|
                        (
                            (self.batch_start + k) as nat,
                            if k <= self.slot { (self.offset() + self.amount) as nat } else { self.offset() as nat },
                        ),
                )
                &&& self.sized_wf()
                &&& self.batch_bounds()
                &&& self.outside_batch_wf()
                &&& 0 < self.remaining <= self.reference_size
                &&& self.amount == chunk_len(self.remaining, VERIFY_BUFFER_SIZE)
                &&& self.slot < self.batch_len
                &&& forall|i: int|
                    self.in_batch(i) ==> (#[trigger] self.expected@[i]).len() == self.offset() + self.amount
                &&& forall|i: int|
                    self.batch_start <= i < self.batch_start + self.slot ==> #[trigger] self.delivered@[i]
                        == self.expected@[i]
                &&& forall|i: int|
                    self.batch_start + self.slot <= i < self.batch_start + self.batch_len
                        ==> #[trigger] self.delivered@[i] == self.expected@[i].take(self.offset())
                        && self.workspace.reference_buffer@.take(self.amount as int)
                        == self.expected@[i].skip(self.offset())
                &&& self.after@.len() == 0
                &&& self.workspace.reference_buffer.len() == VERIFY_BUFFER_SIZE
            },
            BatchPhase::After => {
                &&& self.sized_wf()
                &&& self.batch_start == self.file_count
                &&& self.batch_len == 0
                &&& self.outside_batch_wf()
                &&& self.after_index < self.file_count
                &&& self.after@.len() == self.after_index
                &&& forall|j: int| 0 <= j < self.after_index ==> #[trigger] self.after@[j] == self.before@[j]
                &&& self.workspace.buffers_ready()
            },
            BatchPhase::Done => true,
        }
    }

    /// The counters of the workspace against the bytes requested so far.
    closed spec fn counts_wf(&self) -> bool {
        let size = self.reference_size as int;
        let bd = self.batches_done@ as int;
        let bs = self.batch_start as int;
        let rt = self.reference_total@ as int;
        let ct = self.candidate_total@ as int;
        &&& self.workspace.reference_bytes_read == saturated(self.initial_reads@.0 as int, rt)
        &&& self.workspace.candidate_bytes_read == saturated(self.initial_reads@.1 as int, ct)
        &&& match self.phase {
            BatchPhase::Before | BatchPhase::OpeningReference => rt == 0 && ct == 0 && bd == 0,
            BatchPhase::Rewinding | BatchPhase::OpeningBatch => {
                &&& bs == 1 + 16 * bd
                &&& rt == size * bd
                &&& ct == size * (bs - 1)
            },
            BatchPhase::ReadingReference => {
                &&& bs == 1 + 16 * bd
                &&& rt == size * bd + self.offset()
                &&& ct == size * (bs - 1) + self.batch_len * self.offset()
            },
            BatchPhase::ReadingCandidate => {
                &&& bs == 1 + 16 * bd
                &&& rt == size * bd + self.offset() + self.amount
                &&& ct == size * (bs - 1) + self.batch_len * self.offset() + self.slot * self.amount
            },
            BatchPhase::After => {
                &&& rt == size * batch_count(self.file_count as nat)
                &&& ct == size * (self.file_count - 1)
            },
            BatchPhase::Done => self.verdict ==> {
                &&& self.reference_size == self.before@[0].len
                &&& rt == size * batch_count(self.file_count as nat)
                &&& ct == size * (self.file_count - 1)
            },
        }
    }

    /// The invariant of the verification state.
    pub closed spec fn wf(&self) -> bool {
        &&& self.counts_wf()
        &&& if self.phase is Done {
            &&& self.verdict ==> group_identical(self.file_count as nat, self.observation())
            &&& !self.verdict ==> group_rejected(self.file_count as nat, self.observation())
            &&& self.workspace.buffers_ready()
        } else {
            &&& 2 <= self.file_count
            &&& self.phase_wf()
        }
    }

    /// The counters the workspace had when this verification started.
    pub closed spec fn initial_reads(&self) -> (u64, u64) {
        self.initial_reads@
    }

    /// The event that answers the operation asked for last.
    pub closed spec fn expects(&self, e: VerifyEvent) -> bool {
        match self.phase {
            BatchPhase::Before | BatchPhase::After => e is Fingerprint,
            BatchPhase::OpeningReference | BatchPhase::Rewinding | BatchPhase::OpeningBatch => e is Ready,
            BatchPhase::ReadingReference | BatchPhase::ReadingCandidate => e matches VerifyEvent::Filled(b)
                && b.len() == VERIFY_BUFFER_SIZE,
            BatchPhase::Done => false,
        }
    }

    /// `a` is the operation the verification asks for in its present state.
    pub closed spec fn asks(&self, a: VerifyAction) -> bool {
        match self.phase {
            BatchPhase::Before => a == VerifyAction::ReadFingerprint(self.before@.len() as usize),
            BatchPhase::After => a == VerifyAction::ReadFingerprint(self.after_index),
            BatchPhase::OpeningReference => a is OpenReference,
            BatchPhase::Rewinding => a is RewindReference,
            BatchPhase::OpeningBatch => a == VerifyAction::OpenCandidates {
                first: self.batch_start,
                count: self.batch_len,
            },
            BatchPhase::ReadingReference => a matches VerifyAction::ReadReference { amount, buffer }
                && amount == self.amount && buffer.len() == VERIFY_BUFFER_SIZE,
            BatchPhase::ReadingCandidate => a matches VerifyAction::ReadCandidate { slot, amount, buffer }
                && slot == self.slot && amount == self.amount && buffer.len() == VERIFY_BUFFER_SIZE,
            BatchPhase::Done => a == VerifyAction::Finished(self.verdict),
        }
    }

    /// Handles the fingerprint taken of the next file before reading: once all
    /// are taken, the group goes on only if all sizes match.
    pub fn capture_group_fingerprints(&mut self, fingerprint: Fingerprint) -> (action: VerifyAction)
        requires
            old(self).wf(),
            old(self).collecting_before(),
        ensures
            final(self).wf(),
            final(self).asks(action),
            final(self).file_count() == old(self).file_count(),
            action is Finished || progress_below(final(self).progress(), old(self).progress()),
            final(self).files() == after_action(old(self).files(), action),
            action_fits(old(self).files(), action, read_limit(final(self).observation().before)),
            action matches VerifyAction::Finished(v) ==> !v && group_rejected(
                final(self).file_count(),
                final(self).observation(),
            ),
            final(self).observation() == (GroupObservation {
                before: old(self).observation().before.push(fingerprint),
                ..old(self).observation()
            }),
    {
        self.before.push(fingerprint);
        if self.before.len() < self.file_count {
            return VerifyAction::ReadFingerprint(self.before.len());
        }
        if !all_sizes_match(&self.before) {
            self.phase = BatchPhase::Done;
            self.verdict = false;
            assert(self.observation().before.len() == self.file_count);
            assert(!sizes_match(self.observation().before));
            return VerifyAction::Finished(false);
        }
        self.reference_size = self.before[0].len;
        self.batch_start = 1;
        self.batch_len = 0;
        self.phase = BatchPhase::OpeningReference;
        self.files = Ghost(FileCursor { reference: Some(0), candidates: self.files@.candidates });
        VerifyAction::OpenReference
    }

    /// Handles the fingerprint taken of the next file after reading: the group
    /// is accepted once every file reports what it reported before.
    pub fn group_fingerprints_unchanged(&mut self, fingerprint: Fingerprint) -> (action: VerifyAction)
        requires
            old(self).wf(),
            old(self).collecting_after(),
        ensures
            final(self).wf(),
            final(self).asks(action),
            final(self).file_count() == old(self).file_count(),
            action is Finished || progress_below(final(self).progress(), old(self).progress()),
            final(self).files() == after_action(old(self).files(), action),
            action_fits(old(self).files(), action, read_limit(final(self).observation().before)),
            action matches VerifyAction::Finished(v) ==> (v ==> group_identical(
                final(self).file_count(),
                final(self).observation(),
            )) && (!v ==> group_rejected(final(self).file_count(), final(self).observation())),
            final(self).observation() == (GroupObservation {
                after: old(self).observation().after.push(fingerprint),
                ..old(self).observation()
            }),
    {
        let ghost old_after = self.after@;
        self.after = Ghost(self.after@.push(fingerprint));
        if fingerprint != self.before[self.after_index] {
            self.phase = BatchPhase::Done;
            self.verdict = false;
            assert(self.observation().after[self.after_index as int] != self.observation().before[self.after_index as int]);
            return VerifyAction::Finished(false);
        }
        assert forall|j: int| 0 <= j < self.after_index + 1 implies #[trigger] self.after@[j] == self.before@[j] by {
            if j < self.after_index {
                assert(self.after@[j] == old_after[j]);
            }
        }
        self.after_index = self.after_index + 1;
        if self.after_index < self.file_count {
            VerifyAction::ReadFingerprint(self.after_index)
        } else {
            self.phase = BatchPhase::Done;
            self.verdict = true;
            VerifyAction::Finished(true)
        }
    }

    /// Starts the batch that begins at `batch_start`.
    fn begin_batch(&mut self) -> (action: VerifyAction)
        requires
            1 <= old(self).batch_start < old(self).file_count,
        ensures
            final(self).files@ == after_action(old(self).files@, action),
            final(self).phase is Rewinding,
            final(self).batch_len == if old(self).file_count - old(self).batch_start
                < MAX_CANDIDATES_PER_BATCH {
                (old(self).file_count - old(self).batch_start) as usize
            } else {
                MAX_CANDIDATES_PER_BATCH
            },
            final(self).file_count == old(self).file_count,
            final(self).batch_start == old(self).batch_start,
            final(self).before == old(self).before,
            final(self).reference_size == old(self).reference_size,
            final(self).workspace == old(self).workspace,
            final(self).expected == old(self).expected,
            final(self).delivered == old(self).delivered,
            final(self).after == old(self).after,
            final(self).initial_reads == old(self).initial_reads,
            final(self).reference_total == old(self).reference_total,
            final(self).candidate_total == old(self).candidate_total,
            final(self).batches_done == old(self).batches_done,
            action is RewindReference,
    {
        let left = self.file_count - self.batch_start;
        self.batch_len = if left < MAX_CANDIDATES_PER_BATCH {
            left
        } else {
            MAX_CANDIDATES_PER_BATCH
        };
        self.phase = BatchPhase::Rewinding;
        self.files = Ghost(FileCursor { reference: Some(0), candidates: self.files@.candidates });
        VerifyAction::RewindReference
    }

    /// Hands out the reference buffer for the next chunk of the current batch.
    fn read_reference_chunk(&mut self) -> (action: VerifyAction)
        requires
            old(self).remaining > 0,
            old(self).workspace.reference_buffer.len() == VERIFY_BUFFER_SIZE,
            old(self).files@.reference is Some,
        ensures
            final(self).files@ == after_action(old(self).files@, action),
            final(self).phase is ReadingReference,
            final(self).amount == chunk_len(old(self).remaining, VERIFY_BUFFER_SIZE),
            final(self).file_count == old(self).file_count,
            final(self).batch_start == old(self).batch_start,
            final(self).batch_len == old(self).batch_len,
            final(self).remaining == old(self).remaining,
            final(self).before == old(self).before,
            final(self).reference_size == old(self).reference_size,
            final(self).workspace.candidate_buffer == old(self).workspace.candidate_buffer,
            final(self).workspace.reference_bytes_read == old(self).workspace.reference_bytes_read,
            final(self).workspace.candidate_bytes_read == old(self).workspace.candidate_bytes_read,
            final(self).expected == old(self).expected,
            final(self).delivered == old(self).delivered,
            final(self).after == old(self).after,
            final(self).initial_reads == old(self).initial_reads,
            final(self).reference_total == old(self).reference_total,
            final(self).candidate_total == old(self).candidate_total,
            final(self).batches_done == old(self).batches_done,
            action matches VerifyAction::ReadReference { amount, buffer } && amount == final(self).amount
                && buffer.len() == VERIFY_BUFFER_SIZE,
    {
        self.amount = chunk_amount(self.remaining, VERIFY_BUFFER_SIZE);
        let mut buffer: Vec<u8> = Vec::new();
        core::mem::swap(&mut buffer, &mut self.workspace.reference_buffer);
        self.phase = BatchPhase::ReadingReference;
        self.files = Ghost(
            FileCursor {
                reference: Some((self.files@.reference->0 + self.amount) as nat),
                candidates: self.files@.candidates,
            },
        );
        VerifyAction::ReadReference { amount: self.amount, buffer }
    }

    /// Ends the current batch: starts the next one, or takes the fingerprints
    /// again once every candidate was read.
    fn end_batch(&mut self) -> (action: VerifyAction)
        requires
            old(self).sized_wf(),
            old(self).batch_bounds(),
            old(self).outside_batch_wf(),
            forall|i: int|
                old(self).in_batch(i) ==> #[trigger] old(self).delivered@[i] == old(self).expected@[i]
                    && old(self).expected@[i].len() == old(self).reference_size,
            old(self).after@.len() == 0,
            old(self).workspace.buffers_ready(),
            2 <= old(self).file_count,
            old(self).workspace.reference_bytes_read == saturated(
                old(self).initial_reads@.0 as int,
                old(self).reference_total@ as int,
            ),
            old(self).workspace.candidate_bytes_read == saturated(
                old(self).initial_reads@.1 as int,
                old(self).candidate_total@ as int,
            ),
            old(self).batch_start == 1 + 16 * old(self).batches_done@,
            old(self).reference_total@ == old(self).reference_size * (old(self).batches_done@ + 1),
            old(self).candidate_total@ == old(self).reference_size * (old(self).batch_start
                + old(self).batch_len - 1),
            old(self).files@.reference is Some,
        ensures
            final(self).files@ == after_action(old(self).files@, action),
            action_fits(old(self).files@, action, read_limit(final(self).before@)),
            final(self).observation() == old(self).observation(),
            final(self).wf(),
            final(self).asks(action),
            final(self).file_count == old(self).file_count,
            (final(self).phase is Rewinding && final(self).batch_start == old(self).batch_start
                + old(self).batch_len) || final(self).phase is After,
    {
        let ghost old_start = self.batch_start;
        let ghost old_len = self.batch_len;
        let ghost old_done = self.batches_done@;
        self.batch_start = self.batch_start + self.batch_len;
        self.batches_done = Ghost(self.batches_done@ + 1);
        if self.batch_start >= self.file_count {
            proof {
                lemma_last_batch(self.file_count as int, old_done as int, old_len as int);
            }
        }
        assert forall|i: int| 1 <= i < self.batch_start implies #[trigger] self.delivered@[i] == self.expected@[i]
            && self.delivered@[i].len() == self.reference_size by {
            if i >= old_start {
                assert(old_start <= i < old_start + old_len);
            }
        }
        if self.batch_start < self.file_count {
            let a = self.begin_batch();
            assert(self.sized_wf());
            assert(self.batch_bounds());
            assert(self.outside_batch_wf());
            assert(forall|i: int|
                    self.in_batch(i) ==> (#[trigger] self.delivered@[i]).len() == 0
                        && self.expected@[i].len() == 0);
            assert(self.phase_wf());
            a
        } else {
            self.batch_len = 0;
            self.after_index = 0;
            self.phase = BatchPhase::After;
            assert(self.sized_wf());
            assert(self.batch_start == self.file_count);
            assert(self.outside_batch_wf());
            assert(self.phase_wf());
            VerifyAction::ReadFingerprint(0)
        }
    }

    /// The candidates of the batch are open: reads the first chunk, or ends the
    /// batch at once for empty files.
    fn on_batch_opened(&mut self) -> (action: VerifyAction)
        requires
            old(self).wf(),
            old(self).phase is OpeningBatch,
        ensures
            final(self).observation() == old(self).observation(),
            final(self).wf(),
            final(self).asks(action),
            final(self).file_count() == old(self).file_count(),
            action is Finished || progress_below(final(self).progress(), old(self).progress()),
            final(self).files@ == after_action(old(self).files@, action),
            action_fits(old(self).files@, action, read_limit(final(self).before@)),
            action matches VerifyAction::Finished(v) ==> (v ==> group_identical(
                final(self).file_count(),
                final(self).observation(),
            )) && (!v ==> group_rejected(final(self).file_count(), final(self).observation())),
    {
        self.remaining = self.reference_size;
        if self.remaining > 0 {
            proof {
                assert forall|i: int| self.in_batch(i) implies #[trigger] self.delivered@[i]
                    == self.expected@[i] && self.expected@[i].len() == self.offset() by {
                    assert(self.delivered@[i] =~= self.expected@[i]);
                }
            }
            { let a = self.read_reference_chunk(); assert(self.phase_wf()); a }
        } else {
            proof {
                assert forall|i: int| self.in_batch(i) implies #[trigger] self.delivered@[i]
                    == self.expected@[i] && self.expected@[i].len() == self.reference_size by {
                    assert(self.delivered@[i] =~= self.expected@[i]);
                }
                let size = self.reference_size as int;
                assert(size == 0);
                assert(size * (self.batches_done@ + 1) == 0) by (nonlinear_arith)
                    requires
                        size == 0,
                ;
                assert(size * (self.batch_start + self.batch_len - 1) == 0) by (nonlinear_arith)
                    requires
                        size == 0,
                ;
            }
            self.end_batch()
        }
    }

    /// A reference chunk arrived: hands out the candidate buffer for the first
    /// candidate of the batch.
    fn on_reference_chunk(&mut self, buf: Vec<u8>) -> (action: VerifyAction)
        requires
            old(self).wf(),
            old(self).phase is ReadingReference,
            buf.len() == VERIFY_BUFFER_SIZE,
        ensures
            final(self).observation() == (GroupObservation {
                expected: append_range(
                    old(self).expected@,
                    old(self).batch_start as int,
                    old(self).batch_start + old(self).batch_len,
                    buf@.take(old(self).amount as int),
                ),
                ..old(self).observation()
            }),
            final(self).wf(),
            final(self).asks(action),
            final(self).file_count() == old(self).file_count(),
            action is Finished || progress_below(final(self).progress(), old(self).progress()),
            final(self).files@ == after_action(old(self).files@, action),
            action_fits(old(self).files@, action, read_limit(final(self).before@)),
            action matches VerifyAction::Finished(v) ==> (v ==> group_identical(
                final(self).file_count(),
                final(self).observation(),
            )) && (!v ==> group_rejected(final(self).file_count(), final(self).observation())),
    {
                let ghost off = self.offset();
        let ghost old_expected = self.expected@;
        assert(self.outside_batch_wf());
        assert(forall|i: int|
            self.batch_start + self.batch_len <= i < self.file_count ==> (#[trigger] self.delivered@[i]).len()
                == 0 && old_expected[i].len() == 0);
        self.workspace.reference_buffer = buf;
        self.workspace.record_reference_read(self.amount);
        proof {
            lemma_saturated_twice(self.initial_reads@.0, self.reference_total@, self.amount as nat);
        }
        self.reference_total = Ghost((self.reference_total@ + self.amount) as nat);
        let ghost chunk = self.workspace.reference_buffer@.take(self.amount as int);
        self.expected = Ghost(
            append_range(
                self.expected@,
                self.batch_start as int,
                self.batch_start + self.batch_len,
                chunk,
            ),
        );
        self.slot = 0;
        proof {
            assert forall|i: int| 1 <= i < self.batch_start implies #[trigger] self.delivered@[i]
                == self.expected@[i] && self.delivered@[i].len() == self.reference_size by {
                assert(self.expected@[i] == old_expected[i]);
            }
            assert forall|i: int|
                self.batch_start + self.batch_len <= i < self.file_count implies (
                #[trigger] self.delivered@[i]).len() == 0 && self.expected@[i].len() == 0 by {
                assert(self.expected@[i] == old_expected[i]);
            }
            assert forall|i: int| self.in_batch(i) implies (#[trigger] self.expected@[i]).len()
                == self.offset() + self.amount by {
                assert(self.delivered@[i] == old_expected[i]);
            }
            assert forall|i: int| self.in_batch(i) implies #[trigger] self.delivered@[i]
                == self.expected@[i].take(self.offset()) && self.workspace.reference_buffer@.take(
                self.amount as int,
            ) == self.expected@[i].skip(self.offset()) by {
                assert(self.delivered@[i] == old_expected[i]);
                assert(self.expected@[i] == old_expected[i] + chunk);
                assert(self.expected@[i].take(off) =~= old_expected[i]);
                assert(self.expected@[i].skip(off) =~= chunk);
            }
        }
        let mut buffer: Vec<u8> = Vec::new();
        core::mem::swap(&mut buffer, &mut self.workspace.candidate_buffer);
        self.phase = BatchPhase::ReadingCandidate;
        let ghost c = self.files@.candidates;
        self.files = Ghost(
            FileCursor {
                reference: self.files@.reference,
                candidates: c.update(0, (c[0].0, (c[0].1 + self.amount) as nat)),
            },
        );
        assert(self.files@.candidates =~= Seq::new(
            self.batch_len as nat,
            |k: int|
                (
                    (self.batch_start + k) as nat,
                    if k <= self.slot { (self.offset() + self.amount) as nat } else { self.offset() as nat },
                ),
        ));
        assert(self.sized_wf());
        assert(self.batch_bounds());
        assert(self.outside_batch_wf());
        assert(0 < self.remaining <= self.reference_size);
        assert(self.amount == chunk_len(self.remaining, VERIFY_BUFFER_SIZE));
        assert(self.slot < self.batch_len);
        assert(self.after@.len() == 0);
        assert(self.workspace.reference_buffer.len() == VERIFY_BUFFER_SIZE);
        assert(self.phase_wf());
        VerifyAction::ReadCandidate { slot: 0, amount: self.amount, buffer }
    }

    /// A candidate chunk arrived: compares it with the reference chunk.
    fn on_candidate_chunk(&mut self, buf: Vec<u8>) -> (action: VerifyAction)
        requires
            old(self).wf(),
            old(self).phase is ReadingCandidate,
            buf.len() == VERIFY_BUFFER_SIZE,
        ensures
            final(self).observation() == (GroupObservation {
                delivered: old(self).delivered@.update(
                    old(self).batch_start + old(self).slot,
                    old(self).delivered@[old(self).batch_start + old(self).slot] + buf@.take(
                        old(self).amount as int,
                    ),
                ),
                ..old(self).observation()
            }),
            final(self).wf(),
            final(self).asks(action),
            final(self).file_count() == old(self).file_count(),
            action is Finished || progress_below(final(self).progress(), old(self).progress()),
            final(self).files@ == after_action(old(self).files@, action),
            action_fits(old(self).files@, action, read_limit(final(self).before@)),
            action matches VerifyAction::Finished(v) ==> (v ==> group_identical(
                final(self).file_count(),
                final(self).observation(),
            )) && (!v ==> group_rejected(final(self).file_count(), final(self).observation())),
    {
                let ghost off = self.offset();
        let ghost f = self.batch_start + self.slot;
        let ghost old_delivered = self.delivered@;
        self.workspace.candidate_buffer = buf;
        self.workspace.record_candidate_read(self.amount);
        proof {
            lemma_saturated_twice(self.initial_reads@.1, self.candidate_total@, self.amount as nat);
        }
        let ghost old_slot = self.slot as int;
        self.candidate_total = Ghost((self.candidate_total@ + self.amount) as nat);
        proof {
            lemma_mul_distributes(self.amount as int, old_slot, 1);
        }
        let ghost chunk = self.workspace.candidate_buffer@.take(self.amount as int);
        self.delivered = Ghost(self.delivered@.update(f, self.delivered@[f] + chunk));
        let equal = prefix_equal(
            &self.workspace.reference_buffer,
            &self.workspace.candidate_buffer,
            self.amount,
        );
        if !equal {
            proof {
                let a = self.workspace.reference_buffer@.take(self.amount as int);
                let k = crate::pairwise::lemma_first_difference(a, chunk);
                assert(self.delivered@[f][off + k] == chunk[k]);
                assert(self.expected@[f].skip(off)[k] == a[k]);
                assert(self.expected@[f][off + k] == a[k]);
                assert(self.observation().delivered[f][off + k] != self.observation().expected[f][off
                    + k]);
            }
            self.phase = BatchPhase::Done;
            self.verdict = false;
            return VerifyAction::Finished(false);
        }
        proof {
            assert(self.delivered@[f] =~= self.expected@[f]);
            assert forall|i: int| 1 <= i < self.batch_start implies #[trigger] self.delivered@[i]
                == self.expected@[i] && self.delivered@[i].len() == self.reference_size by {
                assert(self.delivered@[i] == old_delivered[i]);
            }
            assert forall|i: int|
                self.batch_start + self.batch_len <= i < self.file_count implies (
                #[trigger] self.delivered@[i]).len() == 0 && self.expected@[i].len() == 0 by {
                assert(self.delivered@[i] == old_delivered[i]);
            }
        }
        self.slot = self.slot + 1;
        if self.slot < self.batch_len {
            proof {
                assert forall|i: int|
                    self.batch_start <= i < self.batch_start + self.slot implies #[trigger] self.delivered@[i]
                    == self.expected@[i] by {
                    if i != f {
                        assert(self.delivered@[i] == old_delivered[i]);
                    }
                }
                assert forall|i: int|
                    self.batch_start + self.slot <= i < self.batch_start + self.batch_len implies #[trigger] self.delivered@[i]
                    == self.expected@[i].take(self.offset())
                    && self.workspace.reference_buffer@.take(self.amount as int)
                    == self.expected@[i].skip(self.offset()) by {
                    assert(self.delivered@[i] == old_delivered[i]);
                }
            }
            let mut buffer: Vec<u8> = Vec::new();
            core::mem::swap(&mut buffer, &mut self.workspace.candidate_buffer);
            let ghost c = self.files@.candidates;
            let ghost sl = self.slot as int;
            self.files = Ghost(
                FileCursor {
                    reference: self.files@.reference,
                    candidates: c.update(sl, (c[sl].0, (c[sl].1 + self.amount) as nat)),
                },
            );
            assert(self.files@.candidates =~= Seq::new(
                self.batch_len as nat,
                |k: int|
                    (
                        (self.batch_start + k) as nat,
                        if k <= self.slot { (self.offset() + self.amount) as nat } else { self.offset() as nat },
                    ),
            ));
            assert(self.phase_wf());
            return VerifyAction::ReadCandidate { slot: self.slot, amount: self.amount, buffer };
        }
        let ghost old_off = self.offset();
        let ghost old_files = self.files@.candidates;
        assert(old_slot == self.batch_len - 1);
        self.remaining = self.remaining - self.amount as u64;
        assert forall|k: int| 0 <= k < self.batch_len implies #[trigger] old_files[k] == (
            (self.batch_start + k) as nat,
            self.offset() as nat,
        ) by {}
        assert(self.files@.candidates =~= Seq::new(
            self.batch_len as nat,
            |k: int| ((self.batch_start + k) as nat, self.offset() as nat),
        ));
        proof {
            let size = self.reference_size as int;
            let bl = self.batch_len as int;
            lemma_mul_distributes(bl, old_off, self.amount as int);
            lemma_mul_distributes(size, self.batches_done@ as int, 1);
            lemma_mul_distributes(size, self.batch_start - 1, bl);
            assert(bl * size == size * bl) by (nonlinear_arith);
        }
        proof {
            assert forall|i: int| self.in_batch(i) implies #[trigger] self.delivered@[i]
                == self.expected@[i] && self.expected@[i].len() == self.offset() by {
                if i != f {
                    assert(self.delivered@[i] == old_delivered[i]);
                }
            }
        }
        assert(self.sized_wf());
        assert(self.batch_bounds());
        assert(self.outside_batch_wf());
        assert(self.after@.len() == 0);
        assert(self.workspace.candidate_buffer.len() == VERIFY_BUFFER_SIZE);
        if self.remaining > 0 {
            self.read_reference_chunk()
        } else {
            self.end_batch()
        }
    }

    /// Advances the verification by the outcome of the operation asked for last
    /// and returns the next operation.
    pub fn step(&mut self, event: VerifyEvent) -> (action: VerifyAction)
        requires
            old(self).wf(),
            old(self).finished() is None,
            old(self).expects(event),
        ensures
            final(self).pending() == pending_of(action),
            old(self).pending() is Nothing ==> final(self).observation() == old(self).observation(),
            old(self).pending() matches PendingRead::Fingerprint(i) ==> (event matches VerifyEvent::Fingerprint(fp)
                ==> (final(self).observation() == (GroupObservation {
                before: old(self).observation().before.push(fp),
                ..old(self).observation()
            }) && old(self).observation().before.len() == i && i < old(self).file_count()) || (final(self).observation() == (GroupObservation {
                after: old(self).observation().after.push(fp),
                ..old(self).observation()
            }) && old(self).observation().after.len() == i && old(self).observation().before.len()
                == old(self).file_count())),
            old(self).pending() matches PendingRead::Reference(amount) ==> (event matches VerifyEvent::Filled(b)
                ==> final(self).observation() == (GroupObservation {
                expected: append_to_open(
                    old(self).observation().expected,
                    old(self).files(),
                    b@.take(amount as int),
                ),
                ..old(self).observation()
            })),
            old(self).pending() matches PendingRead::Candidate(slot, amount) ==> (event matches VerifyEvent::Filled(
                b,
            ) ==> final(self).observation() == (GroupObservation {
                delivered: old(self).observation().delivered.update(
                    old(self).files().candidates[slot as int].0 as int,
                    old(self).observation().delivered[old(self).files().candidates[slot as int].0 as int]
                        + b@.take(amount as int),
                ),
                ..old(self).observation()
            })),
            final(self).wf(),
            final(self).asks(action),
            final(self).file_count() == old(self).file_count(),
            action is Finished || progress_below(final(self).progress(), old(self).progress()),
            final(self).files() == after_action(old(self).files(), action),
            action_fits(old(self).files(), action, read_limit(final(self).observation().before)),
            action matches VerifyAction::Finished(v) ==> (v ==> group_identical(
                final(self).file_count(),
                final(self).observation(),
            )) && (!v ==> group_rejected(final(self).file_count(), final(self).observation())),
    {
        let ghost f = self.files@;
        let action = self.advance(event);
        proof {
            if old(self).phase is ReadingReference {
                assert(f.candidates[0].0 == old(self).batch_start);
                assert(f.candidates.len() == old(self).batch_len);
            }
            if old(self).phase is ReadingCandidate {
                assert(f.candidates[old(self).slot as int].0 == old(self).batch_start + old(self).slot);
            }
        }
        action
    }

    /// Advances the verification by one event; see `step`.
    fn advance(&mut self, event: VerifyEvent) -> (action: VerifyAction)
        requires
            old(self).wf(),
            old(self).finished() is None,
            old(self).expects(event),
        ensures
            final(self).wf(),
            final(self).asks(action),
            final(self).file_count() == old(self).file_count(),
            action is Finished || progress_below(final(self).progress(), old(self).progress()),
            final(self).files() == after_action(old(self).files(), action),
            action_fits(old(self).files(), action, read_limit(final(self).observation().before)),
            action matches VerifyAction::Finished(v) ==> (v ==> group_identical(
                final(self).file_count(),
                final(self).observation(),
            )) && (!v ==> group_rejected(final(self).file_count(), final(self).observation())),
            old(self).phase is Before ==> (event matches VerifyEvent::Fingerprint(fp) ==> final(self).observation()
                == (GroupObservation { before: old(self).observation().before.push(fp), ..old(self).observation() })),
            old(self).phase is After ==> (event matches VerifyEvent::Fingerprint(fp) ==> final(self).observation()
                == (GroupObservation { after: old(self).observation().after.push(fp), ..old(self).observation() })),
            old(self).phase is ReadingReference ==> (event matches VerifyEvent::Filled(b) ==> final(self).observation()
                == (GroupObservation {
                expected: append_range(
                    old(self).expected@,
                    old(self).batch_start as int,
                    old(self).batch_start + old(self).batch_len,
                    b@.take(old(self).amount as int),
                ),
                ..old(self).observation()
            })),
            old(self).phase is ReadingCandidate ==> (event matches VerifyEvent::Filled(b) ==> final(self).observation()
                == (GroupObservation {
                delivered: old(self).delivered@.update(
                    old(self).batch_start + old(self).slot,
                    old(self).delivered@[old(self).batch_start + old(self).slot] + b@.take(old(self).amount as int),
                ),
                ..old(self).observation()
            })),
            (old(self).phase is OpeningReference || old(self).phase is Rewinding || old(self).phase is OpeningBatch)
                ==> final(self).observation() == old(self).observation(),

    {
        match self.phase {
            BatchPhase::Before => {
                match event {
                    VerifyEvent::Fingerprint(fp) => self.capture_group_fingerprints(fp),
                    _ => {
                        proof {
                            assert(false);
                        }
                        VerifyAction::Finished(false)
                    },
                }
            },
            BatchPhase::After => {
                match event {
                    VerifyEvent::Fingerprint(fp) => self.group_fingerprints_unchanged(fp),
                    _ => {
                        proof {
                            assert(false);
                        }
                        VerifyAction::Finished(false)
                    },
                }
            },
            BatchPhase::OpeningReference => {
                let a = self.begin_batch();
                assert(self.outside_batch_wf());
                a
            },
            BatchPhase::Rewinding => {
                self.phase = BatchPhase::OpeningBatch;
                self.files = Ghost(
                    FileCursor {
                        reference: self.files@.reference,
                        candidates: Seq::new(
                            self.batch_len as nat,
                            |k: int| ((self.batch_start + k) as nat, 0nat),
                        ),
                    },
                );
                VerifyAction::OpenCandidates { first: self.batch_start, count: self.batch_len }
            },
            BatchPhase::OpeningBatch => self.on_batch_opened(),
            BatchPhase::ReadingReference => {
                match event {
                    VerifyEvent::Filled(b) => self.on_reference_chunk(b),
                    _ => {
                        proof {
                            assert(false);
                        }
                        VerifyAction::Finished(false)
                    },
                }
            },
            BatchPhase::ReadingCandidate => {
                match event {
                    VerifyEvent::Filled(b) => self.on_candidate_chunk(b),
                    _ => {
                        proof {
                            assert(false);
                        }
                        VerifyAction::Finished(false)
                    },
                }
            },
            BatchPhase::Done => {
                proof {
                    assert(false);
                }
                VerifyAction::Finished(false)
            },
        }
    }

    /// What an operation asked for requires of the files: indices in range,
    /// batches of at most `MAX_CANDIDATES_PER_BATCH` candidates, reads of a
    /// positive amount that fits the buffer handed out.
    pub proof fn lemma_asks_bounds(&self, a: VerifyAction)
        requires
            self.wf(),
            self.asks(a),
        ensures
            a matches VerifyAction::ReadFingerprint(i) ==> i < self.file_count(),
            a matches VerifyAction::OpenCandidates { first, count } ==> 1 <= first && 1 <= count
                <= MAX_CANDIDATES_PER_BATCH && first + count <= self.file_count(),
            a matches VerifyAction::ReadReference { amount, buffer } ==> 1 <= amount <= buffer.len(),
            a matches VerifyAction::ReadCandidate { slot, amount, buffer } ==> slot
                < MAX_CANDIDATES_PER_BATCH && 1 <= amount <= buffer.len(),
            a matches VerifyAction::Finished(v) ==> self.finished() == Some(v),
    {
    }
}

} // verus!

verus! {

/// What a verification of `n` files has observed before its first step.
pub open spec fn initial_observation(n: nat) -> GroupObservation {
    GroupObservation {
        before: Seq::empty(),
        expected: Seq::new(n, |i: int| Seq::<u8>::empty()),
        delivered: Seq::new(n, |i: int| Seq::<u8>::empty()),
        after: Seq::empty(),
    }
}

/// Starts the exact verification of `group` with the buffers of `workspace`:
/// the group is marked unverified until the verification ends in its favour. A
/// group of fewer than two files is rejected at once.
pub fn verify_group_std(group: &mut DuplicateGroup, workspace: VerificationWorkspace) -> (r: (
    GroupVerifier,
    VerifyAction,
))
    requires
        workspace.buffers_ready(),
    ensures
        final(group).files == old(group).files,
        !final(group).verified,
        r.0.wf(),
        r.0.file_count() == old(group).files.len(),
        r.0.observation() == initial_observation(old(group).files.len() as nat),
        r.0.initial_reads() == (workspace.reference_count(), workspace.candidate_count()),
        r.0.files() == no_files_open(),
        r.0.pending() == pending_of(r.1),
        r.0.asks(r.1),
        old(group).files.len() < 2 ==> r.1 == VerifyAction::Finished(false),
        old(group).files.len() >= 2 ==> r.1 == VerifyAction::ReadFingerprint(0),
{
    group.verified = false;
    let n = group.files.len();
    let initial = (workspace.reference_bytes_read, workspace.candidate_bytes_read);
    let mut v = GroupVerifier {
        file_count: n,
        phase: BatchPhase::Before,
        verdict: false,
        before: Vec::new(),
        after_index: 0,
        reference_size: 0,
        batch_start: 1,
        batch_len: 0,
        remaining: 0,
        amount: 0,
        slot: 0,
        workspace,
        expected: Ghost(Seq::new(n as nat, |i: int| Seq::<u8>::empty())),
        delivered: Ghost(Seq::new(n as nat, |i: int| Seq::<u8>::empty())),
        after: Ghost(Seq::empty()),
        initial_reads: Ghost(initial),
        reference_total: Ghost(0),
        candidate_total: Ghost(0),
        batches_done: Ghost(0),
        files: Ghost(no_files_open()),
    };
    assert(v.observation() =~= initial_observation(n as nat));
    if n < 2 {
        v.phase = BatchPhase::Done;
        (v, VerifyAction::Finished(false))
    } else {
        (v, VerifyAction::ReadFingerprint(0))
    }
}

impl GroupVerifier {
    /// Records the verdict in the group that was verified and gives the
    /// workspace back for the next group.
    pub fn finish(self, group: &mut DuplicateGroup) -> (r: (bool, VerificationWorkspace))
        requires
            self.wf(),
            self.finished() is Some,
            old(group).files.len() == self.file_count(),
        ensures
            Some(r.0) == self.finished(),
            final(group).verified == r.0,
            final(group).files == old(group).files,
            r.0 ==> group_identical(self.file_count(), self.observation()),
            !r.0 ==> group_rejected(self.file_count(), self.observation()),
            r.1.buffers_ready(),
            r.0 ==> r.1.reference_count() == saturated(
                self.initial_reads().0 as int,
                self.observation().before[0].len * batch_count(self.file_count()),
            ),
            r.0 ==> r.1.candidate_count() == saturated(
                self.initial_reads().1 as int,
                self.observation().before[0].len * (self.file_count() - 1),
            ),
    {
        group.verified = self.verdict;
        (self.verdict, self.workspace)
    }
}

/// The verifier kept as the baseline: reusable buffers of `VERIFY_BUFFER_SIZE`
/// bytes and batches of at most `MAX_CANDIDATES_PER_BATCH` candidates.
#[derive(Debug, Default, Clone, Copy)]
pub struct StdBufferedVerifier;

impl StdBufferedVerifier {
    pub fn name(&self) -> (r: &'static str)
        ensures
            r@ == "std-buffered"@,
    {
        "std-buffered"
    }

    /// Starts verifying `group` with fresh buffers.
    pub fn verify_group(&self, group: &mut DuplicateGroup) -> (r: (GroupVerifier, VerifyAction))
        ensures
            final(group).files == old(group).files,
            !final(group).verified,
            r.0.wf(),
            r.0.file_count() == old(group).files.len(),
            r.0.observation() == initial_observation(old(group).files.len() as nat),
            r.0.initial_reads() == (0u64, 0u64),
            r.0.files() == no_files_open(),
            r.0.pending() == pending_of(r.1),
            r.0.asks(r.1),
            old(group).files.len() < 2 ==> r.1 == VerifyAction::Finished(false),
            old(group).files.len() >= 2 ==> r.1 == VerifyAction::ReadFingerprint(0),
    {
        let workspace = VerificationWorkspace::new();
        verify_group_std(group, workspace)
    }

    /// Starts verifying every group of `result` in order; one workspace serves
    /// all of them.
    pub fn verify_result(&self, result: &DuplicateScanResult) -> (r: (
        ResultVerification,
        ResultAction,
        VerificationWorkspace,
    ))
        ensures
            r.0.wf(),
            r.0.group_count() == result.groups.len(),
            r.0.outcomes() == Seq::<bool>::empty(),
            r.0.asks(r.1),
            r.2.buffers_ready(),
            r.2.reference_count() == 0,
            r.2.candidate_count() == 0,
    {
        let (tally, action) = ResultVerification::start(result.groups.len());
        (tally, action, VerificationWorkspace::new())
    }
}

/// Starts verifying `group` with the baseline verifier.
pub fn verify_group(group: &mut DuplicateGroup) -> (r: (GroupVerifier, VerifyAction))
    ensures
        final(group).files == old(group).files,
        !final(group).verified,
        r.0.wf(),
        r.0.file_count() == old(group).files.len(),
        r.0.observation() == initial_observation(old(group).files.len() as nat),
        r.0.initial_reads() == (0u64, 0u64),
        r.0.files() == no_files_open(),
        r.0.pending() == pending_of(r.1),
        r.0.asks(r.1),
        old(group).files.len() < 2 ==> r.1 == VerifyAction::Finished(false),
        old(group).files.len() >= 2 ==> r.1 == VerifyAction::ReadFingerprint(0),
{
    StdBufferedVerifier.verify_group(group)
}

/// Starts verifying every group of `result` with the baseline verifier.
pub fn verify_result(result: &DuplicateScanResult) -> (r: (
    ResultVerification,
    ResultAction,
    VerificationWorkspace,
))
    ensures
        r.0.wf(),
        r.0.group_count() == result.groups.len(),
        r.0.outcomes() == Seq::<bool>::empty(),
        r.0.asks(r.1),
        r.2.buffers_ready(),
        r.2.reference_count() == 0,
        r.2.candidate_count() == 0,
{
    StdBufferedVerifier.verify_result(result)
}

} // verus!

verus! {

/// A measured duration: whole seconds and the nanoseconds beyond them.
#[derive(Clone, Copy, Debug, PartialEq, Eq, Structural)]
pub struct Elapsed {
    pub secs: u64,
    pub nanos: u32,
}

/// Durations compare by seconds, then by nanoseconds.
pub open spec fn elapsed_le(a: Elapsed, b: Elapsed) -> bool {
    a.secs < b.secs || (a.secs == b.secs && a.nanos <= b.nanos)
}

pub open spec fn sorted_elapsed(s: Seq<Elapsed>) -> bool {
    forall|i: int, j: int| 0 <= i <= j < s.len() ==> elapsed_le(#[trigger] s[i], #[trigger] s[j])
}

fn elapsed_leq(a: Elapsed, b: Elapsed) -> (r: bool)
    ensures
        r == elapsed_le(a, b),
{
    a.secs < b.secs || (a.secs == b.secs && a.nanos <= b.nanos)
}

/// The median of a sample: its middle value, or the two values around the middle
/// when the sample has an even number of values (their mean is the median).
#[derive(Clone, Copy, Debug, PartialEq, Eq, Structural)]
pub enum Median {
    Middle(Elapsed),
    Between(Elapsed, Elapsed),
}

/// Sorts `values` ascending.
pub fn sort_elapsed(values: &mut Vec<Elapsed>)
    ensures
        final(values)@.to_multiset() == old(values)@.to_multiset(),
        final(values).len() == old(values).len(),
        sorted_elapsed(final(values)@),
{
    broadcast use vstd::seq_lib::group_to_multiset_ensures;

    let mut sorted: Vec<Elapsed> = Vec::new();
    let mut i: usize = 0;
    while i < values.len()
        invariant
            i <= values.len(),
            sorted@.to_multiset() == values@.take(i as int).to_multiset(),
            sorted_elapsed(sorted@),
        decreases values.len() - i,
    {
        let x = values[i];
        let mut pos: usize = 0;
        while pos < sorted.len() && elapsed_leq(sorted[pos], x)
            invariant
                pos <= sorted.len(),
                forall|k: int| 0 <= k < pos ==> elapsed_le(#[trigger] sorted@[k], x),
            decreases sorted.len() - pos,
        {
            pos = pos + 1;
        }
        let ghost before = sorted@;
        sorted.insert(pos, x);
        proof {
            before.insert_ensures(pos as int, x);
            assert(values@.take(i + 1) =~= values@.take(i as int).push(x));
            vstd::seq_lib::to_multiset_insert(before, pos as int, x);
            vstd::seq_lib::to_multiset_build(values@.take(i as int), x);
            assert forall|a: int, b: int| 0 <= a <= b < sorted@.len() implies elapsed_le(
                #[trigger] sorted@[a],
                #[trigger] sorted@[b],
            ) by {
                if a < pos && b < pos {
                    assert(elapsed_le(before[a], before[b]));
                } else if a < pos && b == pos {
                } else if a < pos {
                    assert(elapsed_le(before[a], before[b - 1]));
                } else if a == pos && b == pos {
                } else if a == pos {
                    assert(!elapsed_le(before[pos as int], x));
                    assert(elapsed_le(before[pos as int], before[b - 1]));
                } else {
                    assert(elapsed_le(before[a - 1], before[b - 1]));
                }
            }
        }
        i = i + 1;
    }
    assert(values@.take(values.len() as int) =~= values@);
    assert(sorted@.len() == sorted@.to_multiset().len());
    assert(values@.len() == values@.to_multiset().len());
    *values = sorted;
}

/// Sorts `values` and returns their median.
pub fn median_duration(values: &mut Vec<Elapsed>) -> (r: Median)
    requires
        old(values).len() > 0,
    ensures
        final(values)@.to_multiset() == old(values)@.to_multiset(),
        sorted_elapsed(final(values)@),
        final(values).len() == old(values).len(),
        final(values).len() % 2 == 1 ==> r == Median::Middle(final(values)@[(final(values).len() / 2) as int]),
        final(values).len() % 2 == 0 ==> r == Median::Between(
            final(values)@[final(values).len() / 2 - 1],
            final(values)@[(final(values).len() / 2) as int],
        ),
{
    broadcast use vstd::seq_lib::group_to_multiset_ensures;

    sort_elapsed(values);
    let middle = values.len() / 2;
    if values.len() % 2 == 1 {
        Median::Middle(values[middle])
    } else {
        Median::Between(values[middle - 1], values[middle])
    }
}

} // verus!
