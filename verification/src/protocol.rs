//! The exchange between a verifier and the code that performs its file operations.
//!
//! A verifier never touches a file itself. Each call of its `step` returns the next
//! operation to perform; the caller performs it on the group's files and hands the
//! outcome back as the next event. An I/O error ends the verification at once: the
//! caller reports it and the group stays unverified.

use vstd::prelude::*;
use crate::types::Fingerprint;

verus! {

/// The next operation a verifier asks for.
#[derive(Debug)]
pub enum VerifyAction {
    /// Read the metadata fingerprint of the group's file with this index.
    ReadFingerprint(usize),
    /// Open the reference file (the group's first file) for reading from its start.
    OpenReference,
    /// Move the open reference file back to its start.
    RewindReference,
    /// Open the group's files `first .. first + count` for reading; they become the
    /// candidate slots `0 .. count`, replacing the candidates opened before.
    OpenCandidates { first: usize, count: usize },
    /// Fill `buffer[..amount]` with the next `amount` bytes of the reference file
    /// and hand the buffer back.
    ReadReference { amount: usize, buffer: Vec<u8> },
    /// Fill `buffer[..amount]` with the next `amount` bytes of the open candidate in
    /// `slot` and hand the buffer back.
    ReadCandidate { slot: usize, amount: usize, buffer: Vec<u8> },
    /// The verification is over, with this verdict.
    Finished(bool),
}

/// The outcome of the operation last asked for.
#[derive(Debug)]
pub enum VerifyEvent {
    /// The fingerprint that was read.
    Fingerprint(Fingerprint),
    /// The file was opened or rewound.
    Ready,
    /// The buffer handed out, now filled up to the requested amount.
    Filled(Vec<u8>),
}

/// Where the files a verification reads stand after the operations it asked
/// for: the read position of the reference file when it is open, and for each
/// open candidate slot the index of its file and its read position.
pub struct FileCursor {
    pub reference: Option<nat>,
    pub candidates: Seq<(nat, nat)>,
}

/// No file is open yet.
pub open spec fn no_files_open() -> FileCursor {
    FileCursor { reference: None, candidates: Seq::empty() }
}

/// Where the files stand once `a` is performed.
pub open spec fn after_action(c: FileCursor, a: VerifyAction) -> FileCursor {
    match a {
        VerifyAction::OpenReference | VerifyAction::RewindReference => FileCursor {
            reference: Some(0),
            candidates: c.candidates,
        },
        VerifyAction::OpenCandidates { first, count } => FileCursor {
            reference: c.reference,
            candidates: Seq::new(count as nat, |k: int| ((first + k) as nat, 0nat)),
        },
        VerifyAction::ReadReference { amount, buffer } => match c.reference {
            Some(p) => FileCursor { reference: Some((p + amount) as nat), candidates: c.candidates },
            None => c,
        },
        VerifyAction::ReadCandidate { slot, amount, buffer } => if slot < c.candidates.len() {
            FileCursor {
                reference: c.reference,
                candidates: c.candidates.update(
                    slot as int,
                    (c.candidates[slot as int].0, (c.candidates[slot as int].1 + amount) as nat),
                ),
            }
        } else {
            c
        },
        _ => c,
    }
}

/// The read an operation asks for, by what its answer will carry.
pub enum PendingRead {
    /// Nothing is read into the observation.
    Nothing,
    /// The fingerprint of the file with this index.
    Fingerprint(nat),
    /// The next this-many bytes of the reference.
    Reference(nat),
    /// The next this-many bytes of the candidate in this slot.
    Candidate(nat, nat),
}

/// The read `a` asks for.
pub open spec fn pending_of(a: VerifyAction) -> PendingRead {
    match a {
        VerifyAction::ReadFingerprint(i) => PendingRead::Fingerprint(i as nat),
        VerifyAction::ReadReference { amount, buffer } => PendingRead::Reference(amount as nat),
        VerifyAction::ReadCandidate { slot, amount, buffer } => PendingRead::Candidate(slot as nat, amount as nat),
        _ => PendingRead::Nothing,
    }
}

/// `a` is performed on files the way a verification needs: the reference is
/// rewound only once open; candidates are opened with the reference at its
/// start; the reference is read only once open, no further than `limit`
/// bytes, and where every open candidate stands; a candidate is read up to
/// where the reference stands. So the reference and the candidates are read
/// side by side, from their starts.
pub open spec fn action_fits(c: FileCursor, a: VerifyAction, limit: nat) -> bool {
    match a {
        VerifyAction::RewindReference => c.reference is Some,
        VerifyAction::OpenCandidates { first, count } => c.reference == Some(0nat),
        VerifyAction::ReadReference { amount, buffer } => c.reference matches Some(p) && p + amount <= limit
            && forall|k: int| 0 <= k < c.candidates.len() ==> (#[trigger] c.candidates[k]).1 == p,
        VerifyAction::ReadCandidate { slot, amount, buffer } => slot < c.candidates.len() && (
        c.reference matches Some(p) && c.candidates[slot as int].1 + amount == p),
        _ => true,
    }
}

/// Size of the next chunk: what remains, but at most one buffer.
pub open spec fn chunk_len(remaining: u64, buffer_size: usize) -> nat {
    if remaining < buffer_size { remaining as nat } else { buffer_size as nat }
}

pub fn chunk_amount(remaining: u64, buffer_size: usize) -> (r: usize)
    ensures
        r == chunk_len(remaining, buffer_size),
{
    if remaining < buffer_size as u64 {
        remaining as usize
    } else {
        buffer_size
    }
}

/// How much work a verification has left, compared lexicographically: the
/// first entry counts the stages left, the later ones the work inside the
/// current stage (files, bytes, reads). No sequence of ever smaller values is
/// infinite, so a verification whose every step lowers it reaches its verdict.
pub type Progress = (nat, nat, nat, nat, nat);

/// `a` is lexicographically below `b`.
pub open spec fn progress_below(a: Progress, b: Progress) -> bool {
    ||| a.0 < b.0
    ||| a.0 == b.0 && a.1 < b.1
    ||| a.0 == b.0 && a.1 == b.1 && a.2 < b.2
    ||| a.0 == b.0 && a.1 == b.1 && a.2 == b.2 && a.3 < b.3
    ||| a.0 == b.0 && a.1 == b.1 && a.2 == b.2 && a.3 == b.3 && a.4 < b.4
}

/// Whether the first `amount` bytes of two buffers are the same.
pub fn prefix_equal(a: &Vec<u8>, b: &Vec<u8>, amount: usize) -> (r: bool)
    requires
        amount <= a.len(),
        amount <= b.len(),
    ensures
        r == (a@.take(amount as int) == b@.take(amount as int)),
{
    let mut i: usize = 0;
    while i < amount
        invariant
            i <= amount <= a.len(),
            amount <= b.len(),
            a@.take(i as int) == b@.take(i as int),
        decreases amount - i,
    {
        if a[i] != b[i] {
            assert(a@.take(amount as int)[i as int] != b@.take(amount as int)[i as int]);
            return false;
        }
        assert(a@.take(i + 1) =~= a@.take(i as int).push(a@[i as int]));
        assert(b@.take(i + 1) =~= b@.take(i as int).push(b@[i as int]));
        i = i + 1;
    }
    true
}

} // verus!

verus! {

/// Number of `true` entries.
pub open spec fn count_true(s: Seq<bool>) -> nat
    decreases s.len(),
{
    if s.len() == 0 {
        0
    } else {
        count_true(s.drop_last()) + if s.last() { 1nat } else { 0nat }
    }
}

/// Counting the verified groups: a verified group adds one to the count,
/// another adds nothing, and when every group was verified all are counted.
pub proof fn lemma_count_true_steps(s: Seq<bool>)
    ensures
        count_true(s.push(true)) == count_true(s) + 1,
        count_true(s.push(false)) == count_true(s),
        (forall|i: int| 0 <= i < s.len() ==> s[i]) ==> count_true(s) == s.len(),
        (forall|i: int| 0 <= i < s.len() ==> !s[i]) ==> count_true(s) == 0,
    decreases s.len(),
{
    assert(s.push(true).drop_last() =~= s);
    assert(s.push(false).drop_last() =~= s);
    if s.len() > 0 {
        lemma_count_true_steps(s.drop_last());
    }
}

pub proof fn lemma_count_true_bound(s: Seq<bool>)
    ensures
        count_true(s) <= s.len(),
    decreases s.len(),
{
    if s.len() > 0 {
        lemma_count_true_bound(s.drop_last());
    }
}

/// The next step of verifying every group of a scan result.
#[derive(Debug)]
pub enum ResultAction {
    /// Verify the group with this index and report its verdict.
    VerifyGroup(usize),
    /// All groups are done; this many were verified.
    Finished(usize),
}

/// Counts the verified groups of a scan result while its groups are verified in order.
pub struct ResultVerification {
    group_count: usize,
    next: usize,
    verified: usize,
    outcomes: Ghost<Seq<bool>>,
}

impl ResultVerification {
    pub closed spec fn group_count(&self) -> nat {
        self.group_count as nat
    }

    /// The verdicts reported so far, in group order.
    pub closed spec fn outcomes(&self) -> Seq<bool> {
        self.outcomes@
    }

    pub closed spec fn wf(&self) -> bool {
        &&& self.next == self.outcomes@.len()
        &&& self.next <= self.group_count
        &&& self.verified == count_true(self.outcomes@)
    }

    /// `a` is the step asked for in the present state.
    pub closed spec fn asks(&self, a: ResultAction) -> bool {
        if self.next < self.group_count {
            a == ResultAction::VerifyGroup(self.next)
        } else {
            a == ResultAction::Finished(self.verified)
        }
    }

    pub closed spec fn finished(&self) -> bool {
        self.next == self.group_count
    }

    /// Starts counting over `group_count` groups.
    pub fn start(group_count: usize) -> (r: (ResultVerification, ResultAction))
        ensures
            r.0.wf(),
            r.0.group_count() == group_count,
            r.0.outcomes() == Seq::<bool>::empty(),
            r.0.asks(r.1),
            group_count == 0 ==> r.1 == ResultAction::Finished(0),
            group_count > 0 ==> r.1 == ResultAction::VerifyGroup(0),
    {
        let t = ResultVerification { group_count, next: 0, verified: 0, outcomes: Ghost(Seq::empty()) };
        let a = if group_count > 0 {
            ResultAction::VerifyGroup(0)
        } else {
            ResultAction::Finished(0)
        };
        (t, a)
    }

    /// Records the verdict of the group asked for and returns the next step.
    pub fn step(&mut self, verified: bool) -> (a: ResultAction)
        requires
            old(self).wf(),
            !old(self).finished(),
        ensures
            final(self).wf(),
            final(self).asks(a),
            final(self).group_count() == old(self).group_count(),
            final(self).outcomes() == old(self).outcomes().push(verified),
            final(self).outcomes().len() <= final(self).group_count(),
            a matches ResultAction::Finished(c) ==> final(self).outcomes().len() == final(self).group_count()
                && c == count_true(final(self).outcomes()),
            a matches ResultAction::VerifyGroup(i) ==> i == old(self).outcomes().len() + 1 && i
                < final(self).group_count(),
    {
        let ghost old_outcomes = self.outcomes@;
        self.outcomes = Ghost(self.outcomes@.push(verified));
        assert(self.outcomes@.drop_last() =~= old_outcomes);
        proof {
            lemma_count_true_bound(self.outcomes@);
        }
        if verified {
            self.verified = self.verified + 1;
        }
        self.next = self.next + 1;
        if self.next < self.group_count {
            ResultAction::VerifyGroup(self.next)
        } else {
            ResultAction::Finished(self.verified)
        }
    }
}

} // verus!
