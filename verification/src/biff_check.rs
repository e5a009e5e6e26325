//! Exact verification of a group with biff's stream comparison: the reference
//! file is compared with each candidate in turn, between a fingerprint of every
//! file taken before and one taken after.

use vstd::prelude::*;
use crate::protocol::{Progress, progress_below};
use crate::types::{DuplicateGroup, Fingerprint};
use crate::verify::{all_sizes_match, sizes_match};

verus! {

/// What biff's comparison of the reference with one candidate answered.
#[derive(Debug)]
pub enum BiffOutcome {
    /// The two streams are identical.
    Identical,
    /// Any other answer but an error: the streams differ.
    Different,
    /// The comparison ended with an error, carrying biff's message.
    Error(String),
}

/// The next operation the biff verification asks for.
#[derive(Debug)]
pub enum BiffAction {
    /// Read the metadata fingerprint of the group's file with this index.
    ReadFingerprint(usize),
    /// Open the reference file (the group's first file).
    OpenReference,
    /// Move the reference file back to its start, open the candidate with this
    /// index and compare the two with biff.
    Compare(usize),
    /// The verification is over, with this verdict.
    Finished(bool),
    /// The verification failed with this error message.
    Failed(String),
}

/// The outcome of the operation asked for last.
#[derive(Debug)]
pub enum BiffEvent {
    Fingerprint(Fingerprint),
    Ready,
    Compared(BiffOutcome),
}

/// The message of a verification whose comparison ended with biff's error `m`.
pub open spec fn comparison_failure(m: Seq<char>) -> Seq<char> {
    "biff comparison failed: "@ + m
}

/// What a biff verification of a group observed.
pub struct BiffObservation {
    /// The fingerprints taken before comparing, one per file.
    pub before: Seq<Fingerprint>,
    /// For each candidate compared so far, whether biff found it identical.
    pub identical: Seq<bool>,
    /// The fingerprints taken after comparing, in file order.
    pub after: Seq<Fingerprint>,
}

/// The group of `n` files was found identical: equal sizes, every candidate
/// identical to the reference, and no file changed meanwhile.
pub open spec fn biff_identical(n: nat, o: BiffObservation) -> bool {
    &&& n >= 2
    &&& o.before.len() == n
    &&& sizes_match(o.before)
    &&& o.identical.len() == n - 1
    &&& forall|i: int| 0 <= i < o.identical.len() ==> #[trigger] o.identical[i]
    &&& o.after == o.before
}

/// The group of `n` files was found different: fewer than two files, sizes
/// that differ, a candidate biff found different (all before it identical), or
/// a file that changed meanwhile.
pub open spec fn biff_rejected(n: nat, o: BiffObservation) -> bool {
    ||| n < 2
    ||| (o.before.len() == n && !sizes_match(o.before))
    ||| (o.identical.len() >= 1 && !o.identical.last() && forall|i: int|
        0 <= i < o.identical.len() - 1 ==> #[trigger] o.identical[i])
    ||| exists|i: int| 0 <= i < o.after.len() && i < o.before.len() && #[trigger] o.after[i] != o.before[i]
}

/// A group is never both found identical and found different: the verdict of
/// a biff verification is fixed by what it observed.
pub proof fn lemma_biff_verdict_follows_observation(n: nat, o: BiffObservation)
    ensures
        !(biff_identical(n, o) && biff_rejected(n, o)),
{
    if biff_identical(n, o) && biff_rejected(n, o) {
        if o.identical.len() >= 1 && !o.identical.last() {
            assert(o.identical[o.identical.len() - 1]);
        }
        if exists|i: int| 0 <= i < o.after.len() && i < o.before.len() && #[trigger] o.after[i] != o.before[i] {
            let i = choose|i: int| 0 <= i < o.after.len() && i < o.before.len() && #[trigger] o.after[i] != o.before[i];
            assert(o.after[i] == o.before[i]);
        }
    }
}

/// A group for which biff answered any comparison with something else than
/// identical is never found identical. (`step` records in `identical[j]`
/// exactly whether biff's answer to `Compare(j + 1)` was `Identical`.)
pub proof fn lemma_biff_difference_rejects(n: nat, o: BiffObservation, j: int)
    requires
        0 <= j < o.identical.len(),
        !o.identical[j],
    ensures
        !biff_identical(n, o),
{
}

pub enum BiffPhase {
    Before,
    OpeningReference,
    Comparing,
    After,
    Done,
    Failed,
}

/// The state of the biff verification of one group.
pub struct BiffCheck {
    file_count: usize,
    phase: BiffPhase,
    verdict: bool,
    before: Vec<Fingerprint>,
    candidate: usize,
    after_index: usize,
    identical: Ghost<Seq<bool>>,
    after: Ghost<Seq<Fingerprint>>,
    reference_open: Ghost<bool>,
}

impl BiffCheck {
    pub closed spec fn file_count(&self) -> nat {
        self.file_count as nat
    }

    pub closed spec fn observation(&self) -> BiffObservation {
        BiffObservation { before: self.before@, identical: self.identical@, after: self.after@ }
    }

    /// The verdict, once the verification has ended with one.
    pub closed spec fn finished(&self) -> Option<bool> {
        if self.phase is Done {
            Some(self.verdict)
        } else {
            None
        }
    }

    /// Whether the reference file was opened: every comparison reads it.
    pub closed spec fn reference_open(&self) -> bool {
        self.reference_open@
    }

    /// The verification ended with an error.
    pub closed spec fn failed(&self) -> bool {
        self.phase is Failed
    }

    /// The work left: the fingerprints to take before comparing, then the
    /// candidates left to compare, then the fingerprints to take after.
    pub closed spec fn progress(&self) -> Progress {
        let n = self.file_count as int;
        match self.phase {
            BiffPhase::Before => (3, (n - self.before@.len()) as nat, 0, 0, 0),
            BiffPhase::OpeningReference => (2, (n - self.candidate) as nat, 1, 0, 0),
            BiffPhase::Comparing => (2, (n - self.candidate) as nat, 0, 0, 0),
            BiffPhase::After => (1, (n - self.after_index) as nat, 0, 0, 0),
            BiffPhase::Done | BiffPhase::Failed => (0, 0, 0, 0, 0),
        }
    }

    /// The invariant of the verification state.
    pub closed spec fn wf(&self) -> bool {
        match self.phase {
            BiffPhase::Before => {
                &&& 2 <= self.file_count
                &&& self.before@.len() < self.file_count
                &&& self.identical@.len() == 0
                &&& self.after@.len() == 0
            },
            BiffPhase::OpeningReference | BiffPhase::Comparing => {
                &&& self.reference_open@
                &&& 2 <= self.file_count
                &&& self.before@.len() == self.file_count
                &&& sizes_match(self.before@)
                &&& 1 <= self.candidate < self.file_count
                &&& self.identical@.len() == self.candidate - 1
                &&& forall|i: int| 0 <= i < self.identical@.len() ==> #[trigger] self.identical@[i]
                &&& self.after@.len() == 0
            },
            BiffPhase::After => {
                &&& 2 <= self.file_count
                &&& self.before@.len() == self.file_count
                &&& sizes_match(self.before@)
                &&& self.identical@.len() == self.file_count - 1
                &&& forall|i: int| 0 <= i < self.identical@.len() ==> #[trigger] self.identical@[i]
                &&& self.after_index < self.file_count
                &&& self.after@.len() == self.after_index
                &&& forall|i: int| 0 <= i < self.after_index ==> #[trigger] self.after@[i] == self.before@[i]
            },
            BiffPhase::Done => {
                &&& self.verdict ==> biff_identical(self.file_count as nat, self.observation())
                &&& !self.verdict ==> biff_rejected(self.file_count as nat, self.observation())
            },
            BiffPhase::Failed => true,
        }
    }

    /// The event that answers the operation asked for last.
    pub closed spec fn expects(&self, e: BiffEvent) -> bool {
        match self.phase {
            BiffPhase::Before | BiffPhase::After => e is Fingerprint,
            BiffPhase::OpeningReference => e is Ready,
            BiffPhase::Comparing => e is Compared,
            BiffPhase::Done | BiffPhase::Failed => false,
        }
    }

    /// `a` is the operation the verification asks for in its present state.
    pub closed spec fn asks(&self, a: BiffAction) -> bool {
        match self.phase {
            BiffPhase::Before => a == BiffAction::ReadFingerprint(self.before@.len() as usize),
            BiffPhase::OpeningReference => a is OpenReference,
            BiffPhase::Comparing => a == BiffAction::Compare(self.candidate),
            BiffPhase::After => a == BiffAction::ReadFingerprint(self.after_index),
            BiffPhase::Done => a == BiffAction::Finished(self.verdict),
            BiffPhase::Failed => a is Failed,
        }
    }

    /// What an operation asked for requires of the files: valid indices, and a
    /// verdict only once the verification has one.
    pub proof fn lemma_asks_bounds(&self, a: BiffAction)
        requires
            self.wf(),
            self.asks(a),
        ensures
            a matches BiffAction::ReadFingerprint(i) ==> i < self.file_count(),
            a matches BiffAction::Compare(i) ==> 1 <= i < self.file_count(),
            a matches BiffAction::Finished(v) ==> self.finished() == Some(v),
            a is Failed ==> self.failed(),
    {
    }

    /// Advances the verification by the outcome of the operation asked for last
    /// and returns the next operation.
    pub fn step(&mut self, event: BiffEvent) -> (action: BiffAction)
        requires
            old(self).wf(),
            old(self).finished() is None,
            !old(self).failed(),
            old(self).expects(event),
        ensures
            final(self).wf(),
            final(self).asks(action),
            final(self).file_count() == old(self).file_count(),
            final(self).observation().before.len() <= final(self).file_count(),
            action is Finished || action is Failed || progress_below(final(self).progress(), old(self).progress()),
            final(self).reference_open() == (old(self).reference_open() || action is OpenReference),
            action is Compare ==> old(self).reference_open(),
            action matches BiffAction::Finished(v) ==> (v ==> biff_identical(
                final(self).file_count(),
                final(self).observation(),
            )) && (!v ==> biff_rejected(final(self).file_count(), final(self).observation())),
            action matches BiffAction::Failed(m) ==> (event matches BiffEvent::Compared(
                BiffOutcome::Error(e),
            ) && m@ == comparison_failure(e@)),
            event matches BiffEvent::Compared(BiffOutcome::Error(_)) ==> action is Failed,
            action matches BiffAction::Compare(i) ==> i == final(self).observation().identical.len() + 1,
            event matches BiffEvent::Compared(o) ==> (!(o is Error) ==> final(self).observation() == (
            BiffObservation {
                identical: old(self).observation().identical.push(o is Identical),
                ..old(self).observation()
            })),
            event is Ready ==> final(self).observation() == old(self).observation(),
            action matches BiffAction::ReadFingerprint(i) ==> (i == final(self).observation().before.len()
                && final(self).observation().identical.len() == 0 && final(self).observation().after.len() == 0)
                || (i == final(self).observation().after.len() && final(self).observation().identical.len()
                == final(self).file_count() - 1),
            event matches BiffEvent::Fingerprint(fp) ==> (old(self).observation().identical.len() == 0
                && old(self).observation().after.len() == 0 && final(self).observation() == (BiffObservation {
                before: old(self).observation().before.push(fp),
                ..old(self).observation()
            })) || (old(self).observation().identical.len() == old(self).file_count() - 1
                && final(self).observation() == (BiffObservation {
                after: old(self).observation().after.push(fp),
                ..old(self).observation()
            })),
    {
        match self.phase {
            BiffPhase::Before => {
                let fp = match event {
                    BiffEvent::Fingerprint(fp) => fp,
                    _ => {
                        proof {
                            assert(false);
                        }
                        return BiffAction::Finished(false);
                    },
                };
                self.before.push(fp);
                if self.before.len() < self.file_count {
                    return BiffAction::ReadFingerprint(self.before.len());
                }
                if !all_sizes_match(&self.before) {
                    self.phase = BiffPhase::Done;
                    self.verdict = false;
                    return BiffAction::Finished(false);
                }
                self.candidate = 1;
                self.phase = BiffPhase::OpeningReference;
                self.reference_open = Ghost(true);
                BiffAction::OpenReference
            },
            BiffPhase::OpeningReference => {
                self.phase = BiffPhase::Comparing;
                BiffAction::Compare(self.candidate)
            },
            BiffPhase::Comparing => {
                let outcome = match event {
                    BiffEvent::Compared(o) => o,
                    _ => {
                        proof {
                            assert(false);
                        }
                        return BiffAction::Finished(false);
                    },
                };
                match outcome {
                    BiffOutcome::Identical => {
                        let ghost old_identical = self.identical@;
                        self.identical = Ghost(self.identical@.push(true));
                        assert forall|i: int| 0 <= i < self.identical@.len() implies #[trigger] self.identical@[i] by {
                            if i < old_identical.len() {
                                assert(self.identical@[i] == old_identical[i]);
                            }
                        }
                        self.candidate = self.candidate + 1;
                        if self.candidate < self.file_count {
                            BiffAction::Compare(self.candidate)
                        } else {
                            self.after_index = 0;
                            self.phase = BiffPhase::After;
                            BiffAction::ReadFingerprint(0)
                        }
                    },
                    BiffOutcome::Different => {
                        let ghost old_identical = self.identical@;
                        self.identical = Ghost(self.identical@.push(false));
                        assert forall|i: int| 0 <= i < self.identical@.len() - 1 implies #[trigger] self.identical@[i] by {
                            assert(self.identical@[i] == old_identical[i]);
                        }
                        self.phase = BiffPhase::Done;
                        self.verdict = false;
                        BiffAction::Finished(false)
                    },
                    BiffOutcome::Error(message) => {
                        let mut m = String::from_str("biff comparison failed: ");
                        m.append(message.as_str());
                        self.phase = BiffPhase::Failed;
                        BiffAction::Failed(m)
                    },
                }
            },
            BiffPhase::After => {
                let fp = match event {
                    BiffEvent::Fingerprint(fp) => fp,
                    _ => {
                        proof {
                            assert(false);
                        }
                        return BiffAction::Finished(false);
                    },
                };
                let ghost old_after = self.after@;
                self.after = Ghost(self.after@.push(fp));
                if fp != self.before[self.after_index] {
                    self.phase = BiffPhase::Done;
                    self.verdict = false;
                    assert(self.observation().after[self.after_index as int]
                        != self.observation().before[self.after_index as int]);
                    return BiffAction::Finished(false);
                }
                assert forall|j: int| 0 <= j < self.after_index + 1 implies #[trigger] self.after@[j]
                    == self.before@[j] by {
                    if j < self.after_index {
                        assert(self.after@[j] == old_after[j]);
                    }
                }
                self.after_index = self.after_index + 1;
                if self.after_index < self.file_count {
                    BiffAction::ReadFingerprint(self.after_index)
                } else {
                    self.phase = BiffPhase::Done;
                    self.verdict = true;
                    assert(self.after@ =~= self.before@);
                    BiffAction::Finished(true)
                }
            },
            _ => {
                proof {
                    assert(false);
                }
                BiffAction::Finished(false)
            },
        }
    }

    /// Records the verdict in the group that was verified.
    pub fn finish(&self, group: &mut DuplicateGroup) -> (verified: bool)
        requires
            self.wf(),
            self.finished() is Some,
            old(group).files.len() == self.file_count(),
        ensures
            Some(verified) == self.finished(),
            final(group).verified == verified,
            final(group).files == old(group).files,
            verified ==> biff_identical(final(group).files.len() as nat, self.observation()),
            !verified ==> biff_rejected(final(group).files.len() as nat, self.observation()),
    {
        group.verified = self.verdict;
        self.verdict
    }
}

/// The verifier that compares files with biff.
pub struct BiffVerifier;

impl BiffVerifier {
    pub fn name(&self) -> (r: &'static str)
        ensures
            r@ == "biff"@,
    {
        "biff"
    }

    /// Starts the biff verification of `group`: the group is marked unverified
    /// until the verification ends in its favour. A group of fewer than two
    /// files is rejected at once.
    pub fn verify_group(&self, group: &mut DuplicateGroup) -> (r: (BiffCheck, BiffAction))
        ensures
            final(group).files == old(group).files,
            !final(group).verified,
            r.0.wf(),
            r.0.file_count() == old(group).files.len(),
            r.0.observation().before.len() == 0,
            r.0.observation().identical.len() == 0,
            r.0.observation().after.len() == 0,
            !r.0.reference_open(),
            r.0.asks(r.1),
            old(group).files.len() < 2 ==> r.1 == BiffAction::Finished(false),
            old(group).files.len() >= 2 ==> r.1 == BiffAction::ReadFingerprint(0),
    {
        group.verified = false;
        let n = group.files.len();
        let mut c = BiffCheck {
            file_count: n,
            phase: BiffPhase::Before,
            verdict: false,
            before: Vec::new(),
            candidate: 1,
            after_index: 0,
            identical: Ghost(Seq::empty()),
            after: Ghost(Seq::empty()),
            reference_open: Ghost(false),
        };
        if n < 2 {
            c.phase = BiffPhase::Done;
            (c, BiffAction::Finished(false))
        } else {
            (c, BiffAction::ReadFingerprint(0))
        }
    }
}

} // verus!
