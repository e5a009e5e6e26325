use std::path::PathBuf;

use duplicate_engine::biff_check::{BiffAction, BiffEvent, BiffOutcome, BiffVerifier};
use duplicate_engine::pairwise;
use duplicate_engine::protocol::{ResultAction, ResultVerification, VerifyAction, VerifyEvent};
use duplicate_engine::types::{DuplicateFile, DuplicateGroup, Fingerprint};
use duplicate_engine::verify::{
    verify_group, verify_group_std, GroupVerifier, StdBufferedVerifier, VerificationWorkspace,
    MAX_CANDIDATES_PER_BATCH, VERIFY_BUFFER_SIZE,
};

fn fingerprint(bytes: &[u8]) -> Fingerprint {
    Fingerprint { len: bytes.len() as u64, modified: None }
}

fn group_of(files: &[Vec<u8>]) -> DuplicateGroup {
    DuplicateGroup::new(
        files
            .iter()
            .enumerate()
            .map(|(i, bytes)| DuplicateFile::from_path(PathBuf::from(format!("file-{i}.bin")), fingerprint(bytes)))
            .collect(),
    )
}

/// Performs the operations a verifier asks for on in-memory files, until it
/// gives its verdict; `changed` replaces the fingerprints read after the
/// contents were compared.
fn run_protocol(
    files: &[Vec<u8>],
    mut action: VerifyAction,
    mut step: impl FnMut(VerifyEvent) -> VerifyAction,
    changed: Option<(usize, usize, Fingerprint)>,
) -> bool {
    let mut reference_pos = 0usize;
    let mut slots: Vec<(usize, usize)> = Vec::new();
    let mut fingerprints_read = vec![0usize; files.len()];
    loop {
        let event = match action {
            VerifyAction::ReadFingerprint(i) => {
                fingerprints_read[i] += 1;
                match changed {
                    Some((c, from_read, fp)) if c == i && fingerprints_read[i] >= from_read => VerifyEvent::Fingerprint(fp),
                    _ => VerifyEvent::Fingerprint(fingerprint(&files[i])),
                }
            }
            VerifyAction::OpenReference | VerifyAction::RewindReference => {
                reference_pos = 0;
                VerifyEvent::Ready
            }
            VerifyAction::OpenCandidates { first, count } => {
                slots = (first..first + count).map(|i| (i, 0)).collect();
                VerifyEvent::Ready
            }
            VerifyAction::ReadReference { amount, mut buffer } => {
                buffer[..amount].copy_from_slice(&files[0][reference_pos..reference_pos + amount]);
                reference_pos += amount;
                VerifyEvent::Filled(buffer)
            }
            VerifyAction::ReadCandidate { slot, amount, mut buffer } => {
                let (index, pos) = slots[slot];
                buffer[..amount].copy_from_slice(&files[index][pos..pos + amount]);
                slots[slot].1 += amount;
                VerifyEvent::Filled(buffer)
            }
            VerifyAction::Finished(verdict) => return verdict,
        };
        action = step(event);
    }
}

fn run_std(files: &[Vec<u8>], verifier: GroupVerifier, action: VerifyAction, group: &mut DuplicateGroup) -> (bool, VerificationWorkspace) {
    run_std_changing(files, verifier, action, group, None)
}

fn run_std_changing(
    files: &[Vec<u8>],
    mut verifier: GroupVerifier,
    action: VerifyAction,
    group: &mut DuplicateGroup,
    changed: Option<(usize, usize, Fingerprint)>,
) -> (bool, VerificationWorkspace) {
    let verdict = run_protocol(files, action, |event| verifier.step(event), changed);
    let (recorded, workspace) = verifier.finish(group);
    assert_eq!(recorded, verdict);
    (recorded, workspace)
}

fn run_pairwise(files: &[Vec<u8>], group: &mut DuplicateGroup) -> bool {
    run_pairwise_changing(files, group, None)
}

fn run_pairwise_changing(files: &[Vec<u8>], group: &mut DuplicateGroup, changed: Option<(usize, usize, Fingerprint)>) -> bool {
    let (mut verifier, action) = pairwise::verify_group(group);
    let verdict = run_protocol(files, action, |event| verifier.step(event), changed);
    let recorded = verifier.finish(group);
    assert_eq!(recorded, verdict);
    recorded
}

fn run_biff(files: &[Vec<u8>], group: &mut DuplicateGroup) -> Result<bool, String> {
    let (mut check, mut action) = BiffVerifier.verify_group(group);
    loop {
        let event = match action {
            BiffAction::ReadFingerprint(i) => BiffEvent::Fingerprint(fingerprint(&files[i])),
            BiffAction::OpenReference => BiffEvent::Ready,
            BiffAction::Compare(i) => {
                let options = biff::ComparisonOptions::default();
                match biff::compare(&files[0][..], &files[i][..], &options) {
                    biff::ComparisonResult::Identical => BiffEvent::Compared(BiffOutcome::Identical),
                    biff::ComparisonResult::Error(message) => BiffEvent::Compared(BiffOutcome::Error(message)),
                    _ => BiffEvent::Compared(BiffOutcome::Different),
                }
            }
            BiffAction::Finished(_) => break,
            BiffAction::Failed(message) => return Err(message),
        };
        action = check.step(event);
    }
    Ok(check.finish(group))
}

#[test]
fn exact_verifier_accepts_identical_files() {
    let data = vec![0x5A; 128 * 1024];
    let files = vec![data.clone(), data];
    let mut group = group_of(&files);
    let (verifier, action) = verify_group(&mut group);
    let (identical, _) = run_std(&files, verifier, action, &mut group);
    assert!(identical);
    assert!(group.verified);
}

#[test]
fn exact_verifier_rejects_same_edges_but_different_middle() {
    let mut left = vec![b'A'; 64 * 1024];
    let mut right = left.clone();
    left[32 * 1024] = b'B';
    right[32 * 1024] = b'X';
    let files = vec![left, right];
    let mut group = group_of(&files);
    let (verifier, action) = verify_group(&mut group);
    let (identical, _) = run_std(&files, verifier, action, &mut group);
    let rejected = !identical && !group.verified;
    assert!(rejected);
    assert!(!identical);
    assert!(!group.verified);
}

#[test]
fn mod_exact_verifier_accepts_identical_files() {
    let data = vec![0x5A; 128 * 1024];
    let files = vec![data.clone(), data];
    let mut group = group_of(&files);
    assert!(run_pairwise(&files, &mut group));
    assert!(group.verified);
}

#[test]
fn mod_exact_verifier_rejects_same_edges_but_different_middle() {
    let mut left = vec![b'A'; 64 * 1024];
    let mut right = left.clone();
    left[32 * 1024] = b'B';
    right[32 * 1024] = b'X';
    let files = vec![left, right];
    let mut group = group_of(&files);
    assert!(!run_pairwise(&files, &mut group));
    assert!(!group.verified);
}

#[test]
fn optimized_verifier_reads_reference_once_for_normal_group() {
    let size = VERIFY_BUFFER_SIZE + 257;
    let data = vec![0xA5; size];
    let files: Vec<Vec<u8>> = (0..6).map(|_| data.clone()).collect();
    let mut group = group_of(&files);
    let workspace = VerificationWorkspace::new();
    let (verifier, action) = verify_group_std(&mut group, workspace);
    let (verified, workspace) = run_std(&files, verifier, action, &mut group);
    assert!(verified);
    assert!(group.verified);
    assert_eq!(workspace.reference_bytes_read(), size as u64);
    assert_eq!(workspace.candidate_bytes_read(), (size as u64) * 5);
}

#[test]
fn optimized_verifier_batches_very_large_groups() {
    let size = 64 * 1024 + 13;
    let data = vec![0x6D; size];
    let files: Vec<Vec<u8>> = (0..18).map(|_| data.clone()).collect();
    let mut group = group_of(&files);
    let workspace = VerificationWorkspace::new();
    let (verifier, action) = verify_group_std(&mut group, workspace);
    let (verified, workspace) = run_std(&files, verifier, action, &mut group);
    assert!(verified);
    assert!(group.verified);
    assert_eq!(workspace.reference_bytes_read(), (size as u64) * 2);
    assert_eq!(workspace.candidate_bytes_read(), (size as u64) * 17);
}

#[test]
fn optimized_verifier_rejects_difference_in_late_chunk() {
    let size = VERIFY_BUFFER_SIZE + 4096;
    let reference = vec![0x3C; size];
    let mut different = reference.clone();
    different[size - 17] ^= 0xFF;
    let files = vec![reference.clone(), reference, different];
    let mut group = group_of(&files);
    let workspace = VerificationWorkspace::new();
    let (verifier, action) = verify_group_std(&mut group, workspace);
    let (verified, _) = run_std(&files, verifier, action, &mut group);
    assert!(!verified);
    assert!(!group.verified);
}

#[test]
fn biff_verifier_matches_std_for_identical_and_different_files() {
    let identical = vec![0x47; 512 * 1024 + 19];
    let mut different = identical.clone();
    different[300_001] ^= 0x7F;

    let equal_files = vec![identical.clone(), identical.clone()];
    let mut std_equal = group_of(&equal_files);
    let mut biff_equal = std_equal.clone();
    let (verifier, action) = StdBufferedVerifier.verify_group(&mut std_equal);
    assert!(run_std(&equal_files, verifier, action, &mut std_equal).0);
    assert!(run_biff(&equal_files, &mut biff_equal).expect("biff equal"));

    let different_files = vec![identical, different];
    let mut std_different = group_of(&different_files);
    let mut biff_different = std_different.clone();
    let (verifier, action) = StdBufferedVerifier.verify_group(&mut std_different);
    assert!(!run_std(&different_files, verifier, action, &mut std_different).0);
    assert!(!run_biff(&different_files, &mut biff_different).expect("biff different"));
}

#[test]
fn groups_of_fewer_than_two_files_are_rejected_at_once() {
    let files = vec![vec![1u8, 2, 3]];
    let mut group = group_of(&files);
    group.verified = true;
    let (verifier, action) = verify_group(&mut group);
    assert!(matches!(action, VerifyAction::Finished(false)));
    let (verified, _) = run_std(&files, verifier, action, &mut group);
    assert!(!verified);
    assert!(!group.verified);

    let mut group = group_of(&files);
    assert!(!run_pairwise(&files, &mut group));
    let mut group = group_of(&files);
    assert_eq!(run_biff(&files, &mut group), Ok(false));
    assert!(!group.verified);
}

#[test]
fn different_sizes_are_rejected_before_reading() {
    let files = vec![vec![7u8; 100], vec![7u8; 101]];
    let mut group = group_of(&files);
    let (verifier, action) = verify_group(&mut group);
    let (verified, workspace) = run_std(&files, verifier, action, &mut group);
    assert!(!verified);
    assert_eq!(workspace.reference_bytes_read(), 0);
    assert_eq!(workspace.candidate_bytes_read(), 0);
    let mut group = group_of(&files);
    assert!(!run_pairwise(&files, &mut group));
    let mut group = group_of(&files);
    assert_eq!(run_biff(&files, &mut group), Ok(false));
}

#[test]
fn a_file_changed_during_verification_is_rejected() {
    let data = vec![9u8; 4096];
    let files = vec![data.clone(), data.clone(), data];
    let mut group = group_of(&files);
    let (verifier, action) = verify_group(&mut group);
    let changed = Fingerprint { len: 4096, modified: Some(duplicate_engine::types::FileTime { after_epoch: true, secs: 5, nanos: 0 }) };
    let (verified, _) = run_std_changing(&files, verifier, action, &mut group, Some((2, 2, changed)));
    assert!(!verified);
    assert!(!group.verified);
}

#[test]
fn empty_files_of_a_group_are_identical() {
    let files = vec![Vec::new(), Vec::new(), Vec::new()];
    let mut group = group_of(&files);
    let (verifier, action) = verify_group(&mut group);
    let (verified, workspace) = run_std(&files, verifier, action, &mut group);
    assert!(verified);
    assert_eq!(workspace.reference_bytes_read(), 0);
    let mut group = group_of(&files);
    assert!(run_pairwise(&files, &mut group));
}

#[test]
fn every_batch_of_candidates_rereads_the_reference() {
    // 1 reference and 2 * MAX_CANDIDATES_PER_BATCH + 1 candidates: three batches.
    let size = 1000;
    let n = 2 * MAX_CANDIDATES_PER_BATCH + 2;
    let files: Vec<Vec<u8>> = (0..n).map(|_| vec![0x11; size]).collect();
    let mut group = group_of(&files);
    let (verifier, action) = verify_group(&mut group);
    let (verified, workspace) = run_std(&files, verifier, action, &mut group);
    assert!(verified);
    assert_eq!(workspace.reference_bytes_read(), 3 * size as u64);
    assert_eq!(workspace.candidate_bytes_read(), (n as u64 - 1) * size as u64);
}

#[test]
fn workspace_counters_saturate() {
    let mut workspace = VerificationWorkspace::new();
    workspace.record_reference_read(usize::MAX);
    workspace.record_reference_read(usize::MAX);
    workspace.record_candidate_read(10);
    assert_eq!(workspace.reference_bytes_read(), u64::MAX);
    assert_eq!(workspace.candidate_bytes_read(), 10);
}

#[test]
fn result_verification_counts_verified_groups() {
    let (mut tally, mut action) = ResultVerification::start(3);
    let outcomes = [true, false, true];
    let mut asked = Vec::new();
    let count = loop {
        match action {
            ResultAction::VerifyGroup(i) => {
                asked.push(i);
                action = tally.step(outcomes[i]);
            }
            ResultAction::Finished(count) => break count,
        }
    };
    assert_eq!(asked, vec![0, 1, 2]);
    assert_eq!(count, 2);
}

#[test]
fn verifier_names() {
    assert_eq!(StdBufferedVerifier.name(), "std-buffered");
    assert_eq!(BiffVerifier.name(), "biff");
}

#[test]
fn biff_comparison_error_becomes_failure_message() {
    let files = vec![vec![1u8; 10], vec![1u8; 10]];
    let mut group = group_of(&files);
    let (mut check, action) = BiffVerifier.verify_group(&mut group);
    assert!(matches!(action, BiffAction::ReadFingerprint(0)));
    let action = check.step(BiffEvent::Fingerprint(fingerprint(&files[0])));
    assert!(matches!(action, BiffAction::ReadFingerprint(1)));
    let action = check.step(BiffEvent::Fingerprint(fingerprint(&files[1])));
    assert!(matches!(action, BiffAction::OpenReference));
    let action = check.step(BiffEvent::Ready);
    assert!(matches!(action, BiffAction::Compare(1)));
    let action = check.step(BiffEvent::Compared(BiffOutcome::Error("disk gone".to_string())));
    match action {
        BiffAction::Failed(message) => assert_eq!(message, "biff comparison failed: disk gone"),
        _ => panic!("expected a failure"),
    }
    assert!(!group.verified);
}

#[test]
fn pairwise_rejects_a_candidate_changed_after_its_pair() {
    let data = vec![3u8; 5000];
    let files = vec![data.clone(), data.clone(), data];
    let changed = Fingerprint { len: 5000, modified: Some(duplicate_engine::types::FileTime { after_epoch: true, secs: 9, nanos: 0 }) };
    // Candidate 1 is fingerprinted before and after its own pair; the third
    // reading is the one taken once every pair is done.
    let mut group = group_of(&files);
    assert!(!run_pairwise_changing(&files, &mut group, Some((1, 3, changed))));
    assert!(!group.verified);
    let mut group = group_of(&files);
    assert!(run_pairwise_changing(&files, &mut group, None));
    assert!(group.verified);
}
