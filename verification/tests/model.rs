use std::path::PathBuf;
use std::time::Duration;

use duplicate_engine::compare::{compare_results, normalized_groups, path_key, sort_paths, ComponentKind, PathGroup, PathKey};
use duplicate_engine::engines::{CzkawkaEngine, FclonesEngine, FoundFile, HashKind};
use duplicate_engine::listing::CheckMethod;
use duplicate_engine::order::{compare_paths, Order};
use duplicate_engine::types::{
    modified_unix_seconds, DuplicateEngineError, DuplicateFile, DuplicateGroup, DuplicateScanRequest,
    DuplicateScanResult, FileTime, Fingerprint,
};
use duplicate_engine::verify::{median_duration, Elapsed, Median};

/// A relative path of plain names, as the comparison keys it.
fn key(path: &str) -> PathKey {
    path.split('/')
        .map(|name| {
            let mut component = vec![4u8];
            component.extend_from_slice(name.as_bytes());
            component
        })
        .collect()
}

fn group(paths: &[&str]) -> PathGroup {
    paths.iter().map(|p| key(p)).collect()
}

fn file(name: &str, size: u64) -> DuplicateFile {
    DuplicateFile::from_path(PathBuf::from(name), Fingerprint { len: size, modified: None })
}

#[test]
fn request_for_paths_defaults() {
    let request = DuplicateScanRequest::for_paths(vec![PathBuf::from("/data")]);
    assert_eq!(request.paths, vec![PathBuf::from("/data")]);
    assert!(request.recursive);
    assert_eq!(request.min_size, 1);
    assert_eq!(request.max_size, None);
    assert!(!request.use_cache);
    assert!(!request.one_file_system);
    assert!(request.validate().is_ok());
}

#[test]
fn request_without_paths_is_rejected() {
    let request = DuplicateScanRequest::for_paths(Vec::new());
    match request.validate() {
        Err(DuplicateEngineError::Configuration(m)) => assert_eq!(m, "no input paths supplied"),
        other => panic!("unexpected {other:?}"),
    }
}

#[test]
fn request_with_inverted_bounds_is_rejected() {
    let mut request = DuplicateScanRequest::for_paths(vec![PathBuf::from("a")]);
    request.min_size = 100;
    request.max_size = Some(99);
    match request.validate() {
        Err(e) => {
            assert!(matches!(e, DuplicateEngineError::Configuration(_)));
            assert_eq!(
                e.message(),
                "invalid duplicate-engine configuration: max_size (99) is smaller than min_size (100)"
            );
        }
        Ok(()) => panic!("inverted bounds accepted"),
    }
    request.max_size = Some(100);
    assert!(request.validate().is_ok());
}

#[test]
fn engine_error_messages() {
    let e = DuplicateEngineError::engine("fclones", "boom".to_string());
    assert_eq!(e.message(), "fclones duplicate engine failed: boom");
    let io = DuplicateEngineError::from(std::io::Error::other("no disk"));
    assert_eq!(io.message(), "duplicate-engine I/O error: no disk");
}

#[test]
fn file_entries_and_modification_times() {
    let after = Fingerprint { len: 12, modified: Some(FileTime { after_epoch: true, secs: 1_700_000_000, nanos: 5 }) };
    let f = DuplicateFile::from_path(PathBuf::from("x"), after);
    assert_eq!(f.size, 12);
    assert_eq!(f.modified_date, 1_700_000_000);
    assert_eq!(modified_unix_seconds(Some(FileTime { after_epoch: false, secs: 30, nanos: 0 })), 0);
    assert_eq!(modified_unix_seconds(None), 0);
    let g = DuplicateGroup::new(vec![f.clone(), file("y", 12)]);
    assert!(!g.verified);
    assert_eq!(g.files.len(), 2);
}

#[test]
fn result_counts_files_over_groups() {
    let result = DuplicateScanResult {
        engine: "czkawka",
        groups: vec![
            DuplicateGroup::new(vec![file("a", 1), file("b", 1)]),
            DuplicateGroup::new(vec![file("c", 2), file("d", 2), file("e", 2)]),
        ],
        elapsed: Duration::from_millis(3),
    };
    assert_eq!(result.file_count(), 5);
}

#[test]
fn czkawka_settings_follow_the_request() {
    let mut request = DuplicateScanRequest::for_paths(vec![PathBuf::from("a"), PathBuf::from("b")]);
    request.recursive = false;
    request.min_size = 10;
    request.use_cache = true;
    request.one_file_system = true;
    let engine = CzkawkaEngine;
    assert_eq!(engine.name(), "czkawka");
    let s = engine.settings(&request).expect("valid request");
    assert_eq!(s.check_method, CheckMethod::Hash);
    assert_eq!(s.hash_type, HashKind::Blake3);
    assert!(s.use_prehash);
    assert_eq!(s.minimal_cache_file_size, 0);
    assert_eq!(s.minimal_prehash_cache_file_size, 0);
    assert!(s.case_sensitive_name_comparison);
    assert_eq!(s.included_paths, request.paths);
    assert!(!s.recursive_search);
    assert_eq!(s.minimal_file_size, 10);
    assert_eq!(s.maximal_file_size, u64::MAX);
    assert!(s.exclude_other_filesystems);
    assert!(s.hide_hard_links);
    assert!(s.use_cache);

    request.max_size = Some(500);
    assert_eq!(engine.settings(&request).expect("valid").maximal_file_size, 500);
    request.paths.clear();
    assert!(matches!(engine.settings(&request), Err(DuplicateEngineError::Configuration(_))));
}

#[test]
fn fclones_settings_follow_the_request() {
    let mut request = DuplicateScanRequest::for_paths(vec![PathBuf::from("a")]);
    let engine = FclonesEngine;
    assert_eq!(engine.name(), "fclones");
    let s = engine.settings(&request).expect("valid request");
    assert_eq!(s.paths, request.paths);
    assert_eq!(s.depth, None);
    assert!(s.hidden);
    assert!(s.no_ignore);
    assert_eq!(s.min_size, 1);
    assert_eq!(s.max_size, None);
    assert!(!s.cache);
    assert!(!s.one_fs);
    assert!(!s.match_links);
    assert!(!s.skip_content_hash);

    request.recursive = false;
    request.max_size = Some(7);
    request.min_size = 2;
    let s = engine.settings(&request).expect("valid request");
    assert_eq!(s.depth, Some(1));
    assert_eq!(s.max_size, Some(7));
    request.min_size = 8;
    assert!(engine.settings(&request).is_err());
}

#[test]
fn czkawka_result_wraps_found_groups() {
    let engine = CzkawkaEngine;
    let found = vec![vec![file("a", 4), file("b", 4)], vec![file("c", 9), file("d", 9)]];
    let result = engine.scan_result(found.clone(), Duration::from_secs(2));
    assert_eq!(result.engine, "czkawka");
    assert_eq!(result.elapsed, Duration::from_secs(2));
    assert_eq!(result.groups.len(), 2);
    for (g, files) in result.groups.iter().zip(found) {
        assert!(!g.verified);
        assert_eq!(g.files, files);
    }
}

#[test]
fn fclones_result_reads_modification_times() {
    let engine = FclonesEngine;
    let found = vec![vec![
        FoundFile {
            path: PathBuf::from("p"),
            len: 3,
            metadata: Some(Fingerprint { len: 3, modified: Some(FileTime { after_epoch: true, secs: 77, nanos: 1 }) }),
        },
        FoundFile { path: PathBuf::from("q"), len: 3, metadata: None },
    ]];
    let result = engine.scan_result(Ok(found), Duration::from_secs(1)).expect("groups");
    assert_eq!(result.engine, "fclones");
    assert_eq!(result.groups.len(), 1);
    let files = &result.groups[0].files;
    assert_eq!(files[0].path, PathBuf::from("p"));
    assert_eq!(files[0].modified_date, 77);
    assert_eq!(files[1].modified_date, 0);
    assert_eq!(files[1].size, 3);
    assert!(!result.groups[0].verified);

    match engine.scan_result(Err("walk failed".to_string()), Duration::from_secs(1)) {
        Err(e) => assert_eq!(e.message(), "fclones duplicate engine failed: walk failed"),
        Ok(_) => panic!("error lost"),
    }
}

#[test]
fn paths_compare_component_by_component() {
    assert_eq!(compare_paths(&key("a/b"), &key("a/b")), Order::Equal);
    assert_eq!(compare_paths(&key("a"), &key("a/b")), Order::Less);
    assert_eq!(compare_paths(&key("a/c"), &key("a/b")), Order::Greater);
    // "a.b" sorts after "a" followed by more components, as Path does.
    assert_eq!(compare_paths(&key("a/z"), &key("a.b")), Order::Less);
    assert_eq!(sort_paths(group(&["z", "a/b", "a"])), group(&["a", "a/b", "z"]));
}

#[test]
fn comparison_ignores_group_and_path_order() {
    let left = vec![group(&["b", "a"]), group(&["d", "c"])];
    let right = vec![group(&["c", "d"]), group(&["a", "b"])];
    let comparison = compare_results(left, right);
    assert!(comparison.identical());
    assert!(comparison.only_left.is_empty());
    assert!(comparison.only_right.is_empty());
}

#[test]
fn comparison_reports_groups_of_one_side() {
    let left = vec![group(&["a", "b"]), group(&["x", "y"])];
    let right = vec![group(&["b", "a"]), group(&["x", "y", "z"])];
    let comparison = compare_results(left.clone(), right.clone());
    assert!(!comparison.identical());
    assert_eq!(comparison.only_left, vec![group(&["x", "y"])]);
    assert_eq!(comparison.only_right, vec![group(&["x", "y", "z"])]);
    let swapped = compare_results(right, left);
    assert_eq!(swapped.only_left, comparison.only_right);
    assert_eq!(swapped.only_right, comparison.only_left);
}

#[test]
fn normalized_groups_are_sorted_and_deduplicated() {
    let groups = vec![group(&["b", "a"]), group(&["a", "b"]), group(&["c", "a"])];
    assert_eq!(normalized_groups(groups), vec![group(&["a", "b"]), group(&["a", "c"])]);
}

#[test]
fn median_of_odd_and_even_samples() {
    let e = |secs: u64| Elapsed { secs, nanos: 0 };
    let mut odd = vec![e(5), e(1), e(3)];
    assert_eq!(median_duration(&mut odd), Median::Middle(e(3)));
    assert_eq!(odd, vec![e(1), e(3), e(5)]);
    let mut even = vec![e(4), Elapsed { secs: 1, nanos: 9 }, e(2), e(1)];
    assert_eq!(median_duration(&mut even), Median::Between(Elapsed { secs: 1, nanos: 9 }, e(2)));
    let mut one = vec![e(7)];
    assert_eq!(median_duration(&mut one), Median::Middle(e(7)));
}

#[test]
fn engines_are_configured_alike() {
    for (recursive, max_size) in [(true, None), (false, Some(4096u64))] {
        let mut request = DuplicateScanRequest::for_paths(vec![PathBuf::from("x"), PathBuf::from("y")]);
        request.recursive = recursive;
        request.max_size = max_size;
        request.use_cache = true;
        let czkawka = CzkawkaEngine.settings(&request).expect("valid");
        let fclones = FclonesEngine.settings(&request).expect("valid");
        assert_eq!(czkawka.included_paths, fclones.paths);
        assert_eq!(czkawka.recursive_search, fclones.depth.is_none());
        assert_eq!(czkawka.minimal_file_size, fclones.min_size);
        assert_eq!(czkawka.maximal_file_size, fclones.max_size.unwrap_or(u64::MAX));
        assert_eq!(czkawka.exclude_other_filesystems, fclones.one_fs);
        assert_eq!(czkawka.use_cache, fclones.cache);
    }
}

#[test]
fn invalid_requests_give_both_engines_the_same_error() {
    let mut request = DuplicateScanRequest::for_paths(vec![PathBuf::from("x")]);
    request.min_size = 10;
    request.max_size = Some(3);
    let expected = "max_size (3) is smaller than min_size (10)";
    match CzkawkaEngine.settings(&request) {
        Err(DuplicateEngineError::Configuration(m)) => assert_eq!(m, expected),
        other => panic!("unexpected {other:?}"),
    }
    match FclonesEngine.settings(&request) {
        Err(DuplicateEngineError::Configuration(m)) => assert_eq!(m, expected),
        other => panic!("unexpected {other:?}"),
    }
}

#[test]
fn path_keys_rank_component_kinds() {
    let components = vec![
        (ComponentKind::RootDir, b"/".to_vec()),
        (ComponentKind::Normal, b"home".to_vec()),
        (ComponentKind::ParentDir, b"..".to_vec()),
    ];
    assert_eq!(path_key(&components), vec![vec![1, b'/'], vec![4, b'h', b'o', b'm', b'e'], vec![3, b'.', b'.']]);
    assert_eq!(path_key(&vec![(ComponentKind::Normal, b"a".to_vec())]), key("a"));
    assert_eq!(path_key(&Vec::new()), Vec::<Vec<u8>>::new());
}

#[test]
fn a_result_compared_with_itself_is_identical() {
    let groups = vec![group(&["b", "a"]), group(&["x", "y", "z"]), group(&["a", "b"])];
    let comparison = compare_results(groups.clone(), groups);
    assert!(comparison.identical());
}

#[test]
fn reordering_groups_and_paths_keeps_the_comparison() {
    let left = vec![group(&["a", "b"]), group(&["x", "y"]), group(&["p", "q"])];
    let right = vec![group(&["b", "a"]), group(&["x", "y", "z"])];
    let left2 = vec![group(&["q", "p"]), group(&["b", "a"]), group(&["y", "x"])];
    let right2 = vec![group(&["z", "y", "x"]), group(&["a", "b"])];
    let first = compare_results(left, right);
    let second = compare_results(left2, right2);
    assert_eq!(first.only_left, second.only_left);
    assert_eq!(first.only_right, second.only_right);
    assert_eq!(first.only_left, vec![group(&["p", "q"]), group(&["x", "y"])]);
}
