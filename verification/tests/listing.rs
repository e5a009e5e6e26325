use duplicate_engine::listing::{
    duration_text, format_duration, is_listed_method, is_video_file, result_counts, result_source, scan_completion,
    split_u64_into_i32s, CheckMethod, ResultSource, ScanEnding, ScanInfo,
};
use duplicate_engine::probes::{
    collect_video_durations, video_probe_plan, EntryRef, GroupDurations, ListedFile, ListedGroup,
};
use duplicate_engine::rows::{duplicate_rows, duration_for_entry, prepare_data_model_duplicates, size_text, RowKind};

fn listed(name: &str, extension: Option<&str>, size: u64) -> ListedFile {
    ListedFile {
        directory: "/media".to_string(),
        name: name.to_string(),
        extension: extension.map(|e| e.to_string()),
        size,
        modified_date: 1_700_000_000,
        modified_text: "2023-11-14 22:13:20".to_string(),
    }
}

fn info() -> ScanInfo {
    ScanInfo {
        number_of_duplicated_files_by_hash: 1,
        number_of_groups_by_hash: 2,
        lost_space_by_hash: 3,
        number_of_duplicated_files_by_name: 4,
        number_of_groups_by_name: 5,
        number_of_duplicated_files_by_size: 6,
        number_of_groups_by_size: 7,
        lost_space_by_size: 8,
        number_of_duplicated_files_by_size_name: 9,
        number_of_groups_by_size_name: 10,
    }
}

#[test]
fn durations_are_formatted_as_clock_times() {
    assert_eq!(format_duration(0), "00:00:00");
    assert_eq!(format_duration(59), "00:00:59");
    assert_eq!(format_duration(3_661), "01:01:01");
    assert_eq!(format_duration(360_000), "100:00:00");
    assert_eq!(format_duration(-5), "00:00:00");
    assert_eq!(format_duration(i32::MAX), "596523:14:07");
    assert_eq!(duration_text(-1), "-");
    assert_eq!(duration_text(125), "00:02:05");
}

#[test]
fn video_files_are_recognised_by_extension() {
    assert!(is_video_file(Some("mp4")));
    assert!(is_video_file(Some("MKV")));
    assert!(is_video_file(Some("WebM")));
    assert!(is_video_file(Some("ts")));
    assert!(!is_video_file(Some("mp3")));
    assert!(!is_video_file(Some("tsx")));
    assert!(!is_video_file(Some("")));
    assert!(!is_video_file(None));
}

#[test]
fn values_split_into_signed_halves() {
    assert_eq!(split_u64_into_i32s(0), (0, 0));
    assert_eq!(split_u64_into_i32s(1), (0, 1));
    assert_eq!(split_u64_into_i32s(0x1_0000_0002), (1, 2));
    assert_eq!(split_u64_into_i32s(u64::MAX), (-1, -1));
    assert_eq!(split_u64_into_i32s(0x8000_0000), (0, i32::MIN));
}

#[test]
fn sizes_are_shown_in_binary_units() {
    assert_eq!(size_text(0), "0 B");
    assert_eq!(size_text(1023), "1023 B");
    assert_eq!(size_text(1024), "1 KiB");
    assert_eq!(size_text(1536), "1.50 KiB");
}

#[test]
fn counts_follow_the_check_method() {
    let i = info();
    assert_eq!(result_counts(CheckMethod::Hash, &i), (1, 2, 3));
    assert_eq!(result_counts(CheckMethod::Name, &i), (4, 5, 0));
    assert_eq!(result_counts(CheckMethod::Size, &i), (6, 7, 8));
    assert_eq!(result_counts(CheckMethod::SizeName, &i), (9, 10, 8));
}

#[test]
fn listed_methods() {
    assert!(is_listed_method(CheckMethod::Hash));
    assert!(is_listed_method(CheckMethod::SizeName));
    assert!(!is_listed_method(CheckMethod::AudioTags));
    assert!(!is_listed_method(CheckMethod::Unset));
}

#[test]
fn result_set_follows_method_and_reference_use() {
    assert_eq!(result_source(CheckMethod::Hash, true), ResultSource::HashReferenced);
    assert_eq!(result_source(CheckMethod::Name, true), ResultSource::NameReferenced);
    assert_eq!(result_source(CheckMethod::Size, false), ResultSource::SortedBySize);
    assert_eq!(result_source(CheckMethod::SizeName, false), ResultSource::SortedBySizeName);
}

fn sample_groups() -> Vec<ListedGroup> {
    vec![
        ListedGroup {
            reference: Some(listed("ref.MP4", Some("MP4"), 10)),
            entries: vec![listed("a.mp4", Some("mp4"), 10), listed("b.mp4", Some("mp4"), 10)],
        },
        ListedGroup {
            reference: None,
            entries: vec![listed("notes.txt", Some("txt"), 5), listed("clip.mkv", Some("mkv"), 5)],
        },
        ListedGroup { reference: None, entries: vec![listed("c.avi", Some("avi"), 7), listed("noext", None, 7)] },
    ]
}

#[test]
fn hash_mode_probes_one_file_per_group() {
    let groups = sample_groups();
    let plan = video_probe_plan(&groups, CheckMethod::Hash);
    // The first group is probed through its reference; the second group's
    // first member is no video, so its second member is probed; the third
    // group through its first member.
    assert_eq!(plan, vec![EntryRef::Reference(0), EntryRef::Member(1, 1), EntryRef::Member(2, 0)]);
    let durations = collect_video_durations(&groups, CheckMethod::Hash, &vec![Some(42), Some(7), None]);
    assert_eq!(durations[0].reference, 42);
    assert_eq!(durations[0].entries, vec![42, 42]);
    assert_eq!(durations[1].entries, vec![7, 7]);
    assert_eq!(durations[2].entries, vec![-1, -1]);
}

#[test]
fn hash_mode_probes_the_first_video_of_a_group() {
    let groups = vec![ListedGroup {
        reference: Some(listed("ref.bin", Some("bin"), 3)),
        entries: vec![listed("x.bin", Some("bin"), 3), listed("x.mp4", Some("mp4"), 3)],
    }];
    let plan = video_probe_plan(&groups, CheckMethod::Hash);
    assert_eq!(plan, vec![EntryRef::Member(0, 1)]);
    let durations = collect_video_durations(&groups, CheckMethod::Hash, &vec![Some(11)]);
    assert_eq!(durations[0].reference, 11);
    assert_eq!(durations[0].entries, vec![11, 11]);
}

#[test]
fn other_modes_probe_every_video() {
    let groups = sample_groups();
    let plan = video_probe_plan(&groups, CheckMethod::Size);
    assert_eq!(
        plan,
        vec![
            EntryRef::Reference(0),
            EntryRef::Member(0, 0),
            EntryRef::Member(0, 1),
            EntryRef::Member(1, 1),
            EntryRef::Member(2, 0),
        ]
    );
    let answers = vec![Some(1), Some(2), None, Some(4), Some(5)];
    let durations = collect_video_durations(&groups, CheckMethod::Size, &answers);
    assert_eq!(durations[0].reference, 1);
    assert_eq!(durations[0].entries, vec![2, -1]);
    assert_eq!(durations[1].entries, vec![-1, 4]);
    assert_eq!(durations[2].entries, vec![5, -1]);
    assert_eq!(duration_for_entry(&durations, EntryRef::Member(1, 1)), 4);
    assert_eq!(duration_for_entry(&durations, EntryRef::Member(1, 7)), -1);
    assert_eq!(duration_for_entry(&durations, EntryRef::Reference(9)), -1);
}

#[test]
fn a_row_holds_the_file_texts_and_numbers() {
    let f = listed("a.mp4", Some("mp4"), 0x1_0000_0005);
    let (texts, numbers) = prepare_data_model_duplicates(&f, 3_725);
    assert_eq!(texts, vec!["4.00 GiB", "a.mp4", "/media", "01:02:05", "2023-11-14 22:13:20"]);
    assert_eq!(numbers, vec![0, 1_700_000_000, 1, 5, 3_725]);
    let (texts, numbers) = prepare_data_model_duplicates(&listed("x", None, 100), -1);
    assert_eq!(texts[0], "100 B");
    assert_eq!(texts[3], "-");
    assert_eq!(numbers[4], -1);
}

#[test]
fn rows_list_groups_from_the_last() {
    let groups = sample_groups();
    let durations = vec![
        GroupDurations { reference: 9, entries: vec![9, 9] },
        GroupDurations { reference: -1, entries: vec![-1, 3] },
        GroupDurations { reference: -1, entries: vec![-1, -1] },
    ];
    let rows = duplicate_rows(&groups, &durations);
    let kinds: Vec<RowKind> = rows.iter().map(|r| r.kind).collect();
    assert_eq!(
        kinds,
        vec![
            RowKind::EmptyHeader,
            RowKind::Entry,
            RowKind::Entry,
            RowKind::EmptyHeader,
            RowKind::Entry,
            RowKind::Entry,
            RowKind::ReferenceHeader,
            RowKind::Entry,
            RowKind::Entry,
        ]
    );
    assert!(rows[0].texts.is_empty() && rows[0].numbers.is_empty());
    assert_eq!(rows[1].texts[1], "c.avi");
    assert_eq!(rows[5].texts[1], "clip.mkv");
    assert_eq!(rows[5].texts[3], "00:00:03");
    assert_eq!(rows[6].texts[1], "ref.MP4");
    assert_eq!(rows[6].numbers[4], 9);
    assert_eq!(rows[8].texts[1], "b.mp4");
}

#[test]
fn completion_reports_counts_and_wasted_space() {
    let done = scan_completion(false, false, true, true, 4, 2, 2048);
    assert_eq!(done.ending, ScanEnding::Found { items: 4, groups: 2, lost_space: "2 KiB".to_string() });
    assert!(done.play_sound);
    assert!(done.notify);

    let stopped = scan_completion(false, true, true, true, 4, 2, 0);
    assert_eq!(stopped.ending, ScanEnding::FoundNoLostSpace { items: 4, groups: 2 });
    assert!(!stopped.play_sound);
    assert!(!stopped.notify);

    let quiet = scan_completion(false, false, false, true, 1, 1, 0);
    assert!(!quiet.play_sound);
    assert!(quiet.notify);

    let critical = scan_completion(true, false, true, true, 4, 2, 2048);
    assert_eq!(critical.ending, ScanEnding::Critical);
    assert!(!critical.play_sound && !critical.notify);
}
