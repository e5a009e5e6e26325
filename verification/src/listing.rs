//! Decisions behind the duplicate-files listing: which result set to show, the
//! summary counts, the rows of the list, their texts, and which videos to probe
//! for their duration.

use vstd::prelude::*;
use vstd::string::*;
use crate::text::{push_two_digit, two_digit, decimal};
use crate::rows::{binary_size_text, size_text};

verus! {

/// How files were compared in a scan.
#[derive(Clone, Copy, Debug, PartialEq, Eq, Structural)]
pub enum CheckMethod {
    /// No method chosen.
    Unset,
    Name,
    SizeName,
    Size,
    Hash,
    AudioTags,
    AudioContent,
}

/// The methods the duplicate listing shows results of.
pub open spec fn listed_method(m: CheckMethod) -> bool {
    m is Name || m is SizeName || m is Size || m is Hash
}

/// Whether the duplicate listing shows results of method `m`.
pub fn is_listed_method(m: CheckMethod) -> (r: bool)
    ensures
        r == listed_method(m),
{
    matches!(m, CheckMethod::Name | CheckMethod::SizeName | CheckMethod::Size | CheckMethod::Hash)
}

/// The counters a duplicate scan reports.
#[derive(Clone, Copy, Debug)]
pub struct ScanInfo {
    pub number_of_duplicated_files_by_hash: usize,
    pub number_of_groups_by_hash: usize,
    pub lost_space_by_hash: u64,
    pub number_of_duplicated_files_by_name: usize,
    pub number_of_groups_by_name: usize,
    pub number_of_duplicated_files_by_size: usize,
    pub number_of_groups_by_size: usize,
    pub lost_space_by_size: u64,
    pub number_of_duplicated_files_by_size_name: usize,
    pub number_of_groups_by_size_name: usize,
}

/// Duplicate files, groups and wasted bytes of the scan, for its method: names
/// carry no wasted space, size-and-name reuses the size figure.
pub fn result_counts(method: CheckMethod, info: &ScanInfo) -> (r: (usize, usize, u64))
    requires
        listed_method(method),
    ensures
        method is Hash ==> r == (
            info.number_of_duplicated_files_by_hash,
            info.number_of_groups_by_hash,
            info.lost_space_by_hash,
        ),
        method is Name ==> r == (info.number_of_duplicated_files_by_name, info.number_of_groups_by_name, 0u64),
        method is Size ==> r == (
            info.number_of_duplicated_files_by_size,
            info.number_of_groups_by_size,
            info.lost_space_by_size,
        ),
        method is SizeName ==> r == (
            info.number_of_duplicated_files_by_size_name,
            info.number_of_groups_by_size_name,
            info.lost_space_by_size,
        ),
{
    match method {
        CheckMethod::Hash => (
            info.number_of_duplicated_files_by_hash,
            info.number_of_groups_by_hash,
            info.lost_space_by_hash,
        ),
        CheckMethod::Name => (info.number_of_duplicated_files_by_name, info.number_of_groups_by_name, 0),
        CheckMethod::Size => (
            info.number_of_duplicated_files_by_size,
            info.number_of_groups_by_size,
            info.lost_space_by_size,
        ),
        _ => (
            info.number_of_duplicated_files_by_size_name,
            info.number_of_groups_by_size_name,
            info.lost_space_by_size,
        ),
    }
}

/// Which result set of the scan the listing shows.
#[derive(Clone, Copy, Debug, PartialEq, Eq, Structural)]
pub enum ResultSource {
    HashReferenced,
    NameReferenced,
    SizeReferenced,
    SizeNameReferenced,
    SortedByHash,
    SortedByName,
    SortedBySize,
    SortedBySizeName,
}

/// The result set for the method, the one paired with reference files when
/// reference folders are in use.
pub fn result_source(method: CheckMethod, use_reference: bool) -> (r: ResultSource)
    requires
        listed_method(method),
    ensures
        use_reference && method is Hash ==> r is HashReferenced,
        use_reference && method is Name ==> r is NameReferenced,
        use_reference && method is Size ==> r is SizeReferenced,
        use_reference && method is SizeName ==> r is SizeNameReferenced,
        !use_reference && method is Hash ==> r is SortedByHash,
        !use_reference && method is Name ==> r is SortedByName,
        !use_reference && method is Size ==> r is SortedBySize,
        !use_reference && method is SizeName ==> r is SortedBySizeName,
{
    match (use_reference, method) {
        (true, CheckMethod::Hash) => ResultSource::HashReferenced,
        (true, CheckMethod::Name) => ResultSource::NameReferenced,
        (true, CheckMethod::Size) => ResultSource::SizeReferenced,
        (true, _) => ResultSource::SizeNameReferenced,
        (false, CheckMethod::Hash) => ResultSource::SortedByHash,
        (false, CheckMethod::Name) => ResultSource::SortedByName,
        (false, CheckMethod::Size) => ResultSource::SortedBySize,
        (false, _) => ResultSource::SortedBySizeName,
    }
}

/// `HH:MM:SS` of a number of seconds, negative counting as zero; the hours take
/// as many digits as they need.
pub open spec fn clock_text(total_seconds: int) -> Seq<char> {
    let t = if total_seconds < 0 { 0 } else { total_seconds };
    two_digit((t / 3600) as nat) + seq![':'] + two_digit(((t % 3600) / 60) as nat) + seq![':']
        + two_digit((t % 60) as nat)
}

pub fn format_duration(total_seconds: i32) -> (r: String)
    ensures
        r@ == clock_text(total_seconds as int),
{
    proof {
        reveal_strlit(":");
    }
    let total = if total_seconds < 0 {
        0u64
    } else {
        total_seconds as u64
    };
    let hours = total / 3600;
    let minutes = (total % 3600) / 60;
    let seconds = total % 60;
    let mut s = String::new();
    push_two_digit(&mut s, hours);
    s.append(":");
    push_two_digit(&mut s, minutes);
    s.append(":");
    push_two_digit(&mut s, seconds);
    assert(s@ =~= clock_text(total_seconds as int));
    s
}

/// The duration column: the clock text of a known duration, `-` for an unknown
/// (negative) one.
pub open spec fn duration_column(duration_seconds: int) -> Seq<char> {
    if duration_seconds >= 0 { clock_text(duration_seconds) } else { "-"@ }
}

pub fn duration_text(duration_seconds: i32) -> (r: String)
    ensures
        r@ == duration_column(duration_seconds as int),
{
    if duration_seconds >= 0 {
        format_duration(duration_seconds)
    } else {
        String::from_str("-")
    }
}

/// How a finished scan is announced.
#[derive(Clone, Debug, PartialEq, Eq)]
pub enum ScanEnding {
    /// The scan reported a critical error; its message is shown as it is.
    Critical,
    /// Duplicates were found that waste space; `lost_space` is its size text.
    Found { items: usize, groups: usize, lost_space: String },
    /// Duplicates were found that waste no space.
    FoundNoLostSpace { items: usize, groups: usize },
}

/// What to do once a scan has finished.
#[derive(Debug)]
pub struct ScanCompletion {
    pub ending: ScanEnding,
    /// Play the completion sound.
    pub play_sound: bool,
    /// Send a desktop notification with the result message.
    pub notify: bool,
}

/// The announcement of a finished scan. A critical error is shown alone;
/// otherwise the counts are reported, with the wasted size when there is any,
/// and the sound and the notification follow the settings unless the user
/// stopped the scan.
pub fn scan_completion(
    critical: bool,
    stopped_search: bool,
    play_audio_on_scan_completion: bool,
    show_notification_on_scan_completion: bool,
    items_found: usize,
    groups: usize,
    lost_space: u64,
) -> (r: ScanCompletion)
    ensures
        critical ==> r.ending is Critical && !r.play_sound && !r.notify,
        !critical ==> r.play_sound == (!stopped_search && play_audio_on_scan_completion),
        !critical ==> r.notify == (!stopped_search && show_notification_on_scan_completion),
        !critical && lost_space > 0 ==> (r.ending matches ScanEnding::Found { items, groups: g, lost_space: text }
            && items == items_found && g == groups && text@ == binary_size_text(lost_space)),
        !critical && lost_space == 0 ==> r.ending == (ScanEnding::FoundNoLostSpace { items: items_found, groups }),
{
    if critical {
        return ScanCompletion { ending: ScanEnding::Critical, play_sound: false, notify: false };
    }
    let ending = if lost_space > 0 {
        ScanEnding::Found { items: items_found, groups, lost_space: size_text(lost_space) }
    } else {
        ScanEnding::FoundNoLostSpace { items: items_found, groups }
    };
    ScanCompletion {
        ending,
        play_sound: !stopped_search && play_audio_on_scan_completion,
        notify: !stopped_search && show_notification_on_scan_completion,
    }
}

/// The high 32 bits of a value, read as a signed 32-bit number.
pub open spec fn high_half(value: u64) -> i32 {
    ((value >> 32u64) as u32) as i32
}

/// The low 32 bits of a value, read as a signed 32-bit number.
pub open spec fn low_half(value: u64) -> i32 {
    (value as u32) as i32
}

/// The two halves of a value's 64 bits, high half first, each read as a signed
/// 32-bit number: the value is `r.0`'s bits times 2^32 plus `r.1`'s bits.
pub fn split_u64_into_i32s(value: u64) -> (r: (i32, i32))
    ensures
        r == (high_half(value), low_half(value)),
        (r.0 as u32) as int * 0x1_0000_0000 + (r.1 as u32) as int == value as int,
{
    #[verifier::truncate]
    let high = (value >> 32u64) as u32;
    #[verifier::truncate]
    let low = value as u32;
    #[verifier::truncate]
    let h = high as i32;
    #[verifier::truncate]
    let l = low as i32;
    assert((h as u32) == high) by (bit_vector)
        requires
            h == high as i32,
    ;
    assert((l as u32) == low) by (bit_vector)
        requires
            l == low as i32,
    ;
    assert(high as u64 * 0x1_0000_0000u64 + low as u64 == value) by (bit_vector)
        requires
            high == (value >> 32u64) as u32,
            low == value as u32,
    ;
    (h, l)
}

} // verus!

verus! {

/// ASCII upper-case letters in lower case; everything else unchanged.
pub open spec fn ascii_lower(c: char) -> char {
    if 'A' <= c && c <= 'Z' {
        ((c as u32) + 32) as char
    } else {
        c
    }
}

/// `s` in ASCII lower case.
pub open spec fn ascii_lowercase(s: Seq<char>) -> Seq<char> {
    Seq::new(s.len(), |i: int| ascii_lower(s[i]))
}

/// The extensions of video files, in lower case.
pub open spec fn video_extensions() -> Seq<Seq<char>> {
    seq![
        "3gp"@,
        "avi"@,
        "flv"@,
        "m2ts"@,
        "m4v"@,
        "mkv"@,
        "mov"@,
        "mp4"@,
        "mpeg"@,
        "mpg"@,
        "mts"@,
        "ts"@,
        "vob"@,
        "webm"@,
        "wmv"@,
    ]
}

/// A file with this extension is a video: the extension in lower case is one
/// of `video_extensions()`.
pub open spec fn is_video_extension(extension: Option<Seq<char>>) -> bool {
    match extension {
        Some(e) => video_extensions().contains(ascii_lowercase(e)),
        None => false,
    }
}

/// The video extensions: 3gp, avi, flv, m2ts, m4v, mkv, mov, mp4, mpeg, mpg,
/// mts, ts, vob, webm and wmv are videos, whatever the case of their letters
/// (shown here for upper-case MP4 and MOV); other extensions are not.
pub proof fn lemma_video_extensions()
    ensures
        is_video_extension(Some("3gp"@)),
        is_video_extension(Some("avi"@)),
        is_video_extension(Some("flv"@)),
        is_video_extension(Some("m2ts"@)),
        is_video_extension(Some("m4v"@)),
        is_video_extension(Some("mkv"@)),
        is_video_extension(Some("mov"@)),
        is_video_extension(Some("mp4"@)),
        is_video_extension(Some("mpeg"@)),
        is_video_extension(Some("mpg"@)),
        is_video_extension(Some("mts"@)),
        is_video_extension(Some("ts"@)),
        is_video_extension(Some("vob"@)),
        is_video_extension(Some("webm"@)),
        is_video_extension(Some("wmv"@)),
        is_video_extension(Some("MP4"@)),
        is_video_extension(Some("MOV"@)),
        !is_video_extension(Some("mp3"@)),
        !is_video_extension(Some("txt"@)),
        !is_video_extension(None),
{
        reveal_strlit("3gp");
        reveal_strlit("avi");
        reveal_strlit("flv");
        reveal_strlit("m2ts");
        reveal_strlit("m4v");
        reveal_strlit("mkv");
        reveal_strlit("mov");
        reveal_strlit("mp4");
        reveal_strlit("mpeg");
        reveal_strlit("mpg");
        reveal_strlit("mts");
        reveal_strlit("ts");
        reveal_strlit("vob");
        reveal_strlit("webm");
        reveal_strlit("wmv");
        reveal_strlit("MP4");
        reveal_strlit("MOV");
        reveal_strlit("mp3");
        reveal_strlit("txt");
    assert(ascii_lowercase("3gp"@) =~= "3gp"@);
    assert(video_extensions()[0] == "3gp"@);
    assert(ascii_lowercase("avi"@) =~= "avi"@);
    assert(video_extensions()[1] == "avi"@);
    assert(ascii_lowercase("flv"@) =~= "flv"@);
    assert(video_extensions()[2] == "flv"@);
    assert(ascii_lowercase("m2ts"@) =~= "m2ts"@);
    assert(video_extensions()[3] == "m2ts"@);
    assert(ascii_lowercase("m4v"@) =~= "m4v"@);
    assert(video_extensions()[4] == "m4v"@);
    assert(ascii_lowercase("mkv"@) =~= "mkv"@);
    assert(video_extensions()[5] == "mkv"@);
    assert(ascii_lowercase("mov"@) =~= "mov"@);
    assert(video_extensions()[6] == "mov"@);
    assert(ascii_lowercase("mp4"@) =~= "mp4"@);
    assert(video_extensions()[7] == "mp4"@);
    assert(ascii_lowercase("mpeg"@) =~= "mpeg"@);
    assert(video_extensions()[8] == "mpeg"@);
    assert(ascii_lowercase("mpg"@) =~= "mpg"@);
    assert(video_extensions()[9] == "mpg"@);
    assert(ascii_lowercase("mts"@) =~= "mts"@);
    assert(video_extensions()[10] == "mts"@);
    assert(ascii_lowercase("ts"@) =~= "ts"@);
    assert(video_extensions()[11] == "ts"@);
    assert(ascii_lowercase("vob"@) =~= "vob"@);
    assert(video_extensions()[12] == "vob"@);
    assert(ascii_lowercase("webm"@) =~= "webm"@);
    assert(video_extensions()[13] == "webm"@);
    assert(ascii_lowercase("wmv"@) =~= "wmv"@);
    assert(video_extensions()[14] == "wmv"@);
    assert(ascii_lowercase("MP4"@) =~= "mp4"@);
    assert(ascii_lowercase("MOV"@) =~= "mov"@);
    assert(ascii_lowercase("mp3"@) =~= "mp3"@);
    assert(ascii_lowercase("txt"@) =~= "txt"@);
    assert(!video_extensions().contains("mp3"@)) by {
        assert forall|k: int| 0 <= k < video_extensions().len() implies video_extensions()[k] != "mp3"@ by {
            assert(video_extensions()[k].len() != 3 || video_extensions()[k][2] != '3' || video_extensions()[k][0] != 'm');
        }
    }
    assert(!video_extensions().contains("txt"@)) by {
        assert forall|k: int| 0 <= k < video_extensions().len() implies video_extensions()[k] != "txt"@ by {
            assert(video_extensions()[k][0] != 't' || video_extensions()[k].len() != 3);
        }
    }
}

/// Whether `s` in ASCII lower case is `lower`.
fn lowercase_equals(s: &str, lower: &str) -> (r: bool)
    ensures
        r == (ascii_lowercase(s@) == lower@),
{
    let n = s.unicode_len();
    if n != lower.unicode_len() {
        assert(ascii_lowercase(s@).len() != lower@.len());
        return false;
    }
    let mut i: usize = 0;
    while i < n
        invariant
            n == s@.len(),
            n == lower@.len(),
            i <= n,
            forall|j: int| 0 <= j < i ==> ascii_lower(s@[j]) == lower@[j],
        decreases n - i,
    {
        let c = s.get_char(i);
        let l = if 'A' <= c && c <= 'Z' {
            ((c as u32) + 32) as u32
        } else {
            c as u32
        };
        if l != lower.get_char(i) as u32 {
            assert(ascii_lowercase(s@)[i as int] != lower@[i as int]);
            return false;
        }
        i = i + 1;
    }
    assert(ascii_lowercase(s@) =~= lower@);
    true
}

/// Whether a file with this extension is a video.
pub fn is_video_file(extension: Option<&str>) -> (r: bool)
    ensures
        r == is_video_extension(
            match extension {
                Some(e) => Some(e@),
                None => None,
            },
        ),
{
    let e = match extension {
        Some(e) => e,
        None => return false,
    };
    let known = ["3gp", "avi", "flv", "m2ts", "m4v", "mkv", "mov", "mp4", "mpeg", "mpg", "mts", "ts", "vob", "webm", "wmv"];
    let ghost exts = video_extensions();
    assert(known@.map_values(|k: &str| k@) =~= exts);
    let mut i: usize = 0;
    while i < known.len()
        invariant
            i <= known.len(),
            known@.map_values(|k: &str| k@) == exts,
            exts == video_extensions(),
            extension == Some(e),
            forall|j: int| 0 <= j < i ==> exts[j] != ascii_lowercase(e@),
        decreases known.len() - i,
    {
        assert(known@[i as int]@ == exts[i as int]);
        if lowercase_equals(e, known[i]) {
            assert(exts[i as int] == ascii_lowercase(e@));
            assert(video_extensions().contains(ascii_lowercase(e@)));
            return true;
        }
        i = i + 1;
    }
    assert(!exts.contains(ascii_lowercase(e@)));
    false
}

} // verus!
