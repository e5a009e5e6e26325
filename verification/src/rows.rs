//! The rows of the duplicate-files listing: per group a header row (the
//! reference file, or an empty separator), then one row per file, newest group
//! first.

use vstd::prelude::*;
use crate::listing::{duration_column, duration_text, high_half, low_half, split_u64_into_i32s};
use crate::probes::{EntryRef, GroupDurations, ListedFile, ListedGroup};
use crate::text::decimal;

verus! {

/// What `humansize::format_size` with the `BINARY` options writes for a number
/// of bytes.
pub uninterp spec fn binary_size_text(bytes: u64) -> Seq<char>;

/// Calls `humansize::format_size(bytes, humansize::BINARY)`. Its result is a
/// function of `bytes` alone; below 1024 it is the number followed by ` B`
/// (the value is shown with no decimal places when it has no fraction).
#[verifier::external_body]
fn format_size_binary(bytes: u64) -> (r: String)
    ensures
        r@ == binary_size_text(bytes),
        bytes < 1024 ==> r@ == decimal(bytes as nat) + " B"@,
{
    humansize::format_size(bytes, humansize::BINARY)
}

/// The size column of a row.
pub fn size_text(bytes: u64) -> (r: String)
    ensures
        r@ == binary_size_text(bytes),
        bytes < 1024 ==> r@ == decimal(bytes as nat) + " B"@,
{
    format_size_binary(bytes)
}

/// The kind of a listing row.
#[derive(Clone, Copy, Debug, PartialEq, Eq, Structural)]
pub enum RowKind {
    /// The header of a group, showing its reference file.
    ReferenceHeader,
    /// The header of a group without a reference file; it shows nothing.
    EmptyHeader,
    /// A file of a group.
    Entry,
}

/// A row of the listing: its texts and its numbers.
#[derive(Debug)]
pub struct ListingRow {
    pub kind: RowKind,
    pub texts: Vec<String>,
    pub numbers: Vec<i32>,
}

pub open spec fn texts_view(t: Seq<String>) -> Seq<Seq<char>> {
    t.map_values(|s: String| s@)
}

pub open spec fn row_view(r: ListingRow) -> (RowKind, Seq<Seq<char>>, Seq<i32>) {
    (r.kind, texts_view(r.texts@), r.numbers@)
}

/// The texts of a file's row: size, name, directory, duration, modification time.
pub open spec fn row_texts(f: ListedFile, duration: i32) -> Seq<Seq<char>> {
    seq![
        binary_size_text(f.size),
        f.name@,
        f.directory@,
        duration_column(duration as int),
        f.modified_text@,
    ]
}

/// The numbers of a file's row: the halves of its modification time and of its
/// size, then its duration.
pub open spec fn row_numbers(f: ListedFile, duration: i32) -> Seq<i32> {
    seq![
        high_half(f.modified_date),
        low_half(f.modified_date),
        high_half(f.size),
        low_half(f.size),
        duration,
    ]
}

/// The texts and numbers of the row of `fe`, shown with the given duration.
pub fn prepare_data_model_duplicates(fe: &ListedFile, duration_seconds: i32) -> (r: (
    Vec<String>,
    Vec<i32>,
))
    ensures
        texts_view(r.0@) == row_texts(*fe, duration_seconds),
        r.1@ == row_numbers(*fe, duration_seconds),
{
    let mut texts: Vec<String> = Vec::new();
    texts.push(size_text(fe.size));
    texts.push(fe.name.clone());
    texts.push(fe.directory.clone());
    texts.push(duration_text(duration_seconds));
    texts.push(fe.modified_text.clone());
    let modification_split = split_u64_into_i32s(fe.modified_date);
    let size_split = split_u64_into_i32s(fe.size);
    let numbers = vec![
        modification_split.0,
        modification_split.1,
        size_split.0,
        size_split.1,
        duration_seconds,
    ];
    assert(texts_view(texts@) =~= row_texts(*fe, duration_seconds));
    assert(numbers@ =~= row_numbers(*fe, duration_seconds));
    (texts, numbers)
}

/// The duration shown for a file: the one found for it, `-1` when none was.
pub open spec fn shown_duration(durations: Seq<GroupDurations>, entry: EntryRef) -> i32 {
    match entry {
        EntryRef::Reference(g) => if g < durations.len() { durations[g as int].reference } else { -1i32 },
        EntryRef::Member(g, j) => if g < durations.len() && j < durations[g as int].entries@.len() {
            durations[g as int].entries@[j as int]
        } else {
            -1i32
        },
    }
}

pub fn duration_for_entry(durations: &Vec<GroupDurations>, entry: EntryRef) -> (r: i32)
    ensures
        r == shown_duration(durations@, entry),
{
    match entry {
        EntryRef::Reference(g) => if g < durations.len() { durations[g].reference } else { -1 },
        EntryRef::Member(g, j) => if g < durations.len() && j < durations[g].entries.len() {
            durations[g].entries[j]
        } else {
            -1
        },
    }
}

/// The header row of group `gi`.
pub open spec fn header_row(g: ListedGroup, gi: usize, durations: Seq<GroupDurations>) -> (
    RowKind,
    Seq<Seq<char>>,
    Seq<i32>,
) {
    match g.reference {
        Some(f) => {
            let d = shown_duration(durations, EntryRef::Reference(gi));
            (RowKind::ReferenceHeader, row_texts(f, d), row_numbers(f, d))
        },
        None => (RowKind::EmptyHeader, seq![], seq![]),
    }
}

/// The rows of the members of group `gi`, in order.
pub open spec fn member_rows(g: ListedGroup, gi: usize, durations: Seq<GroupDurations>) -> Seq<
    (RowKind, Seq<Seq<char>>, Seq<i32>),
> {
    Seq::new(
        g.entries@.len(),
        |j: int|
            {
                let d = shown_duration(durations, EntryRef::Member(gi, j as usize));
                (RowKind::Entry, row_texts(g.entries@[j], d), row_numbers(g.entries@[j], d))
            },
    )
}

/// The rows of the groups from `k` on, the last group first.
pub open spec fn rows_from(groups: Seq<ListedGroup>, durations: Seq<GroupDurations>, k: int) -> Seq<
    (RowKind, Seq<Seq<char>>, Seq<i32>),
>
    decreases groups.len() - k,
{
    if k < 0 || k >= groups.len() {
        seq![]
    } else {
        rows_from(groups, durations, k + 1) + seq![header_row(groups[k], k as usize, durations)]
            + member_rows(groups[k], k as usize, durations)
    }
}

/// The rows of the listing: groups from the last to the first, each as its
/// header row followed by its members' rows.
pub fn duplicate_rows(groups: &Vec<ListedGroup>, durations: &Vec<GroupDurations>) -> (r: Vec<
    ListingRow,
>)
    ensures
        r@.map_values(|row: ListingRow| row_view(row)) == rows_from(groups@, durations@, 0),
{
    let mut rows: Vec<ListingRow> = Vec::new();
    let mut k: usize = groups.len();
    while k > 0
        invariant
            k <= groups.len(),
            rows@.map_values(|row: ListingRow| row_view(row)) == rows_from(
                groups@,
                durations@,
                k as int,
            ),
        decreases k,
    {
        k = k - 1;
        let g = &groups[k];
        let ghost before = rows@.map_values(|row: ListingRow| row_view(row));
        match &g.reference {
            Some(f) => {
                let d = duration_for_entry(durations, EntryRef::Reference(k));
                let (texts, numbers) = prepare_data_model_duplicates(f, d);
                rows.push(ListingRow { kind: RowKind::ReferenceHeader, texts, numbers });
            },
            None => {
                rows.push(ListingRow { kind: RowKind::EmptyHeader, texts: Vec::new(), numbers: Vec::new() });
                assert(texts_view(Seq::<String>::empty()) =~= Seq::<Seq<char>>::empty());
            },
        }
        assert(rows@.map_values(|row: ListingRow| row_view(row)) =~= before + seq![
            header_row(*g, k, durations@),
        ]);
        let ghost with_header = rows@.map_values(|row: ListingRow| row_view(row));
        let mut j: usize = 0;
        while j < g.entries.len()
            invariant
                j <= g.entries.len(),
                k < groups.len(),
                g == groups@[k as int],
                rows@.map_values(|row: ListingRow| row_view(row)) == with_header + member_rows(
                    *g,
                    k,
                    durations@,
                ).take(j as int),
            decreases g.entries.len() - j,
        {
            let d = duration_for_entry(durations, EntryRef::Member(k, j));
            let (texts, numbers) = prepare_data_model_duplicates(&g.entries[j], d);
            let ghost prev = rows@.map_values(|row: ListingRow| row_view(row));
            rows.push(ListingRow { kind: RowKind::Entry, texts, numbers });
            assert(member_rows(*g, k, durations@).take(j as int + 1) =~= member_rows(
                *g,
                k,
                durations@,
            ).take(j as int).push(member_rows(*g, k, durations@)[j as int]));
            assert(rows@.map_values(|row: ListingRow| row_view(row)) =~= prev.push(
                row_view(rows@[rows@.len() - 1]),
            ));
            j = j + 1;
        }
        assert(member_rows(*g, k, durations@).take(g.entries@.len() as int) =~= member_rows(
            *g,
            k,
            durations@,
        ));
    }
    rows
}

} // verus!
