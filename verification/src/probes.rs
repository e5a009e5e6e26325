//! Which listed videos to probe for their duration, and the duration each row of
//! the listing shows once the probes have answered.
//!
//! In Hash mode every member of a group is byte-identical, so one probe of a
//! video of the group (its reference file when that is a video, else its first
//! member that is one) serves the whole group. In the other modes files are
//! only candidates, and every video is probed on its own.

use vstd::prelude::*;
use crate::listing::{is_video_extension, is_video_file, CheckMethod};

verus! {

/// A file of the listing, as plain values: where it lives, what it is called,
/// its extension, size and modification time (seconds and the text shown).
#[derive(Debug)]
pub struct ListedFile {
    pub directory: String,
    pub name: String,
    pub extension: Option<String>,
    pub size: u64,
    pub modified_date: u64,
    pub modified_text: String,
}

/// A group of the listing: the reference file, when reference folders are in
/// use, and the files found equal to it.
#[derive(Debug)]
pub struct ListedGroup {
    pub reference: Option<ListedFile>,
    pub entries: Vec<ListedFile>,
}

/// A file of the listing by position: the reference file of group `g`, or
/// member `j` of group `g`.
#[derive(Clone, Copy, Debug, PartialEq, Eq, Structural)]
pub enum EntryRef {
    Reference(usize),
    Member(usize, usize),
}

/// The duration shown for each file of a group; `-1` where it is unknown.
#[derive(Debug)]
pub struct GroupDurations {
    pub reference: i32,
    pub entries: Vec<i32>,
}

pub open spec fn extension_view(f: ListedFile) -> Option<Seq<char>> {
    match f.extension {
        Some(e) => Some(e@),
        None => None,
    }
}

/// The file is a video, by its extension.
pub open spec fn listed_video(f: ListedFile) -> bool {
    is_video_extension(extension_view(f))
}

/// The index of the first video among `files` from index `j` on.
pub open spec fn first_video_from(files: Seq<ListedFile>, j: int) -> Option<int>
    decreases files.len() - j,
{
    if j < 0 || j >= files.len() {
        None
    } else if listed_video(files[j]) {
        Some(j)
    } else {
        first_video_from(files, j + 1)
    }
}

/// A Hash-mode group is probed when it holds a video: all its files are
/// byte-identical, so one probe serves the whole group.
pub open spec fn hash_probed(g: ListedGroup) -> bool {
    reference_probed(g) || first_video_from(g.entries@, 0) is Some
}

/// The file a Hash-mode group is probed through: its reference file when that
/// is a video, else its first member that is one.
pub open spec fn hash_probe_ref(g: ListedGroup, gi: usize) -> EntryRef {
    if reference_probed(g) {
        EntryRef::Reference(gi)
    } else {
        match first_video_from(g.entries@, 0) {
            Some(j) => EntryRef::Member(gi, j as usize),
            None => EntryRef::Member(gi, 0),
        }
    }
}

/// The videos among `files`, members of group `gi`, in order.
pub open spec fn member_probes(files: Seq<ListedFile>, gi: usize) -> Seq<EntryRef>
    decreases files.len(),
{
    if files.len() == 0 {
        seq![]
    } else {
        member_probes(files.drop_last(), gi) + if listed_video(files.last()) {
            seq![EntryRef::Member(gi, (files.len() - 1) as usize)]
        } else {
            seq![]
        }
    }
}

/// Whether the reference file of a group is a video.
pub open spec fn reference_probed(g: ListedGroup) -> bool {
    match g.reference {
        Some(r) => listed_video(r),
        None => false,
    }
}

/// The probes of group `gi`, in order.
pub open spec fn group_probes(g: ListedGroup, gi: usize, hash: bool) -> Seq<EntryRef> {
    if hash {
        if hash_probed(g) { seq![hash_probe_ref(g, gi)] } else { seq![] }
    } else {
        (if reference_probed(g) { seq![EntryRef::Reference(gi)] } else { seq![] })
            + member_probes(g.entries@, gi)
    }
}

/// The probes of all groups, group after group.
pub open spec fn probe_plan(groups: Seq<ListedGroup>, hash: bool) -> Seq<EntryRef>
    decreases groups.len(),
{
    if groups.len() == 0 {
        seq![]
    } else {
        probe_plan(groups.drop_last(), hash) + group_probes(
            groups.last(),
            (groups.len() - 1) as usize,
            hash,
        )
    }
}

/// A probe that gave no duration shows as `-1`.
pub open spec fn probed_value(p: Option<i32>) -> i32 {
    match p {
        Some(d) => d,
        None => -1i32,
    }
}

/// Where the probes of group `gi` start in the plan.
pub open spec fn plan_offset(groups: Seq<ListedGroup>, gi: int, hash: bool) -> int {
    probe_plan(groups.take(gi), hash).len() as int
}

/// Where the probe of member `j` of group `gi` stands in a plan made in one
/// of the modes other than Hash.
pub open spec fn member_probe_index(groups: Seq<ListedGroup>, gi: int, j: int) -> int {
    plan_offset(groups, gi, false) + (if reference_probed(groups[gi]) { 1int } else { 0int })
        + member_probes(groups[gi].entries@.take(j), gi as usize).len()
}

/// The durations of group `gi` given the probes' answers, `probed[k]` answering
/// the `k`-th probe of the plan. A file that was not probed shows `-1`.
pub open spec fn expected_durations(
    groups: Seq<ListedGroup>,
    gi: int,
    hash: bool,
    probed: Seq<Option<i32>>,
) -> (i32, Seq<i32>) {
    let g = groups[gi];
    let o = plan_offset(groups, gi, hash);
    if hash {
        let v = if hash_probed(g) { probed_value(probed[o]) } else { -1i32 };
        (if g.reference is Some { v } else { -1i32 }, Seq::new(g.entries@.len(), |j: int| v))
    } else {
        let rc: int = if reference_probed(g) { 1 } else { 0 };
        (
            if reference_probed(g) { probed_value(probed[o]) } else { -1i32 },
            Seq::new(
                g.entries@.len(),
                |j: int|
                    if listed_video(g.entries@[j]) {
                        probed_value(probed[o + rc + member_probes(g.entries@.take(j), gi as usize).len()])
                    } else {
                        -1i32
                    },
            ),
        )
    }
}

/// The file at a position of the listing, if there is one there.
pub open spec fn entry_file(groups: Seq<ListedGroup>, e: EntryRef) -> Option<ListedFile> {
    match e {
        EntryRef::Reference(g) => if g < groups.len() { groups[g as int].reference } else { None },
        EntryRef::Member(g, j) => if g < groups.len() && j < groups[g as int].entries@.len() {
            Some(groups[g as int].entries@[j as int])
        } else {
            None
        },
    }
}

/// Whether a listed file is a video, by its extension.
pub fn listed_is_video(f: &ListedFile) -> (r: bool)
    ensures
        r == listed_video(*f),
{
    match &f.extension {
        Some(e) => is_video_file(Some(e.as_str())),
        None => is_video_file(None),
    }
}

proof fn lemma_plan_step(groups: Seq<ListedGroup>, gi: int, hash: bool)
    requires
        0 <= gi < groups.len(),
    ensures
        probe_plan(groups.take(gi + 1), hash) == probe_plan(groups.take(gi), hash) + group_probes(
            groups[gi],
            gi as usize,
            hash,
        ),
{
    assert(groups.take(gi + 1).drop_last() =~= groups.take(gi));
}

proof fn lemma_members_step(files: Seq<ListedFile>, j: int, gi: usize)
    requires
        0 <= j < files.len(),
    ensures
        member_probes(files.take(j + 1), gi) == member_probes(files.take(j), gi) + if listed_video(
            files[j],
        ) {
            seq![EntryRef::Member(gi, j as usize)]
        } else {
            seq![]
        },
{
    assert(files.take(j + 1).drop_last() =~= files.take(j));
}

proof fn lemma_member_probes_prefix(files: Seq<ListedFile>, j: int, gi: usize)
    requires
        0 <= j <= files.len(),
    ensures
        member_probes(files.take(j), gi).len() <= member_probes(files, gi).len(),
    decreases files.len() - j,
{
    if j < files.len() {
        lemma_members_step(files, j, gi);
        lemma_member_probes_prefix(files, j + 1, gi);
    } else {
        assert(files.take(j) =~= files);
    }
}

proof fn lemma_plan_monotone(groups: Seq<ListedGroup>, i: int, j: int, hash: bool)
    requires
        0 <= i <= j <= groups.len(),
    ensures
        plan_offset(groups, i, hash) <= plan_offset(groups, j, hash),
    decreases j - i,
{
    if i < j {
        lemma_plan_step(groups, j - 1, hash);
        lemma_plan_monotone(groups, i, j - 1, hash);
    }
}

proof fn lemma_first_video_from(files: Seq<ListedFile>, j: int)
    requires
        0 <= j,
    ensures
        first_video_from(files, j) matches Some(k) ==> j <= k < files.len() && listed_video(files[k]),
    decreases files.len() - j,
{
    if j < files.len() && !listed_video(files[j]) {
        lemma_first_video_from(files, j + 1);
    }
}

proof fn lemma_member_probes_are_videos(files: Seq<ListedFile>, gi: usize, k: int)
    requires
        files.len() <= usize::MAX,
        0 <= k < member_probes(files, gi).len(),
    ensures
        member_probes(files, gi)[k] matches EntryRef::Member(g, j) && g == gi && j < files.len()
            && listed_video(files[j as int]),
    decreases files.len(),
{
    let n = files.len();
    let prefix = member_probes(files.drop_last(), gi);
    let all = member_probes(files, gi);
    if k < prefix.len() {
        lemma_member_probes_are_videos(files.drop_last(), gi, k);
        assert(all[k] == prefix[k]);
        if let EntryRef::Member(g, j) = prefix[k] {
            assert(files.drop_last()[j as int] == files[j as int]);
        }
    } else {
        assert(all[k] == EntryRef::Member(gi, (n - 1) as usize));
    }
}

proof fn lemma_member_probes_prefix_entries(files: Seq<ListedFile>, j: int, gi: usize, k: int)
    requires
        0 <= j <= files.len(),
        0 <= k < member_probes(files.take(j), gi).len(),
    ensures
        k < member_probes(files, gi).len(),
        member_probes(files, gi)[k] == member_probes(files.take(j), gi)[k],
    decreases files.len() - j,
{
    if j < files.len() {
        lemma_members_step(files, j, gi);
        lemma_member_probes_prefix_entries(files, j + 1, gi, k);
    } else {
        assert(files.take(j) =~= files);
    }
}

proof fn lemma_plan_prefix_entries(groups: Seq<ListedGroup>, i: int, hash: bool, k: int)
    requires
        0 <= i <= groups.len(),
        0 <= k < probe_plan(groups.take(i), hash).len(),
    ensures
        k < probe_plan(groups, hash).len(),
        probe_plan(groups, hash)[k] == probe_plan(groups.take(i), hash)[k],
    decreases groups.len() - i,
{
    if i < groups.len() {
        lemma_plan_step(groups, i, hash);
        lemma_plan_prefix_entries(groups, i + 1, hash, k);
    } else {
        assert(groups.take(i) =~= groups);
    }
}

/// Every probe of the plan names a video file of the listing: in Hash mode the
/// reference file of its group when that is a video, else its first member that
/// is one; otherwise the file itself.
pub proof fn lemma_plan_probes_videos(groups: Seq<ListedGroup>, hash: bool, k: int)
    requires
        groups.len() <= usize::MAX,
        0 <= k < probe_plan(groups, hash).len(),
    ensures
        entry_file(groups, probe_plan(groups, hash)[k]) matches Some(f) && listed_video(f),
    decreases groups.len(),
{
    let n = groups.len();
    let rest = groups.drop_last();
    let prefix = probe_plan(rest, hash);
    let g = groups.last();
    let gi = (n - 1) as usize;
    if k < prefix.len() {
        lemma_plan_probes_videos(rest, hash, k);
        let e = prefix[k];
        match e {
            EntryRef::Reference(x) => {
                assert(groups[x as int] == rest[x as int]);
            },
            EntryRef::Member(x, y) => {
                assert(groups[x as int] == rest[x as int]);
            },
        }
    } else {
        let kk = k - prefix.len();
        assert(g.entries.len() == g.entries@.len());
        lemma_first_video_from(g.entries@, 0);
        if !hash && !reference_probed(g) || !hash && reference_probed(g) && kk >= 1 {
            let off: int = if reference_probed(g) { 1 } else { 0 };
            lemma_member_probes_are_videos(g.entries@, gi, kk - off);
        }
    }
}

/// At most one file per group is probed in Hash mode.
pub proof fn lemma_hash_plan_one_probe_per_group(groups: Seq<ListedGroup>)
    ensures
        probe_plan(groups, true).len() <= groups.len(),
    decreases groups.len(),
{
    if groups.len() > 0 {
        lemma_hash_plan_one_probe_per_group(groups.drop_last());
    }
}

/// In Hash mode every file of a group shows one and the same duration.
pub proof fn lemma_hash_group_shares_duration(
    groups: Seq<ListedGroup>,
    gi: int,
    probed: Seq<Option<i32>>,
    j: int,
    k: int,
)
    requires
        0 <= gi < groups.len(),
        0 <= j < groups[gi].entries@.len(),
        0 <= k < groups[gi].entries@.len(),
    ensures
        expected_durations(groups, gi, true, probed).1[j] == expected_durations(groups, gi, true, probed).1[k],
        groups[gi].reference is Some ==> expected_durations(groups, gi, true, probed).0
            == expected_durations(groups, gi, true, probed).1[j],
{
}

/// The duration shown for a file is the answer of the probe made for it: in
/// Hash mode the probe of its group, otherwise its own probe; a file no probe
/// was made for shows `-1`.
pub proof fn lemma_duration_answers_its_probe(
    groups: Seq<ListedGroup>,
    gi: int,
    hash: bool,
    probed: Seq<Option<i32>>,
)
    requires
        groups.len() <= usize::MAX,
        0 <= gi < groups.len(),
        probed.len() == probe_plan(groups, hash).len(),
    ensures
        hash && hash_probed(groups[gi]) ==> {
            let k = plan_offset(groups, gi, hash);
            &&& 0 <= k < probe_plan(groups, hash).len()
            &&& probe_plan(groups, hash)[k] == hash_probe_ref(groups[gi], gi as usize)
            &&& forall|j: int|
                0 <= j < groups[gi].entries@.len() ==> #[trigger] expected_durations(
                    groups,
                    gi,
                    hash,
                    probed,
                ).1[j] == probed_value(probed[k])
            &&& groups[gi].reference is Some ==> expected_durations(groups, gi, hash, probed).0
                == probed_value(probed[k])
        },
        hash && !hash_probed(groups[gi]) ==> expected_durations(groups, gi, hash, probed).0 == -1
            && forall|j: int|
            0 <= j < groups[gi].entries@.len() ==> #[trigger] expected_durations(
                groups,
                gi,
                hash,
                probed,
            ).1[j] == -1,
        !hash && reference_probed(groups[gi]) ==> {
            let k = plan_offset(groups, gi, hash);
            &&& 0 <= k < probe_plan(groups, hash).len()
            &&& probe_plan(groups, hash)[k] == EntryRef::Reference(gi as usize)
            &&& expected_durations(groups, gi, hash, probed).0 == probed_value(probed[k])
        },
        !hash && !reference_probed(groups[gi]) ==> expected_durations(groups, gi, hash, probed).0 == -1,
        !hash ==> forall|j: int|
            0 <= j < groups[gi].entries@.len() && listed_video(groups[gi].entries@[j]) ==> {
                let k = member_probe_index(groups, gi, j);
                &&& 0 <= k < probe_plan(groups, hash).len()
                &&& probe_plan(groups, hash)[k] == EntryRef::Member(gi as usize, j as usize)
                &&& #[trigger] expected_durations(groups, gi, hash, probed).1[j] == probed_value(probed[k])
            },
        !hash ==> forall|j: int|
            0 <= j < groups[gi].entries@.len() && !listed_video(groups[gi].entries@[j])
                ==> #[trigger] expected_durations(groups, gi, hash, probed).1[j] == -1,
{
    let g = groups[gi];
    let plan = probe_plan(groups, hash);
    let o = plan_offset(groups, gi, hash);
    let gu = gi as usize;
    assert(g.entries.len() == g.entries@.len());
    lemma_plan_step(groups, gi, hash);
    let local = probe_plan(groups.take(gi + 1), hash);
    if hash && hash_probed(g) {
        lemma_plan_prefix_entries(groups, gi + 1, hash, o);
        assert(plan[o] == hash_probe_ref(g, gu));
    }
    if !hash && reference_probed(g) {
        lemma_plan_prefix_entries(groups, gi + 1, hash, o);
        assert(plan[o] == EntryRef::Reference(gu));
    }
    if !hash {
        let rc: int = if reference_probed(g) { 1 } else { 0 };
        assert forall|j: int|
            #![trigger listed_video(g.entries@[j])]
            0 <= j < g.entries@.len() && listed_video(g.entries@[j]) implies {
                let k = member_probe_index(groups, gi, j);
                &&& 0 <= k < plan.len()
                &&& plan[k] == EntryRef::Member(gu, j as usize)
                &&& expected_durations(groups, gi, hash, probed).1[j] == probed_value(probed[k])
            } by {
            let m = member_probes(g.entries@.take(j), gu).len() as int;
            lemma_members_step(g.entries@, j, gu);
            lemma_member_probes_prefix_entries(g.entries@, j + 1, gu, m);
            let k = o + rc + m;
            assert(local[k] == EntryRef::Member(gu, j as usize));
            lemma_plan_prefix_entries(groups, gi + 1, hash, k);
        }
        assert forall|j: int|
            0 <= j < g.entries@.len() && !listed_video(g.entries@[j]) implies #[trigger] expected_durations(
                groups,
                gi,
                hash,
                probed,
            ).1[j] == -1 by {}
    }
}

/// The duration a probe's answer stands for: `-1` when it gave none.
pub fn probed_duration(p: Option<i32>) -> (r: i32)
    ensures
        r == probed_value(p),
{
    match p {
        Some(d) => d,
        None => -1,
    }
}

/// The duration of every listed file, from the answers to the probes of
/// `video_probe_plan`: `probed[k]` answers its `k`-th probe.
pub fn collect_video_durations(
    groups: &Vec<ListedGroup>,
    method: CheckMethod,
    probed: &Vec<Option<i32>>,
) -> (r: Vec<GroupDurations>)
    requires
        probed@.len() == probe_plan(groups@, method is Hash).len(),
    ensures
        r@.len() == groups@.len(),
        forall|gi: int|
            0 <= gi < groups@.len() ==> ((#[trigger] r@[gi]).reference, r@[gi].entries@)
                == expected_durations(groups@, gi, method is Hash, probed@),
{
    let hash = matches!(method, CheckMethod::Hash);
    let mut out: Vec<GroupDurations> = Vec::new();
    let mut k: usize = 0;
    let mut gi: usize = 0;
    proof {
        assert(groups@.take(groups@.len() as int) =~= groups@);
        assert(groups@.take(0) =~= Seq::<ListedGroup>::empty());
    }
    while gi < groups.len()
        invariant
            gi <= groups.len(),
            hash == (method is Hash),
            probed@.len() == probe_plan(groups@, hash).len(),
            groups@.take(groups@.len() as int) == groups@,
            k == plan_offset(groups@, gi as int, hash),
            out@.len() == gi,
            forall|i: int|
                0 <= i < gi ==> ((#[trigger] out@[i]).reference, out@[i].entries@)
                    == expected_durations(groups@, i, hash, probed@),
        decreases groups.len() - gi,
    {
        proof {
            lemma_plan_step(groups@, gi as int, hash);
            lemma_plan_monotone(groups@, gi as int + 1, groups@.len() as int, hash);
        }
        let g = &groups[gi];
        let ghost o = k as int;
        let ghost expected = expected_durations(groups@, gi as int, hash, probed@);
        if hash {
            let mut v: i32 = -1;
            if hash_probe(g, gi).is_some() {
                assert(k < probed.len());
                v = probed_duration(probed[k]);
                k = k + 1;
            }
            let reference = if g.reference.is_some() { v } else { -1 };
            let mut entries: Vec<i32> = Vec::new();
            let mut j: usize = 0;
            while j < g.entries.len()
                invariant
                    j <= g.entries.len(),
                    entries@ == Seq::new(j as nat, |jj: int| v),
                decreases g.entries.len() - j,
            {
                entries.push(v);
                j = j + 1;
                assert(entries@ =~= Seq::new(j as nat, |jj: int| v));
            }
            assert(entries@ =~= expected.1);
            out.push(GroupDurations { reference, entries });
        } else {
            let mut reference: i32 = -1;
            if let Some(r) = &g.reference {
                if listed_is_video(r) {
                    assert(k < probed.len());
                    reference = probed_duration(probed[k]);
                    k = k + 1;
                }
            }
            let ghost rc: int = if reference_probed(*g) { 1 } else { 0 };
            assert(g.entries@.take(0) =~= Seq::<ListedFile>::empty());
            let mut entries: Vec<i32> = Vec::new();
            let mut j: usize = 0;
            while j < g.entries.len()
                invariant
                    j <= g.entries.len(),
                    g == groups@[gi as int],
                    !hash,
                    probed@.len() == probe_plan(groups@, hash).len(),
                    plan_offset(groups@, gi as int + 1, hash) <= probed@.len(),
                    plan_offset(groups@, gi as int + 1, hash) == o + rc
                        + member_probes(g.entries@, gi).len(),
                    rc == (if reference_probed(*g) { 1int } else { 0int }),
                    expected == expected_durations(groups@, gi as int, hash, probed@),
                    o == plan_offset(groups@, gi as int, hash),
                    k == o + rc + member_probes(g.entries@.take(j as int), gi).len(),
                    entries@.len() == j,
                    forall|jj: int| 0 <= jj < j ==> entries@[jj] == expected.1[jj],
                decreases g.entries.len() - j,
            {
                proof {
                    lemma_members_step(g.entries@, j as int, gi);
                    lemma_member_probes_prefix(g.entries@, j as int + 1, gi);
                }
                let mut d: i32 = -1;
                if listed_is_video(&g.entries[j]) {
                    assert(k < probed.len());
                    d = probed_duration(probed[k]);
                    k = k + 1;
                }
                entries.push(d);
                j = j + 1;
            }
            assert(g.entries@.take(g.entries@.len() as int) =~= g.entries@);
            assert(entries@ =~= expected.1);
            out.push(GroupDurations { reference, entries });
        }
        gi = gi + 1;
    }
    out
}

/// The probe of group `gi` in Hash mode, when the group holds a video.
fn hash_probe(g: &ListedGroup, gi: usize) -> (r: Option<EntryRef>)
    ensures
        hash_probed(*g) ==> r == Some(hash_probe_ref(*g, gi)),
        !hash_probed(*g) ==> r is None,
{
    if let Some(f) = &g.reference {
        if listed_is_video(f) {
            return Some(EntryRef::Reference(gi));
        }
    }
    let mut j: usize = 0;
    while j < g.entries.len()
        invariant
            j <= g.entries@.len(),
            !reference_probed(*g),
            first_video_from(g.entries@, 0) == first_video_from(g.entries@, j as int),
        decreases g.entries.len() - j,
    {
        if listed_is_video(&g.entries[j]) {
            return Some(EntryRef::Member(gi, j));
        }
        j = j + 1;
    }
    None
}

/// The files to probe for their duration, in the order the probes are to be
/// made.
pub fn video_probe_plan(groups: &Vec<ListedGroup>, method: CheckMethod) -> (r: Vec<EntryRef>)
    ensures
        r@ == probe_plan(groups@, method is Hash),
{
    let hash = matches!(method, CheckMethod::Hash);
    let mut plan: Vec<EntryRef> = Vec::new();
    let mut gi: usize = 0;
    while gi < groups.len()
        invariant
            gi <= groups.len(),
            hash == (method is Hash),
            plan@ == probe_plan(groups@.take(gi as int), hash),
        decreases groups.len() - gi,
    {
        proof {
            lemma_plan_step(groups@, gi as int, hash);
        }
        let g = &groups[gi];
        if hash {
            if let Some(e) = hash_probe(g, gi) {
                plan.push(e);
            }
        } else {
            if let Some(r) = &g.reference {
                if listed_is_video(r) {
                    plan.push(EntryRef::Reference(gi));
                }
            }
            let ghost base = plan@;
            assert(g.entries@.take(0) =~= Seq::<ListedFile>::empty());
            let mut j: usize = 0;
            while j < g.entries.len()
                invariant
                    j <= g.entries.len(),
                    g == groups@[gi as int],
                    plan@ == base + member_probes(g.entries@.take(j as int), gi),
                decreases g.entries.len() - j,
            {
                proof {
                    lemma_members_step(g.entries@, j as int, gi);
                }
                if listed_is_video(&g.entries[j]) {
                    plan.push(EntryRef::Member(gi, j));
                }
                j = j + 1;
            }
            assert(g.entries@.take(g.entries@.len() as int) =~= g.entries@);
        }
        gi = gi + 1;
    }
    assert(groups@.take(groups@.len() as int) =~= groups@);
    plan
}

} // verus!
