//! The two duplicate-finding engines: how each is configured from a scan
//! request, and how what each found becomes a scan result.
//!
//! The engines themselves run outside the library: the caller configures one
//! with the settings given here, lets it search, and hands back the groups it
//! found.

use std::path::PathBuf;
use core::time::Duration;
use vstd::prelude::*;
use crate::listing::CheckMethod;
use crate::types::{
    invalid_request_message, unix_seconds, modified_unix_seconds, DuplicateEngineError, DuplicateFile, DuplicateGroup,
    DuplicateScanRequest, DuplicateScanResult, Fingerprint,
};

verus! {

/// The hash function of a content comparison.
#[derive(Clone, Copy, Debug, PartialEq, Eq, Structural)]
pub enum HashKind {
    Blake3,
    Crc32,
    Xxh3,
}

/// The configuration of the czkawka duplicate finder for one scan.
#[derive(Debug)]
pub struct CzkawkaSettings {
    pub check_method: CheckMethod,
    pub hash_type: HashKind,
    pub use_prehash: bool,
    pub minimal_cache_file_size: u64,
    pub minimal_prehash_cache_file_size: u64,
    pub case_sensitive_name_comparison: bool,
    pub included_paths: Vec<PathBuf>,
    pub recursive_search: bool,
    pub minimal_file_size: u64,
    pub maximal_file_size: u64,
    pub exclude_other_filesystems: bool,
    pub hide_hard_links: bool,
    pub use_cache: bool,
}

/// The configuration of fclones' grouping for one scan.
#[derive(Debug)]
pub struct FclonesSettings {
    pub paths: Vec<PathBuf>,
    /// How deep to descend; `None` for no limit.
    pub depth: Option<usize>,
    pub hidden: bool,
    pub no_ignore: bool,
    pub min_size: u64,
    pub max_size: Option<u64>,
    pub cache: bool,
    pub one_fs: bool,
    pub match_links: bool,
    pub skip_content_hash: bool,
}

/// A file of a group found by fclones: its path, its length, and its metadata
/// when it could be read afterwards.
#[derive(Debug)]
pub struct FoundFile {
    pub path: PathBuf,
    pub len: u64,
    pub metadata: Option<Fingerprint>,
}

/// `s` configures czkawka's finder for `request`: a content comparison by
/// Blake3 hashes with a prehash, always caching, case-sensitive names, hard
/// links hidden, and the request's paths, depth, size bounds (no upper bound
/// meaning `u64::MAX`), file-system limit and cache use.
pub open spec fn czkawka_configured(request: DuplicateScanRequest, s: CzkawkaSettings) -> bool {
    &&& s.check_method is Hash
    &&& s.hash_type is Blake3
    &&& s.use_prehash
    &&& s.minimal_cache_file_size == 0
    &&& s.minimal_prehash_cache_file_size == 0
    &&& s.case_sensitive_name_comparison
    &&& s.included_paths@ == request.paths@
    &&& s.recursive_search == request.recursive
    &&& s.minimal_file_size == request.min_size
    &&& s.maximal_file_size == match request.max_size {
        Some(m) => m,
        None => u64::MAX,
    }
    &&& s.exclude_other_filesystems == request.one_file_system
    &&& s.hide_hard_links
    &&& s.use_cache == request.use_cache
}

/// `s` configures fclones for `request`: the request's paths, no depth limit
/// for a recursive scan and one level otherwise, hidden files included, ignore
/// files not read, the request's size bounds, cache use and file-system limit,
/// links not matched and contents hashed.
pub open spec fn fclones_configured(request: DuplicateScanRequest, s: FclonesSettings) -> bool {
    &&& s.paths@ == request.paths@
    &&& s.depth == if request.recursive { None } else { Some(1usize) }
    &&& s.hidden
    &&& s.no_ignore
    &&& s.min_size == request.min_size
    &&& s.max_size == request.max_size
    &&& s.cache == request.use_cache
    &&& s.one_fs == request.one_file_system
    &&& !s.match_links
    &&& !s.skip_content_hash
}

/// Both engines configured for one request look at the same files: the same
/// paths, the same depth, the same size bounds (czkawka writing "no upper
/// bound" as `u64::MAX`), the same file-system limit and cache use, and both
/// compare contents.
pub proof fn lemma_engines_configured_alike(
    request: DuplicateScanRequest,
    czkawka: CzkawkaSettings,
    fclones: FclonesSettings,
)
    requires
        czkawka_configured(request, czkawka),
        fclones_configured(request, fclones),
    ensures
        czkawka.included_paths@ == fclones.paths@,
        czkawka.recursive_search <==> fclones.depth is None,
        czkawka.minimal_file_size == fclones.min_size,
        czkawka.maximal_file_size == match fclones.max_size {
            Some(m) => m,
            None => u64::MAX,
        },
        czkawka.exclude_other_filesystems == fclones.one_fs,
        czkawka.use_cache == fclones.cache,
        czkawka.check_method is Hash && !fclones.skip_content_hash,
{
}

/// The modification time recorded for a file found by fclones: that of its
/// metadata, zero when it could not be read.
pub open spec fn found_modified_date(f: FoundFile) -> u64 {
    match f.metadata {
        Some(m) => unix_seconds(m.modified),
        None => 0,
    }
}

/// The groups of a result, each unverified and holding the given files.
pub open spec fn unverified_groups(groups: Seq<DuplicateGroup>, files: Seq<Vec<DuplicateFile>>) -> bool {
    &&& groups.len() == files.len()
    &&& forall|i: int|
        0 <= i < groups.len() ==> (#[trigger] groups[i]).files == files[i] && !groups[i].verified
}

/// A copy of the request's paths.
fn copy_paths(paths: &Vec<PathBuf>) -> (r: Vec<PathBuf>)
    ensures
        r@ == paths@,
{
    let r = paths.clone();
    assert(r@ =~= paths@);
    r
}

/// Wraps each found file list into an unverified group, in order.
fn unverified_from(found: Vec<Vec<DuplicateFile>>) -> (r: Vec<DuplicateGroup>)
    ensures
        unverified_groups(r@, found@),
{
    let ghost all = found@;
    let mut found = found;
    let mut groups: Vec<DuplicateGroup> = Vec::new();
    let mut i: usize = 0;
    while i < found.len()
        invariant
            found@.len() == all.len(),
            i <= all.len(),
            forall|k: int| i <= k < all.len() ==> #[trigger] found@[k] == all[k],
            unverified_groups(groups@, all.take(i as int)),
        decreases all.len() - i,
    {
        let mut files: Vec<DuplicateFile> = Vec::new();
        found.set_and_swap(i, &mut files);
        assert(files == all[i as int]);
        groups.push(DuplicateGroup::new(files));
        i = i + 1;
        assert forall|k: int| 0 <= k < groups@.len() implies (#[trigger] groups@[k]).files == all.take(
            i as int,
        )[k] && !groups@[k].verified by {
            if k < i - 1 {
                assert(all.take(i as int)[k] == all.take(i - 1)[k]);
            }
        }
    }
    assert(all.take(all.len() as int) =~= all);
    groups
}

/// The engine built on czkawka's duplicate finder.
pub struct CzkawkaEngine;

impl CzkawkaEngine {
    pub fn name(&self) -> (r: &'static str)
        ensures
            r@ == "czkawka"@,
    {
        "czkawka"
    }

    /// The finder's configuration for a request; an invalid request gets the
    /// error `validate` gives it.
    pub fn settings(&self, request: &DuplicateScanRequest) -> (r: Result<CzkawkaSettings, DuplicateEngineError>)
        ensures
            r is Ok <==> request.is_valid(),
            !request.is_valid() ==> (r matches Err(DuplicateEngineError::Configuration(m))
                && m@ == invalid_request_message(*request)),
            r matches Ok(s) ==> czkawka_configured(*request, s),
    {
        match request.validate() {
            Err(e) => Err(e),
            Ok(()) => Ok(
                CzkawkaSettings {
                    check_method: CheckMethod::Hash,
                    hash_type: HashKind::Blake3,
                    use_prehash: true,
                    minimal_cache_file_size: 0,
                    minimal_prehash_cache_file_size: 0,
                    case_sensitive_name_comparison: true,
                    included_paths: copy_paths(&request.paths),
                    recursive_search: request.recursive,
                    minimal_file_size: request.min_size,
                    maximal_file_size: match request.max_size {
                        Some(m) => m,
                        None => u64::MAX,
                    },
                    exclude_other_filesystems: request.one_file_system,
                    hide_hard_links: true,
                    use_cache: request.use_cache,
                },
            ),
        }
    }

    /// The scan result of the files the finder grouped by hash, each group
    /// unverified.
    pub fn scan_result(&self, found: Vec<Vec<DuplicateFile>>, elapsed: Duration) -> (r: DuplicateScanResult)
        ensures
            r.engine@ == "czkawka"@,
            unverified_groups(r.groups@, found@),
            r.elapsed == elapsed,
    {
        DuplicateScanResult { engine: self.name(), groups: unverified_from(found), elapsed }
    }
}

/// The engine built on fclones.
pub struct FclonesEngine;

impl FclonesEngine {
    pub fn name(&self) -> (r: &'static str)
        ensures
            r@ == "fclones"@,
    {
        "fclones"
    }

    /// fclones' configuration for a request; an invalid request gets the error
    /// `validate` gives it.
    pub fn settings(&self, request: &DuplicateScanRequest) -> (r: Result<FclonesSettings, DuplicateEngineError>)
        ensures
            r is Ok <==> request.is_valid(),
            !request.is_valid() ==> (r matches Err(DuplicateEngineError::Configuration(m))
                && m@ == invalid_request_message(*request)),
            r matches Ok(s) ==> fclones_configured(*request, s),
    {
        match request.validate() {
            Err(e) => Err(e),
            Ok(()) => Ok(
                FclonesSettings {
                    paths: copy_paths(&request.paths),
                    depth: if request.recursive { None } else { Some(1) },
                    hidden: true,
                    no_ignore: true,
                    min_size: request.min_size,
                    max_size: request.max_size,
                    cache: request.use_cache,
                    one_fs: request.one_file_system,
                    match_links: false,
                    skip_content_hash: false,
                },
            ),
        }
    }

    /// The file entry of a file fclones found.
    pub fn duplicate_file(file: FoundFile) -> (r: DuplicateFile)
        ensures
            r.path == file.path,
            r.size == file.len,
            r.modified_date == found_modified_date(file),
    {
        let modified_date = match file.metadata {
            Some(m) => modified_unix_seconds(m.modified),
            None => 0,
        };
        DuplicateFile { path: file.path, size: file.len, modified_date }
    }

    /// The scan result of fclones' grouping: its error, as an error of this
    /// engine, or its groups, each unverified, with every file's entry.
    pub fn scan_result(&self, found: Result<Vec<Vec<FoundFile>>, String>, elapsed: Duration) -> (r: Result<
        DuplicateScanResult,
        DuplicateEngineError,
    >)
        ensures
            found is Err ==> (r matches Err(DuplicateEngineError::Engine { engine, message })
                && engine@ == "fclones"@ && message == found->Err_0),
            found matches Ok(groups) ==> (r matches Ok(res) && res.engine@ == "fclones"@
                && res.elapsed == elapsed && res.groups@.len() == groups@.len()
                && forall|i: int|
                    0 <= i < groups@.len() ==> {
                        let g = #[trigger] res.groups@[i];
                        &&& !g.verified
                        &&& g.files@.len() == groups@[i]@.len()
                        &&& forall|j: int|
                            0 <= j < g.files@.len() ==> {
                                let f = #[trigger] g.files@[j];
                                let o = groups@[i]@[j];
                                f.path == o.path && f.size == o.len && f.modified_date
                                    == found_modified_date(o)
                            }
                    }),
    {
        let found = match found {
            Err(message) => return Err(DuplicateEngineError::engine(self.name(), message)),
            Ok(groups) => groups,
        };
        let ghost all = found@;
        let mut found = found;
        let mut groups: Vec<DuplicateGroup> = Vec::new();
        let mut i: usize = 0;
        while i < found.len()
            invariant
                found@.len() == all.len(),
                i <= all.len(),
                forall|k: int| i <= k < all.len() ==> #[trigger] found@[k] == all[k],
                groups@.len() == i,
                forall|k: int|
                    0 <= k < i ==> {
                        let g = #[trigger] groups@[k];
                        &&& !g.verified
                        &&& g.files@.len() == all[k]@.len()
                        &&& forall|j: int|
                            0 <= j < g.files@.len() ==> {
                                let f = #[trigger] g.files@[j];
                                let o = all[k]@[j];
                                f.path == o.path && f.size == o.len && f.modified_date
                                    == found_modified_date(o)
                            }
                    },
            decreases all.len() - i,
        {
            let mut group: Vec<FoundFile> = Vec::new();
            found.set_and_swap(i, &mut group);
            assert(group == all[i as int]);
            let ghost listed_files = group@;
            let mut files: Vec<DuplicateFile> = Vec::new();
            for file in it: group
                invariant
                    it.seq() == listed_files,
                    files@.len() == it.index(),
                    forall|jj: int|
                        0 <= jj < it.index() ==> {
                            let f = #[trigger] files@[jj];
                            let o = listed_files[jj];
                            f.path == o.path && f.size == o.len && f.modified_date
                                == found_modified_date(o)
                        },
            {
                files.push(Self::duplicate_file(file));
            }
            groups.push(DuplicateGroup::new(files));
            i = i + 1;
        }
        Ok(DuplicateScanResult { engine: self.name(), groups, elapsed })
    }
}

} // verus!
