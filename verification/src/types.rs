//! The request, file, group and result model shared by the engines and verifiers.

use std::path::PathBuf;
use core::time::Duration;
use vstd::prelude::*;
use vstd::string::*;
use crate::text::{decimal, push_decimal};

verus! {


/// A point in time as the file system reports it: its distance from the Unix
/// epoch and on which side of the epoch it lies (`after_epoch` holds for the
/// epoch itself).
#[derive(Clone, Copy, Debug, PartialEq, Eq, Structural)]
pub struct FileTime {
    pub after_epoch: bool,
    pub secs: u64,
    pub nanos: u32,
}

/// What is read from a file's metadata to notice a change: its length and its
/// modification time, when the platform reports one.
#[derive(Clone, Copy, Debug, PartialEq, Eq, Structural)]
pub struct Fingerprint {
    pub len: u64,
    pub modified: Option<FileTime>,
}

/// Whole seconds since the Unix epoch of a modification time; zero when there is
/// none or when it lies before the epoch.
pub open spec fn unix_seconds(modified: Option<FileTime>) -> u64 {
    match modified {
        Some(t) => if t.after_epoch { t.secs } else { 0 },
        None => 0,
    }
}

pub fn modified_unix_seconds(modified: Option<FileTime>) -> (r: u64)
    ensures
        r == unix_seconds(modified),
{
    match modified {
        Some(t) => if t.after_epoch { t.secs } else { 0 },
        None => 0,
    }
}

#[derive(Clone, Debug, Eq, PartialEq, Ord, PartialOrd)]
pub struct DuplicateFile {
    pub path: PathBuf,
    pub size: u64,
    pub modified_date: u64,
}

impl DuplicateFile {
    /// The file entry for `path`, from the metadata read for it.
    pub fn from_path(path: PathBuf, metadata: Fingerprint) -> (r: DuplicateFile)
        ensures
            r.path == path,
            r.size == metadata.len,
            r.modified_date == unix_seconds(metadata.modified),
    {
        DuplicateFile {
            size: metadata.len,
            modified_date: modified_unix_seconds(metadata.modified),
            path,
        }
    }
}

#[derive(Clone, Debug, Eq, PartialEq)]
pub struct DuplicateGroup {
    pub files: Vec<DuplicateFile>,
    /// `true` only after an exact byte-for-byte verification completed successfully.
    pub verified: bool,
}

impl DuplicateGroup {
    pub fn new(files: Vec<DuplicateFile>) -> (r: DuplicateGroup)
        ensures
            r.files == files,
            !r.verified,
    {
        DuplicateGroup { files, verified: false }
    }
}

#[derive(Clone, Debug)]
pub struct DuplicateScanRequest {
    pub paths: Vec<PathBuf>,
    pub recursive: bool,
    pub min_size: u64,
    pub max_size: Option<u64>,
    pub use_cache: bool,
    pub one_file_system: bool,
}

/// The message of a request whose size bounds are inverted.
pub open spec fn inverted_bounds_message(max_size: u64, min_size: u64) -> Seq<char> {
    "max_size ("@ + decimal(max_size as nat) + ") is smaller than min_size ("@ + decimal(min_size as nat)
        + ")"@
}

/// The message of the error an invalid request gets.
pub open spec fn invalid_request_message(request: DuplicateScanRequest) -> Seq<char> {
    if request.paths.len() == 0 {
        "no input paths supplied"@
    } else {
        match request.max_size {
            Some(mx) => inverted_bounds_message(mx, request.min_size),
            None => Seq::empty(),
        }
    }
}

impl DuplicateScanRequest {
    /// A recursive scan of `paths` that skips empty files, with no upper size
    /// bound, no cache and crossing file systems.
    pub fn for_paths(paths: Vec<PathBuf>) -> (r: DuplicateScanRequest)
        ensures
            r.paths == paths,
            r.recursive,
            r.min_size == 1,
            r.max_size is None,
            !r.use_cache,
            !r.one_file_system,
    {
        DuplicateScanRequest {
            paths,
            recursive: true,
            // fclones defaults to 1 byte and this also avoids treating every empty
            // file as a duplicate.
            min_size: 1,
            max_size: None,
            use_cache: false,
            one_file_system: false,
        }
    }

    /// A request is valid when it names at least one path and its upper size
    /// bound, if any, is not below the lower one.
    pub open spec fn is_valid(&self) -> bool {
        &&& self.paths.len() > 0
        &&& (self.max_size matches Some(m) ==> m >= self.min_size)
    }

    pub fn validate(&self) -> (r: Result<(), DuplicateEngineError>)
        ensures
            r is Ok <==> self.is_valid(),
            !self.is_valid() ==> (r matches Err(DuplicateEngineError::Configuration(m))
                && m@ == invalid_request_message(*self)),
            self.paths.len() == 0 ==> (r matches Err(DuplicateEngineError::Configuration(m))
                && m@ == "no input paths supplied"@),
            self.paths.len() > 0 ==> match self.max_size {
                Some(mx) => mx < self.min_size ==> (r matches Err(DuplicateEngineError::Configuration(m))
                    && m@ == inverted_bounds_message(mx, self.min_size)),
                None => true,
            },
    {
        if self.paths.len() == 0 {
            return Err(DuplicateEngineError::Configuration(String::from_str("no input paths supplied")));
        }
        if let Some(max_size) = self.max_size {
            if max_size < self.min_size {
                let mut m = String::from_str("max_size (");
                push_decimal(&mut m, max_size);
                m.append(") is smaller than min_size (");
                push_decimal(&mut m, self.min_size);
                m.append(")");
                return Err(DuplicateEngineError::Configuration(m));
            }
        }
        Ok(())
    }
}

#[derive(Clone, Debug)]
pub struct DuplicateScanResult {
    pub engine: &'static str,
    pub groups: Vec<DuplicateGroup>,
    pub elapsed: Duration,
}

/// Number of files over a sequence of groups.
pub open spec fn total_files(groups: Seq<DuplicateGroup>) -> int
    decreases groups.len(),
{
    if groups.len() == 0 {
        0
    } else {
        total_files(groups.drop_last()) + groups.last().files.len()
    }
}

/// Counting the files of a prefix never gives more than counting all of them.
pub proof fn lemma_total_files_prefix(groups: Seq<DuplicateGroup>, i: int)
    requires
        0 <= i <= groups.len(),
    ensures
        0 <= total_files(groups.take(i)) <= total_files(groups),
    decreases groups.len(),
{
    if groups.len() > 0 {
        if i == groups.len() {
            assert(groups.take(i) =~= groups);
            lemma_total_files_prefix(groups.drop_last(), i - 1);
            assert(groups.drop_last().take(i - 1) =~= groups.drop_last());
        } else {
            lemma_total_files_prefix(groups.drop_last(), i);
            assert(groups.drop_last().take(i) =~= groups.take(i));
            lemma_total_files_prefix(groups.drop_last(), groups.len() - 1);
            assert(groups.drop_last().take(groups.len() - 1) =~= groups.drop_last());
        }
    }
}

impl DuplicateScanResult {
    /// Number of files over all groups.
    pub fn file_count(&self) -> (r: usize)
        requires
            total_files(self.groups@) <= usize::MAX,
        ensures
            r == total_files(self.groups@),
    {
        let mut count: usize = 0;
        let mut i: usize = 0;
        while i < self.groups.len()
            invariant
                i <= self.groups.len(),
                count == total_files(self.groups@.take(i as int)),
                total_files(self.groups@) <= usize::MAX,
            decreases self.groups.len() - i,
        {
            proof {
                lemma_total_files_prefix(self.groups@, i + 1);
                assert(self.groups@.take(i + 1).drop_last() =~= self.groups@.take(i as int));
            }
            count = count + self.groups[i].files.len();
            i = i + 1;
        }
        assert(self.groups@.take(i as int) =~= self.groups@);
        count
    }
}

#[derive(Debug)]
pub enum DuplicateEngineError {
    Configuration(String),
    Io(std::io::Error),
    Engine { engine: &'static str, message: String },
}

impl DuplicateEngineError {
    /// The error of a named engine, carrying the text of the engine's own error.
    pub fn engine(engine: &'static str, message: String) -> (r: DuplicateEngineError)
        ensures
            r matches DuplicateEngineError::Engine { engine: e, message: m } && e == engine && m == message,
    {
        DuplicateEngineError::Engine { engine, message }
    }

    /// The text shown for the error.
    pub fn message(&self) -> (r: String)
        ensures
            self matches DuplicateEngineError::Configuration(m) ==> r@
                == "invalid duplicate-engine configuration: "@ + m@,
            self matches DuplicateEngineError::Engine { engine, message } ==> r@ == engine@
                + " duplicate engine failed: "@ + message@,
            self matches DuplicateEngineError::Io(e) ==> exists|t: String|
                to_string_from_display_ensures::<std::io::Error>(&e, t) && r@ == "duplicate-engine I/O error: "@
                    + t@,
    {
        match self {
            DuplicateEngineError::Configuration(m) => {
                let mut r = String::from_str("invalid duplicate-engine configuration: ");
                r.append(m.as_str());
                r
            },
            DuplicateEngineError::Io(e) => {
                let t = e.to_string();
                let mut r = String::from_str("duplicate-engine I/O error: ");
                r.append(t.as_str());
                r
            },
            DuplicateEngineError::Engine { engine, message } => {
                let mut r = String::from_str(engine);
                r.append(" duplicate engine failed: ");
                r.append(message.as_str());
                r
            },
        }
    }
}

impl From<std::io::Error> for DuplicateEngineError {
    fn from(value: std::io::Error) -> (r: Self) {
        DuplicateEngineError::Io(value)
    }
}

impl vstd::std_specs::convert::FromSpecImpl<std::io::Error> for DuplicateEngineError {
    open spec fn obeys_from_spec() -> bool {
        true
    }

    open spec fn from_spec(v: std::io::Error) -> Self {
        DuplicateEngineError::Io(v)
    }
}

} // verus!
