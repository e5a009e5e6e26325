//! Declarations of std types and functions that the library uses and that vstd
//! does not describe. Their contracts are trusted.

use std::path::PathBuf;
use core::time::Duration;
use vstd::prelude::*;

verus! {

/// `std::path::PathBuf`, carried through the library without being inspected.
#[verifier::external_type_specification]
#[verifier::external_body]
pub struct ExPathBuf(PathBuf);

/// `std::io::Error`, carried through the library without being inspected.
#[verifier::external_type_specification]
#[verifier::external_body]
pub struct ExIoError(std::io::Error);

/// `PathBuf::clone` gives back a path equal to the one cloned.
pub assume_specification[ <PathBuf as Clone>::clone ](p: &PathBuf) -> (r: PathBuf)
    ensures
        r == *p,
;

/// `Duration::clone` gives back the same duration (`Duration` is `Copy`).
pub assume_specification[ <Duration as Clone>::clone ](d: &Duration) -> (r: Duration)
    ensures
        r == *d,
;

} // verus!
