//! What a note is made of.

use vstd::prelude::*;
use std::path::PathBuf;

verus! {

/// Paths are carried through the library as opaque values.
#[verifier::external_type_specification]
#[verifier::external_body]
pub struct ExPathBuf(PathBuf);

/// `PathBuf::clone`: nothing is claimed of the copy.
pub assume_specification[ <PathBuf as Clone>::clone ](p: &PathBuf) -> PathBuf;

/// An image that a note links to.
#[derive(Debug, Clone, PartialEq, Eq)]
pub struct NoteImage {
    pub alt: String,
    pub href: String,
    pub resolved: Option<PathBuf>,
}

/// One block of a note's body, in reading order.
#[derive(Debug, Clone, PartialEq, Eq)]
pub enum NoteBlock {
    Markdown(String),
    Image { href: String, alt: String, resolved: Option<PathBuf> },
    Formula(String),
}

/// A note of the vault.
#[derive(Debug, Clone, PartialEq, Eq)]
pub struct Note {
    pub path: PathBuf,
    pub title: String,
    pub tags: Vec<String>,
    pub blocks: Vec<NoteBlock>,
    pub images: Vec<NoteImage>,
}

} // verus!
