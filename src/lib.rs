use vstd::prelude::*;

pub mod cli;
pub mod codec;
pub mod scrape;
pub mod manifest;
pub mod document;

verus! {

/// Everything that can stop a command of this library.
#[derive(Debug, Clone, Copy, PartialEq, Eq, Structural)]
pub enum ModError {
    TransportError,
    ExtractionFailed,
    MalformedIdentifier,
    ManifestNotFound,
    ManifestMalformed,
    WriteError,
    SelectionCancelled,
    DuplicateEntry,
}

} // verus!
