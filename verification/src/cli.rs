//! Command-line arguments of the conversion tool: the authored source
//! file and the optional output destination.
use vstd::prelude::*;

use std::path::PathBuf;

verus! {

/// Declares `std::path::PathBuf` to the verifier.  Relies on
/// `std::path::PathBuf` being an ordinary owned type; values of it are
/// only carried through, never inspected.
#[verifier::external_type_specification]
#[verifier::external_body]
pub struct ExPathBuf(PathBuf);

/// The parsed command line: where the authored file lives and where the
/// converted output goes.  When `dist` is absent the caller falls back to
/// the source file's directory.
pub struct Cli {
    pub source: PathBuf,
    pub dist: Option<PathBuf>,
}

impl Cli {
    /// The authored source file.
    pub fn source(&self) -> (r: &PathBuf)
        ensures
            r == &self.source,
    {
        &self.source
    }

    /// The output destination, if one was given.
    pub fn dist(&self) -> (r: Option<&PathBuf>)
        ensures
            r is Some <==> self.dist is Some,
            r is Some ==> r->0 == self.dist->0,
    {
        self.dist.as_ref()
    }
}

} // verus!
