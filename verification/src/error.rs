//! Failure conditions of the pipeline's core, and the context-attaching
//! helper the surrounding shell uses for its own I/O failures.
use vstd::prelude::*;

verus! {

/// Why a preset document could not be interpreted.
#[derive(Debug, Clone, Copy, PartialEq, Eq, Structural)]
pub enum Reason {
    /// The preset contains no mods or is invalid.
    NoMatches,
    /// The display-name cell of the row at this index is missing.
    DisplayNameSelector(usize),
    /// The workshop link of the row at this index is missing or malformed.
    LinkSelector(usize),
    /// Neither supported game's marker is present.
    UnknownType,
}

/// A failure of the reconciliation pipeline.
#[derive(Debug, PartialEq, Eq)]
pub enum Error {
    /// The preset document could not be interpreted.
    PresetParsingFailed(Reason),
    /// A matched pair disagreed on the display name (preset name first,
    /// manifest name second); recoverable, the manifest name wins.
    ConflictingDisplayNames(String, String),
    /// Preset entries whose ids the manifest lacks, as (name, id) pairs.
    UnknownMods(Vec<(String, u64)>),
    /// A manifest display name contains the reserved output separator and
    /// cannot be represented in the name-list payload.
    ModNameContainsSemicolon(String),
    /// The user cancelled; a control outcome, not an error to report.
    Termination,
}

impl Error {
    /// Whether this outcome is reported to the user: everything except a
    /// user-initiated termination.
    pub fn should_show(&self) -> (r: bool)
        ensures
            r == !(*self matches Error::Termination),
    {
        !matches!(self, Error::Termination)
    }
}

/// Attaches a static description to a failure, as the surrounding shell
/// does with its file-system errors.
pub trait Contextualize {
    type Output;

    fn context(self, ctx: &'static str) -> Self::Output;
}

} // verus!
