//! What the walker reports to the operator's log.

use vstd::prelude::*;

verus! {

/// How serious a notice is.
#[derive(Clone, Copy, PartialEq, Eq, Structural, Debug)]
pub enum Severity {
    Debug,
    Info,
    Warning,
    Error,
}

/// One record for the log. The directory it concerns is the one being
/// visited; an `index` is a position in that directory's listing.
#[derive(Clone, Copy, PartialEq, Eq, Debug)]
pub enum Notice {
    /// The test for the manifest failed; the directory counts as no project.
    ManifestCheckFailed,
    /// Whether the directory counts as a project.
    ManifestChecked { found: bool },
    /// The clean command ran and exited with status zero.
    Cleaned,
    /// The clean command ran and did not exit with status zero. The code is
    /// absent where the command was ended by a signal.
    CleanFailed { code: Option<i32> },
    /// The clean command could not be launched.
    CleanNotLaunched,
    /// The directory could not be listed; nothing below it is visited.
    ListingFailed,
    /// The entry at `index` could not be read; it is passed over.
    EntryUnreadable { index: usize },
    /// The type of the entry at `index` could not be found out; it is passed
    /// over.
    EntryTypeUnknown { index: usize },
}

impl Notice {
    /// The severity each notice is logged at.
    pub open spec fn spec_severity(self) -> Severity {
        match self {
            Notice::ManifestCheckFailed => Severity::Warning,
            Notice::ManifestChecked { .. } => Severity::Debug,
            Notice::Cleaned => Severity::Info,
            Notice::CleanFailed { .. } => Severity::Warning,
            Notice::CleanNotLaunched => Severity::Warning,
            Notice::ListingFailed => Severity::Warning,
            Notice::EntryUnreadable { .. } => Severity::Error,
            Notice::EntryTypeUnknown { .. } => Severity::Error,
        }
    }

    #[verifier::when_used_as_spec(spec_severity)]
    pub fn severity(self) -> (level: Severity)
        ensures
            level == self.spec_severity(),
    {
        match self {
            Notice::ManifestCheckFailed => Severity::Warning,
            Notice::ManifestChecked { .. } => Severity::Debug,
            Notice::Cleaned => Severity::Info,
            Notice::CleanFailed { .. } => Severity::Warning,
            Notice::CleanNotLaunched => Severity::Warning,
            Notice::ListingFailed => Severity::Warning,
            Notice::EntryUnreadable { .. } => Severity::Error,
            Notice::EntryTypeUnknown { .. } => Severity::Error,
        }
    }
}

} // verus!
