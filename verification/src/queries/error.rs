use vstd::prelude::*;

verus! {

/// Why a query could not get at what it asked for.
#[derive(Debug, PartialEq, Eq, Clone, Copy, Structural)]
pub enum FetchError {
    /// No archetype has the given id, or none has all requested component
    /// types.
    ArchetypeMissing,
    /// The archetype has no column of the requested component type.
    ComponentMissing,
    /// A component type is requested twice, and at least once for writing.
    ConflictingAccess,
}

impl FetchError {
    /// The error in words.
    pub open spec fn text(self) -> Seq<char> {
        match self {
            FetchError::ArchetypeMissing => "No archetype has the requested components"@,
            FetchError::ComponentMissing => "Archetype does not contain the requested component"@,
            FetchError::ConflictingAccess => {
                "A component is requested twice, and at least once for writing"@
            },
        }
    }

    /// The error in words.
    pub fn message(&self) -> (text: String)
        ensures
            text@ == self.text(),
    {
        match self {
            FetchError::ArchetypeMissing => String::from_str(
                "No archetype has the requested components",
            ),
            FetchError::ComponentMissing => String::from_str(
                "Archetype does not contain the requested component",
            ),
            FetchError::ConflictingAccess => String::from_str(
                "A component is requested twice, and at least once for writing",
            ),
        }
    }
}

} // verus!
