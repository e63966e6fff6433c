use vstd::prelude::*;

verus! {

/// Why a widget operation did not take effect.
#[derive(Debug)]
pub enum WidgetError {
    /// The id is already taken by another entry.
    DuplicateId,
    /// The native surface could not be created; the text is the platform's.
    WindowCreationFailure(String),
}

} // verus!
