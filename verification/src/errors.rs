use vstd::prelude::*;

verus! {

/// The error kinds of the library.
///
/// Construction-time configuration errors surface immediately; per-entry
/// traversal failures are reported alongside successful entries rather than
/// aborting; root-level lookup failures abort the operation that needed them.
#[derive(Clone, Copy, PartialEq, Eq, Structural, Debug)]
pub enum ShowError {
    /// Current-directory or root lookup failed: fatal to the operation.
    IoError,
    /// One entry could not be read during a walk: reported once, not fatal.
    EntryUnreadable,
    /// No executable candidate was accepted.
    NotFound,
    /// Conflicting filter bounds, such as a minimum depth above the maximum.
    InvalidConfiguration,
}

impl ShowError {
    /// A short human-readable description of the error kind.
    pub fn describe(&self) -> (r: String)
        ensures
            self is IoError ==> r@ == "i/o error"@,
            self is EntryUnreadable ==> r@ == "entry unreadable"@,
            self is NotFound ==> r@ == "not found"@,
            self is InvalidConfiguration ==> r@ == "invalid configuration"@,
    {
        match self {
            ShowError::IoError => String::from_str("i/o error"),
            ShowError::EntryUnreadable => String::from_str("entry unreadable"),
            ShowError::NotFound => String::from_str("not found"),
            ShowError::InvalidConfiguration => String::from_str("invalid configuration"),
        }
    }
}

} // verus!
