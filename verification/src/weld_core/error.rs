//! What can go wrong while linking.

use vstd::prelude::*;

verus! {

/// A finding of the linker. Only [`WeldError::UnhandledRelocation`] leaves
/// the link standing; every other finding means that no executable is made.
#[derive(Debug, PartialEq, Eq)]
pub enum WeldError {
    /// The object at this path has no `.text` section.
    MissingText(String),
    /// A relocation refers to this symbol, and no object defines it.
    UndefinedSymbol(String),
    /// A relocation of the object at `path` has a type that the linker does
    /// not apply. The text is left as it was at that place.
    UnhandledRelocation { relo_type: u64, path: String },
    /// A relocation of the object at `path` is to be applied at `offset` in
    /// the object's text, and the four bytes from there on do not lie inside
    /// the text.
    PatchOutOfBounds { path: String, offset: u64 },
    /// The displacement from the place `at` in the merged text to `symbol`
    /// does not fit in 32 bits.
    RelocationOverflow { symbol: String, at: usize },
    /// No object defines `_start`.
    MissingEntryPoint,
    /// An address or a file offset of the executable does not fit in 64 bits.
    AddressOverflow,
}

/// What a [`WeldError`] holds.
pub enum WeldErrorView {
    MissingText(Seq<char>),
    UndefinedSymbol(Seq<char>),
    UnhandledRelocation { relo_type: u64, path: Seq<char> },
    PatchOutOfBounds { path: Seq<char>, offset: u64 },
    RelocationOverflow { symbol: Seq<char>, at: usize },
    MissingEntryPoint,
    AddressOverflow,
}

impl View for WeldError {
    type V = WeldErrorView;

    open spec fn view(&self) -> WeldErrorView {
        match self {
            WeldError::MissingText(path) => WeldErrorView::MissingText(path@),
            WeldError::UndefinedSymbol(name) => WeldErrorView::UndefinedSymbol(name@),
            WeldError::UnhandledRelocation { relo_type, path } => {
                WeldErrorView::UnhandledRelocation { relo_type: *relo_type, path: path@ }
            },
            WeldError::PatchOutOfBounds { path, offset } => {
                WeldErrorView::PatchOutOfBounds { path: path@, offset: *offset }
            },
            WeldError::RelocationOverflow { symbol, at } => {
                WeldErrorView::RelocationOverflow { symbol: symbol@, at: *at }
            },
            WeldError::MissingEntryPoint => WeldErrorView::MissingEntryPoint,
            WeldError::AddressOverflow => WeldErrorView::AddressOverflow,
        }
    }
}

impl WeldErrorView {
    /// Whether the finding leaves the link standing.
    pub open spec fn is_warning(self) -> bool {
        self is UnhandledRelocation
    }
}

impl WeldError {
    /// Whether the finding leaves the link standing.
    pub fn is_warning(&self) -> (warning: bool)
        ensures
            warning == self@.is_warning(),
    {
        match self {
            WeldError::UnhandledRelocation { .. } => true,
            _ => false,
        }
    }
}

} // verus!
