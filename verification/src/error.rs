//! The failures of compiling and loading.

use vstd::prelude::*;

verus! {

/// Why a package could not be compiled or loaded.
#[derive(Clone, Debug, PartialEq, Eq)]
pub enum AppearanceError {
    /// A spritesheet does not have the dimensions that its frame group asks for.
    DimensionMismatch {
        appearance: String,
        frame_group: String,
        expected_width: u64,
        expected_height: u64,
        actual_width: u32,
        actual_height: u32,
    },
    /// A spritesheet or a sprite file is not there.
    AssetNotFound { path: String },
    /// The pixels of a sprite file do not decompress, or not to the length
    /// that its dimensions ask for.
    CorruptSprite,
    /// The data ends before the value that is being read.
    Truncated,
    /// A name in the index is not valid UTF-8.
    InvalidUtf8,
    /// The compressor failed.
    Io,
    /// The authoring model cannot be compiled as it stands.
    InvalidData(String),
}

/// What an [`AppearanceError`] says.
pub enum ErrorView {
    DimensionMismatch {
        appearance: Seq<char>,
        frame_group: Seq<char>,
        expected_width: u64,
        expected_height: u64,
        actual_width: u32,
        actual_height: u32,
    },
    AssetNotFound { path: Seq<char> },
    CorruptSprite,
    Truncated,
    InvalidUtf8,
    Io,
    InvalidData(Seq<char>),
}

impl View for AppearanceError {
    type V = ErrorView;

    open spec fn view(&self) -> ErrorView {
        match self {
            AppearanceError::DimensionMismatch {
                appearance,
                frame_group,
                expected_width,
                expected_height,
                actual_width,
                actual_height,
            } => ErrorView::DimensionMismatch {
                appearance: appearance@,
                frame_group: frame_group@,
                expected_width: *expected_width,
                expected_height: *expected_height,
                actual_width: *actual_width,
                actual_height: *actual_height,
            },
            AppearanceError::AssetNotFound { path } => ErrorView::AssetNotFound { path: path@ },
            AppearanceError::CorruptSprite => ErrorView::CorruptSprite,
            AppearanceError::Truncated => ErrorView::Truncated,
            AppearanceError::InvalidUtf8 => ErrorView::InvalidUtf8,
            AppearanceError::Io => ErrorView::Io,
            AppearanceError::InvalidData(message) => ErrorView::InvalidData(message@),
        }
    }
}

} // verus!
