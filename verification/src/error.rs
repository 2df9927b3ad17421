//! What can go wrong while an asset is loaded or a preview is saved.

use vstd::prelude::*;

verus! {

/// An error of one load or save task. No error reaches beyond the task that it belongs to.
#[derive(Debug)]
pub enum AssetError {
    /// A save was asked for an image that has no pixel data behind it.
    ImageNotFound { handle: u64 },
    /// The source pixels cannot be brought into a working colour format.
    ImageConversionFailed(String),
    /// The encoder refused the image.
    ImageEncodeFailed { format: String, reason: String },
    /// The directory of the target file could not be created.
    DirectoryCreationFailed { path: String, reason: String },
    /// The encoded bytes could not be written.
    FileWriteFailed { path: String, reason: String },
    /// The asset system reported that the load failed.
    AssetLoadFailed { path: String, reason: String },
    /// The asset went away while a request for it was pending.
    AssetRemoved { path: String },
    /// An input or output error outside the cases above.
    Io(String),
    /// An error of the writer outside the cases above.
    AssetWriter(String),
}

/// An error with its texts as sequences of characters.
pub enum AssetErrorView {
    ImageNotFound { handle: u64 },
    ImageConversionFailed(Seq<char>),
    ImageEncodeFailed { format: Seq<char>, reason: Seq<char> },
    DirectoryCreationFailed { path: Seq<char>, reason: Seq<char> },
    FileWriteFailed { path: Seq<char>, reason: Seq<char> },
    AssetLoadFailed { path: Seq<char>, reason: Seq<char> },
    AssetRemoved { path: Seq<char> },
    Io(Seq<char>),
    AssetWriter(Seq<char>),
}

impl View for AssetError {
    type V = AssetErrorView;

    open spec fn view(&self) -> AssetErrorView {
        match *self {
            AssetError::ImageNotFound { handle } => AssetErrorView::ImageNotFound { handle },
            AssetError::ImageConversionFailed(reason) => AssetErrorView::ImageConversionFailed(
                reason@,
            ),
            AssetError::ImageEncodeFailed { format, reason } => AssetErrorView::ImageEncodeFailed {
                format: format@,
                reason: reason@,
            },
            AssetError::DirectoryCreationFailed {
                path,
                reason,
            } => AssetErrorView::DirectoryCreationFailed { path: path@, reason: reason@ },
            AssetError::FileWriteFailed { path, reason } => AssetErrorView::FileWriteFailed {
                path: path@,
                reason: reason@,
            },
            AssetError::AssetLoadFailed { path, reason } => AssetErrorView::AssetLoadFailed {
                path: path@,
                reason: reason@,
            },
            AssetError::AssetRemoved { path } => AssetErrorView::AssetRemoved { path: path@ },
            AssetError::Io(reason) => AssetErrorView::Io(reason@),
            AssetError::AssetWriter(reason) => AssetErrorView::AssetWriter(reason@),
        }
    }
}

impl Clone for AssetError {
    fn clone(&self) -> (copy: AssetError)
        ensures
            copy@ == self@,
    {
        match self {
            AssetError::ImageNotFound { handle } => AssetError::ImageNotFound { handle: *handle },
            AssetError::ImageConversionFailed(reason) => AssetError::ImageConversionFailed(
                reason.clone(),
            ),
            AssetError::ImageEncodeFailed { format, reason } => AssetError::ImageEncodeFailed {
                format: format.clone(),
                reason: reason.clone(),
            },
            AssetError::DirectoryCreationFailed {
                path,
                reason,
            } => AssetError::DirectoryCreationFailed { path: path.clone(), reason: reason.clone() },
            AssetError::FileWriteFailed { path, reason } => AssetError::FileWriteFailed {
                path: path.clone(),
                reason: reason.clone(),
            },
            AssetError::AssetLoadFailed { path, reason } => AssetError::AssetLoadFailed {
                path: path.clone(),
                reason: reason.clone(),
            },
            AssetError::AssetRemoved { path } => AssetError::AssetRemoved { path: path.clone() },
            AssetError::Io(reason) => AssetError::Io(reason.clone()),
            AssetError::AssetWriter(reason) => AssetError::AssetWriter(reason.clone()),
        }
    }
}

} // verus!
