//! What can go wrong.

use vstd::prelude::*;

use crate::ident::Ident;
use crate::metadata::MetaFile;

verus! {

#[derive(Clone, Debug, PartialEq)]
pub enum Error {
    /// An operation needs an identifier with a release, and got this text.
    FullyQualifiedPackageIdentRequired(String),
    /// The text is no identifier of origin and name.
    InvalidNameIdent(String),
    /// The text is no identifier, or no part of one.
    InvalidPackageIdent(String),
    /// The text is not the name of a target.
    InvalidPackageTarget(String),
    /// The text is not the name of a kind of package.
    InvalidPackageType(String),
    /// An entry of a `PATH` value holds the separator of its entries.
    InvalidPathString,
    /// The text is no identifier of origin, name, version and release.
    InvalidReleaseIdent(String),
    /// The text is no identifier of origin, name and version.
    InvalidVersionIdent(String),
    /// A line of a metafile of binds does not have the shape of one.
    MetaFileBadBind,
    /// A metafile is there and could not be read; the text says why.
    MetaFileIO(String),
    /// What a metafile holds does not have its shape, or is no text.
    MetaFileMalformed(MetaFile),
    /// A metafile is not there.
    MetaFileNotFound(MetaFile),
    /// No installed package answers the identifier.
    PackageNotFound(Ident),
    /// A part of a version that should be a number is none that fits.
    ParseIntError(String),
    /// A pattern was not accepted; the text says why.
    RegexParse(String),
}

/// An error, with texts and identifiers as what they hold.
pub enum ErrorView {
    FullyQualifiedPackageIdentRequired(Seq<char>),
    InvalidNameIdent(Seq<char>),
    InvalidPackageIdent(Seq<char>),
    InvalidPackageTarget(Seq<char>),
    InvalidPackageType(Seq<char>),
    InvalidPathString,
    InvalidReleaseIdent(Seq<char>),
    InvalidVersionIdent(Seq<char>),
    MetaFileBadBind,
    MetaFileIO(Seq<char>),
    MetaFileMalformed(MetaFile),
    MetaFileNotFound(MetaFile),
    PackageNotFound(Seq<Seq<char>>),
    ParseIntError(Seq<char>),
    RegexParse(Seq<char>),
}

impl View for Error {
    type V = ErrorView;

    open spec fn view(&self) -> ErrorView {
        match self {
            Error::FullyQualifiedPackageIdentRequired(s) => {
                ErrorView::FullyQualifiedPackageIdentRequired(s@)
            },
            Error::InvalidNameIdent(s) => ErrorView::InvalidNameIdent(s@),
            Error::InvalidPackageIdent(s) => ErrorView::InvalidPackageIdent(s@),
            Error::InvalidPackageTarget(s) => ErrorView::InvalidPackageTarget(s@),
            Error::InvalidPackageType(s) => ErrorView::InvalidPackageType(s@),
            Error::InvalidPathString => ErrorView::InvalidPathString,
            Error::InvalidReleaseIdent(s) => ErrorView::InvalidReleaseIdent(s@),
            Error::InvalidVersionIdent(s) => ErrorView::InvalidVersionIdent(s@),
            Error::MetaFileBadBind => ErrorView::MetaFileBadBind,
            Error::MetaFileIO(s) => ErrorView::MetaFileIO(s@),
            Error::MetaFileMalformed(f) => ErrorView::MetaFileMalformed(*f),
            Error::MetaFileNotFound(f) => ErrorView::MetaFileNotFound(*f),
            Error::PackageNotFound(ident) => ErrorView::PackageNotFound(ident@),
            Error::ParseIntError(s) => ErrorView::ParseIntError(s@),
            Error::RegexParse(s) => ErrorView::RegexParse(s@),
        }
    }
}

impl DeepView for Error {
    type V = ErrorView;

    open spec fn deep_view(&self) -> ErrorView {
        self@
    }
}

} // verus!
