//! What can go wrong while a pack is read or written.

use vstd::prelude::*;

verus! {

/// A place in the manifest document.
#[derive(Clone, Copy, Debug, PartialEq, Eq, Structural)]
pub enum Field {
    /// The document as a whole.
    Root,
    FormatVersion,
    Game,
    VersionId,
    Name,
    Summary,
    Files,
    Dependencies,
    /// One element of `files`.
    File,
    Path,
    Hashes,
    Sha1,
    Sha512,
    /// A hash under a name other than `sha1` and `sha512`.
    ExtraHash,
    Env,
    Client,
    Server,
    Downloads,
    FileSize,
}

/// Why a manifest could not be read.
#[derive(Clone, Copy, Debug, PartialEq, Eq, Structural)]
pub enum DecodeError {
    /// The text is not a JSON document.
    Syntax,
    /// A field that must be there is not.
    Missing(Field),
    /// A field holds a value of another shape than the format gives it, or
    /// a tag that the format does not know.
    Mistyped(Field),
}

/// Why a pack could not be read or written.
#[derive(Clone, Copy, Debug, PartialEq, Eq, Structural)]
pub enum Error {
    /// The file name does not end in the pack extension.
    InvalidExtension,
    /// The bytes are not a container, or one of its entries cannot be read.
    ArchiveOpen,
    /// The container holds no entry at all.
    EmptyArchive,
    /// No entry carries the manifest's name.
    ManifestNotFound,
    /// The manifest's name belongs to a directory entry.
    ManifestIsDirectory,
    /// The manifest entry was found and could not be decoded.
    ManifestDecode(DecodeError),
    /// Two entries stand for the same override path.
    DuplicateOverride,
    /// A path would leave the install root, or does not name a file in it.
    PathEscape,
    /// The container or the JSON encoder refused to write.
    ArchiveWrite,
    /// The compression level is outside the supported range.
    CompressionLevel,
}

impl Error {
    /// What [`Error::message`] says of each error.
    pub open spec fn text(self) -> Seq<char> {
        match self {
            Error::InvalidExtension => "the path must have the extension '.mrpack'"@,
            Error::ArchiveOpen => "invalid .mrpack: not a readable zip container"@,
            Error::EmptyArchive => "invalid .mrpack: empty"@,
            Error::ManifestNotFound => "invalid .mrpack: no modrinth.index.json"@,
            Error::ManifestIsDirectory => "invalid .mrpack: modrinth.index.json is a directory"@,
            Error::ManifestDecode(_) => "invalid .mrpack: modrinth.index.json cannot be decoded"@,
            Error::DuplicateOverride => "invalid .mrpack: an override stands twice"@,
            Error::PathEscape => "a path leaves the install root"@,
            Error::ArchiveWrite => "the .mrpack could not be written"@,
            Error::CompressionLevel => "the compression level is not supported"@,
        }
    }

    /// The error in words.
    pub fn message(&self) -> (r: &'static str)
        ensures
            r@ == self.text(),
    {
        match self {
            Error::InvalidExtension => "the path must have the extension '.mrpack'",
            Error::ArchiveOpen => "invalid .mrpack: not a readable zip container",
            Error::EmptyArchive => "invalid .mrpack: empty",
            Error::ManifestNotFound => "invalid .mrpack: no modrinth.index.json",
            Error::ManifestIsDirectory => "invalid .mrpack: modrinth.index.json is a directory",
            Error::ManifestDecode(_) => "invalid .mrpack: modrinth.index.json cannot be decoded",
            Error::DuplicateOverride => "invalid .mrpack: an override stands twice",
            Error::PathEscape => "a path leaves the install root",
            Error::ArchiveWrite => "the .mrpack could not be written",
            Error::CompressionLevel => "the compression level is not supported",
        }
    }
}

} // verus!
