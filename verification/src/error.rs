//! The crate's error types.

use vstd::prelude::*;

use crate::fragment::{FragmentData, FragmentDataType};

verus! {

/// The top-level error of the crate.
///
/// Errors coming from outside collaborators (the filesystem, the template
/// engine, the structured-text parsers) are carried as their diagnostic text.
#[derive(Debug)]
pub enum Error {
    Io(String),
    Utf8(String),
    Toml(String),
    HandlebarsTemplate(String),
    HandlebarsRender(String),
    WalkDir(String),
    NoWorkTree,
    ConfigDoesNotExist(String),
    NotAFile(String),
    NoVersionInCargoToml,
    WorkspaceVersionsNotEqual,
    EditorEnvNotSet,
    EnvNotUnicode(String),
    /// A fragment failed to decode; the second field is the path of the file.
    FragmentError(FragmentError, String),
    Version(VersionError),
    TextProvider(TextProviderError),
    /// The batch result of the verification flow: every failure, in order.
    Verification(Vec<VerificationError>),
}

/// Everything that can go wrong while decoding one fragment file.
#[derive(Debug)]
pub enum FragmentError {
    /// An I/O or encoding failure while reading the file's text.
    Io(String),
    /// A header delimiter line was opened with one marker but closed with
    /// another, or not closed at all; carries the text found where the
    /// closing delimiter was expected.
    ExpectedSeperator(String),
    /// No recognized header delimiter line (`---` or `+++`) exists at all.
    HeaderSeperatorMissing,
    /// The TOML serializer refused the header mapping.
    TomlSer(String),
    /// The TOML parser refused the header text; carries its diagnostic.
    TomlDe(String),
    /// The YAML parser or serializer refused the header; carries its diagnostic.
    Yaml(String),
    /// A header key was required to have one type but held another.
    DataType { exp: String, recv: String },
    Interactive(InteractiveError),
}

/// A failure while classifying a path.
#[derive(Debug)]
pub enum VersionError {
    /// A path component was not valid UTF-8; carries the path's text.
    Utf8(String),
}

#[derive(Debug)]
pub enum TextProviderError {
    Io(String),
    Utf8(String),
}

/// One failure recorded by the verification flow.
#[derive(Debug)]
pub enum VerificationError {
    Version(VersionError),
    /// A fragment file failed to decode; carries the path of the file.
    FragmentParsing(String, FragmentError),
    /// The directory walk itself failed; carries the walker's diagnostic.
    WalkDir(String),
}

#[derive(Debug)]
pub enum InteractiveError {
    Interrupted,
    Io(String),
    TypeError(FragmentDataType, FragmentData),
    RequiredValueNotProvided(String),
    ParseInt(String),
}

} // verus!
