//! The errors that the library reports.
//!
//! Errors that come from the standard library or an outside crate carry that
//! error's message as text, or nothing where the message plays no part in
//! any decision.
use vstd::prelude::*;
use crate::config::{KdlValueType, NodeClass, NodeContext};

verus! {

/// A configuration document that does not have the expected shape.
#[derive(Debug, Clone, PartialEq, Eq)]
pub enum ParseConfigError {
    /// The node's value has another type than the one expected.
    InvalidType(NodeContext, KdlValueType),
    /// The number does not fit the type expected.
    OutOfBounds(i128),
    /// The node has no value.
    ExpectedValue(NodeContext),
    /// The node has no children block.
    ExpectedChildren(NodeClass),
}

/// A servers directory whose layout makes no sense.
#[derive(Debug, Clone, PartialEq, Eq)]
pub enum InvalidServersDirectoryError {
    /// Two servers, or a server and a directory, share a name.
    DuplicateServer(String),
    /// The server has no parent directory.
    MissingParent(String),
    /// The server path has no last component.
    MissingServerHead(String),
}

/// Everything that can go wrong.
#[derive(Debug, Clone, PartialEq, Eq)]
pub enum Error {
    /// An outside command failed.
    CommandFailure { code: Option<i32>, stderr: Option<Vec<u8>> },
    ParseConfigError(ParseConfigError),
    /// A header value that HTTP does not accept.
    InvalidHeaderValue(String),
    /// A path that cannot stand for a server.
    InvalidServerString(String),
    InvalidServersDirectory(InvalidServersDirectoryError),
    /// A last-used file whose contents are not a timestamp.
    InvalidTimestampFile(String),
    /// An input/output failure, with its message.
    Io(String),
    /// A configuration document that is not valid KDL, with the message.
    KdlError(String),
    MissingDirectory(String),
    MissingFile(String),
    UnresolvedConfigDirectory,
    NoDefaultServer,
    PlatformsNotFound(String),
    MissingRconConfig(String),
    /// An HTTP failure, with its message.
    Reqwest(String),
    /// A servers directory whose variables could not be expanded, with the message.
    ShellexpandLookup(String),
    ServerAlreadyExists(String),
    /// The clock stands before the Unix epoch.
    DurationMathFailure,
    ServerNotFound(String),
    /// A path that does not lie under the expected directory.
    StripPrefix,
    TemplateDeployed,
    TemplateNotFound(String),
    TemplateUsedForTemplate,
    /// A header value that is not visible ASCII.
    ToStr,
    /// A URL that does not parse, with the message.
    UrlParse(String),
    /// An environment variable that is absent or not Unicode, with the message.
    VarError(String),
}

} // verus!
