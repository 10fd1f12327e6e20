use vstd::prelude::*;


use crate::build::graph::NodeId;
use crate::classmap::ResolveError;

verus! {

/// `std::io::Error` is carried inside [`Error::Io`] without being inspected.
#[verifier::external_type_specification]
#[verifier::external_body]
pub struct ExIoError(std::io::Error);

/// Every failure the build tool reports.
#[derive(Debug)]
pub enum Error {
    Io { path: String, source: std::io::Error },
    Parse { path: String, message: String },
    Metadata { path: String, message: String },
    Classmap(ResolveError),
    InvalidIdentifier(String),
    Plan(String),
    Transpile { path: String, message: String },
    GraphCycle(NodeId),
    UnknownNode(NodeId),
    ClassmapFetch(String),
    Scaffold(String),
    Watch(String),
    Release(String),
    Zip(String),
}

impl Error {
    /// An I/O failure at `path`.
    pub fn io(path: String, source: std::io::Error) -> (e: Self)
        ensures
            e matches Error::Io { path: p, source: s } && p == path && s == source,
    {
        Error::Io { path, source }
    }

    /// A parse failure of the file at `path`.
    pub fn parse(path: String, message: String) -> (e: Self)
        ensures
            e matches Error::Parse { path: p, message: m } && p == path && m == message,
    {
        Error::Parse { path, message }
    }

    /// A failure to read the metadata file at `path`.
    pub fn metadata(path: String, message: String) -> (e: Self)
        ensures
            e matches Error::Metadata { path: p, message: m } && p == path && m == message,
    {
        Error::Metadata { path, message }
    }

    /// A failure while transpiling the file at `path`.
    pub fn transpile(path: String, message: String) -> (e: Self)
        ensures
            e matches Error::Transpile { path: p, message: m } && p == path && m == message,
    {
        Error::Transpile { path, message }
    }

    /// A failure while fetching or reading a classmap.
    pub fn classmap_fetch(message: String) -> (e: Self)
        ensures
            e matches Error::ClassmapFetch(m) && m == message,
    {
        Error::ClassmapFetch(message)
    }
}

} // verus!
