//! What can go wrong, and how each failure reads.

use crate::codec::{hex_text, quoted, quoted_text};
use crate::num::{decimal, u64_text};
use crate::text::{cat2, cat3, cat4};
use vstd::prelude::*;

verus! {

/// Failures of the runtime primitives. A `message` is the text of the
/// underlying system error.
#[derive(Debug)]
pub enum RuntimeError {
    Syscall { call: String, message: String },
    Io { path: String, message: String },
    ChildSetup(String),
    ControllerUnavailable(String),
    InvalidArgument(String),
}

impl RuntimeError {
    /// How the failure reads.
    pub open spec fn text(&self) -> Seq<char> {
        match *self {
            RuntimeError::Syscall { call, message } => "syscall "@ + call@ + " failed: "@ + message@,
            RuntimeError::Io { path, message } => "I/O error on "@ + quoted_text(path@) + ": "@
                + message@,
            RuntimeError::ChildSetup(m) => "child process reported setup failure: "@ + m@,
            RuntimeError::ControllerUnavailable(c) => "cgroup controller "@ + quoted_text(c@)
                + " not available under cgroup.controllers"@,
            RuntimeError::InvalidArgument(m) => "invalid argument: "@ + m@,
        }
    }

    /// How the failure reads.
    pub fn message(&self) -> (r: String)
        ensures
            r@ == self.text(),
    {
        match self {
            RuntimeError::Syscall { call, message } => cat4(
                "syscall ",
                call.as_str(),
                " failed: ",
                message.as_str(),
            ),
            RuntimeError::Io { path, message } => {
                let q = quoted(path.as_str());
                cat4("I/O error on ", q.as_str(), ": ", message.as_str())
            },
            RuntimeError::ChildSetup(m) => cat2("child process reported setup failure: ", m.as_str()),
            RuntimeError::ControllerUnavailable(c) => {
                let q = quoted(c.as_str());
                cat3("cgroup controller ", q.as_str(), " not available under cgroup.controllers")
            },
            RuntimeError::InvalidArgument(m) => cat2("invalid argument: ", m.as_str()),
        }
    }
}

/// Failures of the image side: store, layers, builds, registries, scans.
#[derive(Debug)]
pub enum Error {
    Io { path: String, message: String },
    Syscall { call: String, path: String, message: String },
    InvalidHash(String),
    MissingBlob(crate::store::Hash),
    LayerNotFound(crate::store::Hash),
    ImageNotFound(String),
    KilnfileParse { line: usize, message: String },
    Build(String),
    Registry(String),
    Scan(String),
    Runtime(RuntimeError),
    Json { path: String, message: String },
}

impl Error {
    /// How the failure reads.
    pub open spec fn text(&self) -> Seq<char> {
        match *self {
            Error::Io { path, message } => "I/O error on "@ + quoted_text(path@) + ": "@ + message@,
            Error::Syscall { call, path, message } => "syscall "@ + call@ + " on "@ + quoted_text(path@)
                + " failed: "@ + message@,
            Error::InvalidHash(h) => "invalid content hash "@ + quoted_text(h@),
            Error::MissingBlob(h) => "blob "@ + hex_text(h@)
                + " referenced but not present in the store"@,
            Error::LayerNotFound(h) => "layer "@ + hex_text(h@) + " not found"@,
            Error::ImageNotFound(n) => "image "@ + n@ + " not found"@,
            Error::KilnfileParse { line, message } => "Kilnfile parse error at line "@ + decimal(
                line as nat,
            ) + ": "@ + message@,
            Error::Build(m) => "build failed: "@ + m@,
            Error::Registry(m) => "registry error: "@ + m@,
            Error::Scan(m) => "scan error: "@ + m@,
            Error::Runtime(e) => "runtime error: "@ + e.text(),
            Error::Json { path, message } => "JSON error on "@ + quoted_text(path@) + ": "@ + message@,
        }
    }

    /// How the failure reads.
    pub fn message(&self) -> (r: String)
        ensures
            r@ == self.text(),
    {
        match self {
            Error::Io { path, message } => {
                let q = quoted(path.as_str());
                cat4("I/O error on ", q.as_str(), ": ", message.as_str())
            },
            Error::Syscall { call, path, message } => {
                let q = quoted(path.as_str());
                let head = cat4("syscall ", call.as_str(), " on ", q.as_str());
                cat3(head.as_str(), " failed: ", message.as_str())
            },
            Error::InvalidHash(h) => {
                let q = quoted(h.as_str());
                cat2("invalid content hash ", q.as_str())
            },
            Error::MissingBlob(h) => {
                let x = h.to_hex();
                cat3("blob ", x.as_str(), " referenced but not present in the store")
            },
            Error::LayerNotFound(h) => {
                let x = h.to_hex();
                cat3("layer ", x.as_str(), " not found")
            },
            Error::ImageNotFound(n) => cat3("image ", n.as_str(), " not found"),
            Error::KilnfileParse { line, message } => {
                let n = u64_text(*line as u64);
                cat4("Kilnfile parse error at line ", n.as_str(), ": ", message.as_str())
            },
            Error::Build(m) => cat2("build failed: ", m.as_str()),
            Error::Registry(m) => cat2("registry error: ", m.as_str()),
            Error::Scan(m) => cat2("scan error: ", m.as_str()),
            Error::Runtime(e) => {
                let t = e.message();
                cat2("runtime error: ", t.as_str())
            },
            Error::Json { path, message } => {
                let q = quoted(path.as_str());
                cat4("JSON error on ", q.as_str(), ": ", message.as_str())
            },
        }
    }

    /// The failure of an operation on `path`.
    pub fn io(path: &str, message: &str) -> (r: Error)
        ensures
            r matches Error::Io { path: p, message: m } && p@ == path@ && m@ == message@,
    {
        Error::Io { path: path.to_owned(), message: message.to_owned() }
    }

    /// The failure to read or write JSON at `path`.
    pub fn json(path: &str, message: &str) -> (r: Error)
        ensures
            r matches Error::Json { path: p, message: m } && p@ == path@ && m@ == message@,
    {
        Error::Json { path: path.to_owned(), message: message.to_owned() }
    }

    /// The failure of the system call `call` on `path`.
    pub fn syscall(call: &str, path: &str, message: &str) -> (r: Error)
        ensures
            r matches Error::Syscall { call: c, path: p, message: m } && c@ == call@ && p@ == path@ && m@
                == message@,
    {
        Error::Syscall { call: call.to_owned(), path: path.to_owned(), message: message.to_owned() }
    }
}

} // verus!
