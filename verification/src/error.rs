//! Why the edge refuses to start.
use vstd::prelude::*;

use crate::text::owned;

verus! {

/// A refusal, with what the operator needs to mend it.
#[derive(Debug)]
pub enum EdgeError {
    ConfigEnv { name: &'static str, message: String },
    WorkerSocketMustBeAbsolute { path: String },
    WorkerSocketMissingParent { path: String },
    RuntimeDirUnavailable { path: String, message: String },
    RuntimeDirSymlink { path: String },
    RuntimeDirNotDirectory { path: String },
    RuntimeDirMode { path: String, mode: u32 },
    WorkerSocketUnavailable { path: String, message: String },
    WorkerSocketSymlink { path: String },
    WorkerSocketNotSocket { path: String },
    WorkerSocketMode { path: String, mode: u32 },
    TlsFileUnavailable { role: &'static str, path: String, message: String },
    TlsFileSymlink { role: &'static str, path: String },
    TlsFileNotFile { role: &'static str, path: String },
    TlsPrivateKeyMode { path: String, mode: u32 },
    TlsCertificateName { path: String, server_name: String, message: String },
}

/// What a refusal says.
pub ghost enum Fault {
    ConfigEnv { name: Seq<char>, message: Seq<char> },
    WorkerSocketMustBeAbsolute { path: Seq<char> },
    WorkerSocketMissingParent { path: Seq<char> },
    RuntimeDirUnavailable { path: Seq<char>, message: Seq<char> },
    RuntimeDirSymlink { path: Seq<char> },
    RuntimeDirNotDirectory { path: Seq<char> },
    RuntimeDirMode { path: Seq<char>, mode: u32 },
    WorkerSocketUnavailable { path: Seq<char>, message: Seq<char> },
    WorkerSocketSymlink { path: Seq<char> },
    WorkerSocketNotSocket { path: Seq<char> },
    WorkerSocketMode { path: Seq<char>, mode: u32 },
    TlsFileUnavailable { role: Seq<char>, path: Seq<char>, message: Seq<char> },
    TlsFileSymlink { role: Seq<char>, path: Seq<char> },
    TlsFileNotFile { role: Seq<char>, path: Seq<char> },
    TlsPrivateKeyMode { path: Seq<char>, mode: u32 },
    TlsCertificateName { path: Seq<char>, server_name: Seq<char>, message: Seq<char> },
}

impl View for EdgeError {
    type V = Fault;

    open spec fn view(&self) -> Fault {
        match self {
            EdgeError::ConfigEnv { name, message } => Fault::ConfigEnv {
                name: name@,
                message: message@,
            },
            EdgeError::WorkerSocketMustBeAbsolute { path } => Fault::WorkerSocketMustBeAbsolute {
                path: path@,
            },
            EdgeError::WorkerSocketMissingParent { path } => Fault::WorkerSocketMissingParent {
                path: path@,
            },
            EdgeError::RuntimeDirUnavailable { path, message } => Fault::RuntimeDirUnavailable {
                path: path@,
                message: message@,
            },
            EdgeError::RuntimeDirSymlink { path } => Fault::RuntimeDirSymlink { path: path@ },
            EdgeError::RuntimeDirNotDirectory { path } => Fault::RuntimeDirNotDirectory {
                path: path@,
            },
            EdgeError::RuntimeDirMode { path, mode } => Fault::RuntimeDirMode {
                path: path@,
                mode: *mode,
            },
            EdgeError::WorkerSocketUnavailable {
                path,
                message,
            } => Fault::WorkerSocketUnavailable { path: path@, message: message@ },
            EdgeError::WorkerSocketSymlink { path } => Fault::WorkerSocketSymlink { path: path@ },
            EdgeError::WorkerSocketNotSocket { path } => Fault::WorkerSocketNotSocket {
                path: path@,
            },
            EdgeError::WorkerSocketMode { path, mode } => Fault::WorkerSocketMode {
                path: path@,
                mode: *mode,
            },
            EdgeError::TlsFileUnavailable { role, path, message } => Fault::TlsFileUnavailable {
                role: role@,
                path: path@,
                message: message@,
            },
            EdgeError::TlsFileSymlink { role, path } => Fault::TlsFileSymlink {
                role: role@,
                path: path@,
            },
            EdgeError::TlsFileNotFile { role, path } => Fault::TlsFileNotFile {
                role: role@,
                path: path@,
            },
            EdgeError::TlsPrivateKeyMode { path, mode } => Fault::TlsPrivateKeyMode {
                path: path@,
                mode: *mode,
            },
            EdgeError::TlsCertificateName {
                path,
                server_name,
                message,
            } => Fault::TlsCertificateName {
                path: path@,
                server_name: server_name@,
                message: message@,
            },
        }
    }
}

/// A refusal that blames the setting `name` with the words `message`.
pub open spec fn faulted<T>(name: Seq<char>, message: Seq<char>) -> Result<T, Fault> {
    Err(Fault::ConfigEnv { name, message })
}

/// Whether a fault blames the setting `name`, in whatever words.
pub open spec fn blames(f: Fault, name: Seq<char>) -> bool {
    f matches Fault::ConfigEnv { name: blamed, .. } && blamed == name
}

/// Whether `r` is a refusal that blames the setting `name` with the words `message`.
pub open spec fn refused<T>(r: Result<T, EdgeError>, name: Seq<char>, message: Seq<char>) -> bool {
    r matches Err(e) && e@ == (Fault::ConfigEnv { name, message })
}

/// Whether a result is the one described: the same value, or the refusal it tells of.
pub open spec fn agrees<T>(r: Result<T, EdgeError>, s: Result<T, Fault>) -> bool {
    match (r, s) {
        (Ok(a), Ok(b)) => a == b,
        (Err(e), Err(f)) => e@ == f,
        _ => false,
    }
}

/// `agrees` for a value and the source that it came from.
pub open spec fn agrees_sourced<T>(
    r: Result<(T, &'static str), EdgeError>,
    s: Result<(T, Seq<char>), Fault>,
) -> bool {
    match (r, s) {
        (Ok((a, x)), Ok((b, y))) => a == b && x@ == y,
        (Err(e), Err(f)) => e@ == f,
        _ => false,
    }
}

/// Blames the setting `name` with fixed words.
pub fn blame(name: &'static str, message: &str) -> (e: EdgeError)
    ensures
        e@ == (Fault::ConfigEnv { name: name@, message: message@ }),
{
    EdgeError::ConfigEnv { name, message: owned(message) }
}

} // verus!
