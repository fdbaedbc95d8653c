//! What the edge asks of the files it is pointed at: nobody else may get at the
//! runtime directory, the worker sockets or the private key.
use vstd::prelude::*;

use crate::error::{agrees, EdgeError, Fault};
use crate::text::{owned, starts_with};

verus! {

/// What a path names, with symbolic links not followed.
#[derive(Clone, Copy, Debug, PartialEq, Eq, Structural)]
pub enum FileKind {
    Symlink,
    Directory,
    File,
    Socket,
    Other,
}

/// What a look at a path gave.
pub enum Stat {
    Missing { message: String },
    Failed { message: String },
    Found { kind: FileKind, mode: u32 },
}

/// A path, with the directory it lies in where it has one.
pub struct SocketPath {
    pub text: String,
    pub parent: Option<String>,
}

/// The permission bits of a mode.
pub open spec fn permissions(mode: u32) -> u32 {
    mode & 0x1ff
}

/// What is wrong with a runtime directory at `path` that looks like `stat`.
pub open spec fn dir_verdict(path: Seq<char>, stat: Stat) -> Result<(), Fault> {
    match stat {
        Stat::Missing { message } => Err(Fault::RuntimeDirUnavailable { path, message: message@ }),
        Stat::Failed { message } => Err(Fault::RuntimeDirUnavailable { path, message: message@ }),
        Stat::Found { kind, mode } => if kind is Symlink {
            Err(Fault::RuntimeDirSymlink { path })
        } else if !(kind is Directory) {
            Err(Fault::RuntimeDirNotDirectory { path })
        } else if permissions(mode) != 448 {
            Err(Fault::RuntimeDirMode { path, mode: permissions(mode) })
        } else {
            Ok(())
        },
    }
}

/// The runtime directory is a directory of its own, open to its owner alone.
pub fn validate_runtime_dir(path: &str, stat: &Stat) -> (r: Result<(), EdgeError>)
    ensures
        agrees(r, dir_verdict(path@, *stat)),
{
    match stat {
        Stat::Missing { message } => Err(
            EdgeError::RuntimeDirUnavailable { path: owned(path), message: owned(message.as_str()) },
        ),
        Stat::Failed { message } => Err(
            EdgeError::RuntimeDirUnavailable { path: owned(path), message: owned(message.as_str()) },
        ),
        Stat::Found { kind, mode } => {
            if *kind == FileKind::Symlink {
                return Err(EdgeError::RuntimeDirSymlink { path: owned(path) });
            }
            if *kind != FileKind::Directory {
                return Err(EdgeError::RuntimeDirNotDirectory { path: owned(path) });
            }
            let bits: u32 = *mode & 0x1ff;
            if bits != 448 {
                return Err(EdgeError::RuntimeDirMode { path: owned(path), mode: bits });
            }
            Ok(())
        },
    }
}

/// What is wrong with a worker socket at `path` that looks like `stat`.
pub open spec fn socket_verdict(path: Seq<char>, stat: Stat) -> Result<(), Fault> {
    match stat {
        Stat::Missing { message } => Ok(()),
        Stat::Failed { message } => Err(
            Fault::WorkerSocketUnavailable { path, message: message@ },
        ),
        Stat::Found { kind, mode } => if kind is Symlink {
            Err(Fault::WorkerSocketSymlink { path })
        } else if !(kind is Socket) {
            Err(Fault::WorkerSocketNotSocket { path })
        } else if permissions(mode) != 384 {
            Err(Fault::WorkerSocketMode { path, mode: permissions(mode) })
        } else {
            Ok(())
        },
    }
}

/// A worker socket that is not there yet is fine; one that is must be a socket that
/// its owner alone may read and write.
pub fn validate_socket_if_present(path: &str, stat: &Stat) -> (r: Result<(), EdgeError>)
    ensures
        agrees(r, socket_verdict(path@, *stat)),
{
    match stat {
        Stat::Missing { message: _ } => Ok(()),
        Stat::Failed { message } => Err(
            EdgeError::WorkerSocketUnavailable {
                path: owned(path),
                message: owned(message.as_str()),
            },
        ),
        Stat::Found { kind, mode } => {
            if *kind == FileKind::Symlink {
                return Err(EdgeError::WorkerSocketSymlink { path: owned(path) });
            }
            if *kind != FileKind::Socket {
                return Err(EdgeError::WorkerSocketNotSocket { path: owned(path) });
            }
            let bits: u32 = *mode & 0x1ff;
            if bits != 384 {
                return Err(EdgeError::WorkerSocketMode { path: owned(path), mode: bits });
            }
            Ok(())
        },
    }
}

/// What is wrong with a TLS file at `path` that looks like `stat`.
pub open spec fn tls_verdict(
    role: Seq<char>,
    private_key: bool,
    path: Seq<char>,
    stat: Stat,
) -> Result<(), Fault> {
    match stat {
        Stat::Missing { message } => Err(
            Fault::TlsFileUnavailable { role, path, message: message@ },
        ),
        Stat::Failed { message } => Err(
            Fault::TlsFileUnavailable { role, path, message: message@ },
        ),
        Stat::Found { kind, mode } => if kind is Symlink {
            Err(Fault::TlsFileSymlink { role, path })
        } else if !(kind is File) {
            Err(Fault::TlsFileNotFile { role, path })
        } else if private_key && permissions(mode) & 0x3f != 0 {
            Err(Fault::TlsPrivateKeyMode { path, mode: permissions(mode) })
        } else {
            Ok(())
        },
    }
}

/// A TLS file is a regular file; a private key is closed to group and others.
pub fn validate_tls_file(
    role: &'static str,
    path: &str,
    private_key: bool,
    stat: &Stat,
) -> (r: Result<(), EdgeError>)
    ensures
        agrees(r, tls_verdict(role@, private_key, path@, *stat)),
{
    match stat {
        Stat::Missing { message } => Err(
            EdgeError::TlsFileUnavailable {
                role,
                path: owned(path),
                message: owned(message.as_str()),
            },
        ),
        Stat::Failed { message } => Err(
            EdgeError::TlsFileUnavailable {
                role,
                path: owned(path),
                message: owned(message.as_str()),
            },
        ),
        Stat::Found { kind, mode } => {
            if *kind == FileKind::Symlink {
                return Err(EdgeError::TlsFileSymlink { role, path: owned(path) });
            }
            if *kind != FileKind::File {
                return Err(EdgeError::TlsFileNotFile { role, path: owned(path) });
            }
            if private_key {
                let bits: u32 = *mode & 0x1ff;
                if bits & 0x3f != 0 {
                    return Err(EdgeError::TlsPrivateKeyMode { path: owned(path), mode: bits });
                }
            }
            Ok(())
        },
    }
}

/// Whether a path is absolute.
pub open spec fn absolute(path: Seq<char>) -> bool {
    path.len() > 0 && path[0] == '/'
}

/// What is wrong with a worker socket, in the order in which it is looked at.
pub open spec fn socket_path_verdict(path: SocketPath, dir: Stat, socket: Stat) -> Result<
    (),
    Fault,
> {
    if !absolute(path.text@) {
        Err(Fault::WorkerSocketMustBeAbsolute { path: path.text@ })
    } else {
        match path.parent {
            Some(parent) if parent@.len() > 0 => match dir_verdict(parent@, dir) {
                Err(f) => Err(f),
                Ok(_) => socket_verdict(path.text@, socket),
            },
            _ => Err(Fault::WorkerSocketMissingParent { path: path.text@ }),
        }
    }
}

/// A worker socket lies at an absolute path in a private runtime directory; `dir` is
/// what a look at that directory gave, and `socket` what a look at the path gave.
pub fn validate_worker_socket_path(path: &SocketPath, dir: &Stat, socket: &Stat) -> (r: Result<
    (),
    EdgeError,
>)
    ensures
        agrees(r, socket_path_verdict(*path, *dir, *socket)),
{
    if !starts_with(path.text.as_str(), '/') {
        return Err(EdgeError::WorkerSocketMustBeAbsolute { path: owned(path.text.as_str()) });
    }
    match &path.parent {
        Some(parent) => {
            if parent.as_str().is_empty() {
                return Err(
                    EdgeError::WorkerSocketMissingParent { path: owned(path.text.as_str()) },
                );
            }
            match validate_runtime_dir(parent.as_str(), dir) {
                Err(e) => Err(e),
                Ok(()) => validate_socket_if_present(path.text.as_str(), socket),
            }
        },
        None => Err(EdgeError::WorkerSocketMissingParent { path: owned(path.text.as_str()) }),
    }
}

/// A worker socket that passes lies at an absolute path, in a directory that only its
/// owner can enter; if it is there already, it is a socket that only its owner can use.
pub proof fn accepted_sockets_are_private(path: SocketPath, dir: Stat, socket: Stat)
    requires
        socket_path_verdict(path, dir, socket) is Ok,
    ensures
        absolute(path.text@),
        dir matches Stat::Found { kind, mode } && kind is Directory && permissions(mode) == 448,
        match socket {
            Stat::Missing { message } => true,
            Stat::Failed { message } => false,
            Stat::Found { kind, mode } => kind is Socket && permissions(mode) == 384,
        },
{
}

/// A file is judged by its kind and by the three groups of its permission bits alone: a
/// runtime directory is open to its owner in every way and to nobody else, a socket may be
/// read and written by its owner and by nobody else, and a private key may be anything to
/// its owner and nothing to anybody else. What else the mode says does not matter.
pub proof fn modes_are_judged_group_by_group(
    path: Seq<char>,
    role: Seq<char>,
    kind: FileKind,
    rest: u32,
    owner: u32,
    group: u32,
    other: u32,
)
    requires
        rest < 0x80_0000,
        owner < 8,
        group < 8,
        other < 8,
    ensures
        ({
            let mode = (rest * 512 + owner * 64 + group * 8 + other) as u32;
            let stat = Stat::Found { kind, mode };
            let closed = group == 0 && other == 0;
            &&& dir_verdict(path, stat) is Ok <==> kind is Directory && owner == 7 && closed
            &&& socket_verdict(path, stat) is Ok <==> kind is Socket && owner == 6 && closed
            &&& tls_verdict(role, true, path, stat) is Ok <==> kind is File && closed
            &&& tls_verdict(role, false, path, stat) is Ok <==> kind is File
        }),
{
    let mode = (rest * 512 + owner * 64 + group * 8 + other) as u32;
    assert(mode & 0x1ff == mode % 512) by (bit_vector);
    assert((mode % 512) & 0x3f == (mode % 512) % 64) by (bit_vector);
    assert(mode % 512 == owner * 64 + group * 8 + other);
    assert((mode % 512) % 64 == group * 8 + other);
}

/// A refusal says what was wrong: that a path could not be looked at, that it is a link,
/// that it is of another kind, or that its mode is too open.
pub proof fn refusals_say_what_was_wrong(path: Seq<char>, role: Seq<char>, key: bool, stat: Stat)
    ensures
        match stat {
            Stat::Missing { message } => dir_verdict(path, stat) == Err::<(), Fault>(
                Fault::RuntimeDirUnavailable { path, message: message@ },
            ) && socket_verdict(path, stat) is Ok && tls_verdict(role, key, path, stat) == Err::<
                (),
                Fault,
            >(Fault::TlsFileUnavailable { role, path, message: message@ }),
            Stat::Failed { message } => dir_verdict(path, stat) == Err::<(), Fault>(
                Fault::RuntimeDirUnavailable { path, message: message@ },
            ) && socket_verdict(path, stat) == Err::<(), Fault>(
                Fault::WorkerSocketUnavailable { path, message: message@ },
            ) && tls_verdict(role, key, path, stat) == Err::<(), Fault>(
                Fault::TlsFileUnavailable { role, path, message: message@ },
            ),
            Stat::Found { kind, mode } => {
                &&& kind is Symlink ==> dir_verdict(path, stat) == Err::<(), Fault>(
                    Fault::RuntimeDirSymlink { path },
                ) && socket_verdict(path, stat) == Err::<(), Fault>(
                    Fault::WorkerSocketSymlink { path },
                ) && tls_verdict(role, key, path, stat) == Err::<(), Fault>(
                    Fault::TlsFileSymlink { role, path },
                )
                &&& dir_verdict(path, stat) matches Err(f) ==> (if kind is Directory {
                    f is RuntimeDirMode
                } else {
                    f is RuntimeDirSymlink || f is RuntimeDirNotDirectory
                })
                &&& socket_verdict(path, stat) matches Err(f) ==> (if kind is Socket {
                    f is WorkerSocketMode
                } else {
                    f is WorkerSocketSymlink || f is WorkerSocketNotSocket
                })
                &&& tls_verdict(role, key, path, stat) matches Err(f) ==> (if kind is File {
                    f is TlsPrivateKeyMode && key
                } else {
                    f is TlsFileSymlink || f is TlsFileNotFile
                })
            },
        },
{
}

/// A worker socket at an absolute path is judged by its directory first, and by itself
/// only if nothing is wrong with that; a path that has no directory is refused.
pub proof fn directories_are_judged_before_sockets(path: SocketPath, dir: Stat, socket: Stat)
    ensures
        ({
            let v = socket_path_verdict(path, dir, socket);
            let rooted = path.text@.len() > 0 && path.text@[0] == '/';
            let placed = path.parent is Some && path.parent->0@.len() > 0;
            &&& !rooted ==> (v matches Err(f) && f is WorkerSocketMustBeAbsolute)
            &&& rooted && !placed ==> (v matches Err(f) && f is WorkerSocketMissingParent)
            &&& rooted && placed && dir_verdict(path.parent->0@, dir) is Err ==> v == dir_verdict(
                path.parent->0@,
                dir,
            )
            &&& rooted && placed && dir_verdict(path.parent->0@, dir) is Ok ==> v == socket_verdict(
                path.text@,
                socket,
            )
        }),
{
}

} // verus!
