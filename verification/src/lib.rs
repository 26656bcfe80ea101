//! QrFS: a user-space filesystem engine that keeps its whole state in two
//! flat binary snapshots (an inode table and a data-block array).
//!
//! The crate is organised around a fixed-capacity arena ([`disk::Disk`])
//! holding optional inode slots and optional data blocks, a request handler
//! ([`fs::QrFS`]) that turns filesystem operations into arena mutations, and
//! a binary codec ([`codec`]) that snapshots the arena to bytes and back.
//! File and terminal I/O live outside this crate; every function here is
//! verified against its contract.

use vstd::prelude::*;

pub mod codec;
pub mod disk;
pub mod fs;
pub mod inode;
pub mod laws;

verus! {

/// POSIX-style error codes surfaced to the caller through a reply handle.
#[derive(Clone, Copy, PartialEq, Eq, Structural, Debug)]
pub enum FsError {
    /// No such file or directory (`ENOENT`).
    NoEntry,
    /// Input/output error (`EIO`); also used when a directory has no free
    /// reference slot left.
    InputOutput,
    /// The entry is a directory (`EISDIR`).
    IsDirectory,
    /// No inode or block slot remains (`ENOSPC`).
    NoSpace,
    /// Operation not implemented (`ENOSYS`).
    NotImplemented,
}

/// Numeric value of an error, as the kernel bridge expects it.
pub open spec fn spec_errno(e: FsError) -> i32 {
    match e {
        FsError::NoEntry => 2,
        FsError::InputOutput => 5,
        FsError::IsDirectory => 21,
        FsError::NoSpace => 28,
        FsError::NotImplemented => 38,
    }
}

impl FsError {
    /// The POSIX error number of this error.
    pub fn errno(&self) -> (r: i32)
        ensures
            r == spec_errno(*self),
    {
        match self {
            FsError::NoEntry => 2,
            FsError::InputOutput => 5,
            FsError::IsDirectory => 21,
            FsError::NoSpace => 28,
            FsError::NotImplemented => 38,
        }
    }
}

} // verus!
