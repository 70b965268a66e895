//! File-system interface types.
use vstd::prelude::*;

verus! {

#[derive(Debug, Clone, Copy, PartialEq, Eq, Structural)]
pub struct FileHandle(pub u64);

#[derive(Debug, Clone, Copy, PartialEq, Eq, Structural)]
pub enum FsError {
    NotFound,
    PermissionDenied,
    AlreadyExists,
    NotADirectory,
    NotAFile,
    NoSpace,
    InvalidPath,
    TooManyOpenFiles,
}

#[derive(Debug, Clone, Copy, PartialEq, Eq, Structural)]
pub enum OpenFlags {
    Read,
    Write,
    Create,
    Truncate,
}

#[derive(Debug, Clone)]
pub struct DirEntry {
    pub name: String,
    pub is_dir: bool,
    pub size: usize,
}

/// A hierarchical file system. `fs_inv` is the implementation's well-formedness, kept by
/// every operation; the `*_ready` predicates exclude the inputs on which an operation would
/// overflow its counters or slices.
pub trait FileSystem {
    spec fn fs_inv(&self) -> bool;

    spec fn open_ready(&self) -> bool;

    spec fn read_ready(&self, handle: FileHandle) -> bool;

    spec fn write_ready(&self, handle: FileHandle, len: nat) -> bool;

    fn open(&mut self, path: &str, flags: OpenFlags) -> (r: Result<FileHandle, FsError>)
        requires
            old(self).fs_inv(),
            old(self).open_ready(),
        ensures
            final(self).fs_inv(),
    ;

    fn read(&mut self, handle: FileHandle, buf: &mut [u8]) -> (r: Result<usize, FsError>)
        requires
            old(self).fs_inv(),
            old(self).read_ready(handle),
        ensures
            final(self).fs_inv(),
    ;

    fn write(&mut self, handle: FileHandle, buf: &[u8]) -> (r: Result<usize, FsError>)
        requires
            old(self).fs_inv(),
            old(self).write_ready(handle, buf@.len()),
        ensures
            final(self).fs_inv(),
    ;

    fn close(&mut self, handle: FileHandle) -> (r: Result<(), FsError>)
        requires
            old(self).fs_inv(),
        ensures
            final(self).fs_inv(),
    ;

    fn ls(&self, path: &str) -> (r: Result<Vec<DirEntry>, FsError>)
        requires
            self.fs_inv(),
    ;

    fn mkdir(&mut self, path: &str) -> (r: Result<(), FsError>)
        requires
            old(self).fs_inv(),
        ensures
            final(self).fs_inv(),
    ;

    fn touch(&mut self, path: &str) -> (r: Result<(), FsError>)
        requires
            old(self).fs_inv(),
        ensures
            final(self).fs_inv(),
    ;

    fn rm(&mut self, path: &str) -> (r: Result<(), FsError>)
        requires
            old(self).fs_inv(),
        ensures
            final(self).fs_inv(),
    ;

    fn stat(&self, path: &str) -> (r: Result<usize, FsError>)
        requires
            self.fs_inv(),
    ;
}

} // verus!
