//! In-memory file system.
use std::collections::BTreeMap;
use vstd::prelude::*;
use vstd::string::StringSliceAdditionalSpecFns;
use super::vfs::{FsError, FileHandle, DirEntry, FileSystem, OpenFlags};
use super::path::{
    normalize, normalize_spec, parent_path, parent_spec, lex_lt, lex_less, lemma_lex_total,
    lemma_lex_trans, lemma_lex_asym, lemma_lex_irrefl,
};
use crate::kv::{keys_unique, has_key, kv_map, lemma_kv_at, lemma_kv_push, lemma_kv_remove, lemma_kv_update};
use crate::text::{starts_with_spec, occurs_at, slice_range, to_string, chars_of};

verus! {

/// Contents and kind of a file-system node.
pub type NodeView = (Seq<u8>, bool);

/// Path, offset and mode of an open file.
pub type OpenView = (Seq<char>, nat, OpenFlags);

struct Inode {
    data: Vec<u8>,
    is_dir: bool,
}

struct Entry {
    path: Vec<char>,
    inode: Inode,
}

struct OpenFile {
    path: Vec<char>,
    offset: usize,
    flags: OpenFlags,
}


/// The files of a fresh RAM disk: `/etc` with the host name, banner and version, and a
/// guest home with a readme.
pub open spec fn initial_files() -> Map<Seq<char>, NodeView> {
    map![
        "/"@ => (Seq::<u8>::empty(), true),
        "/etc/hostname"@ => ("atulyaos".spec_bytes(), false),
        "/etc/motd"@ => ("Welcome to AtulyaOS\nThe Intent Computer System\n".spec_bytes(), false),
        "/etc/version"@ => ("0.3.0\n".spec_bytes(), false),
        "/tmp"@ => (Seq::<u8>::empty(), true),
        "/home"@ => (Seq::<u8>::empty(), true),
        "/home/guest"@ => (Seq::<u8>::empty(), true),
        "/home/guest/readme.txt"@ => ("AtulyaOS - The Intent Computer System\nFuses macOS dock/menubar, Linux terminal,\nand Windows tiling window layouts.\n".spec_bytes(), false),
    ]
}

pub struct RamFs {
    files: Vec<Entry>,
    open_files: BTreeMap<u64, OpenFile>,
    next_handle: u64,
}

spec fn entry_pair(e: Entry) -> (Seq<char>, NodeView) {
    (e.path@, (e.inode.data@, e.inode.is_dir))
}

spec fn open_spec(f: OpenFile) -> OpenView {
    (f.path@, f.offset as nat, f.flags)
}

/// The parent of `p` exists in `fv` (or `p` has none).
pub open spec fn parent_ok(fv: Map<Seq<char>, NodeView>, p: Seq<char>) -> bool {
    match parent_spec(p) {
        Some(q) => fv.contains_key(q),
        None => true,
    }
}

/// The error that `open` reports for the normalised path `p`, if any.
pub open spec fn open_error(fv: Map<Seq<char>, NodeView>, p: Seq<char>, flags: OpenFlags) -> Option<
    FsError,
> {
    if flags != OpenFlags::Read && !parent_ok(fv, p) {
        Some(FsError::NotFound)
    } else if flags == OpenFlags::Read && !fv.contains_key(p) {
        Some(FsError::NotFound)
    } else if fv.contains_key(p) && fv[p].1 {
        Some(FsError::NotAFile)
    } else {
        None
    }
}

/// File contents after writing `b` at offset `off`: the file first grows with zero bytes
/// when the write ends past its end, then bytes `off..off+len(b)` are replaced.
pub open spec fn write_spec(d: Seq<u8>, off: nat, b: Seq<u8>) -> Seq<u8> {
    let end = off + b.len();
    let base = if end > d.len() {
        d + Seq::new((end - d.len()) as nat, |k: int| 0u8)
    } else {
        d
    };
    Seq::new(base.len(), |k: int| if off <= k < end { b[k - off] } else { base[k] })
}

/// What a write puts in a file is what a read from the same offset gives back: the written
/// range holds the written bytes, the bytes before it and the old bytes after it stay, and
/// the file grows to the end of the write when the write ends past it.
pub proof fn lemma_write_then_read(d: Seq<u8>, off: nat, b: Seq<u8>)
    ensures
        write_spec(d, off, b).subrange(off as int, (off + b.len()) as int) == b,
        write_spec(d, off, b).len() == (if off + b.len() > d.len() {
            (off + b.len()) as int
        } else {
            d.len() as int
        }),
        forall|k: int|
            0 <= k < d.len() && !(off <= k < off + b.len()) ==> #[trigger] write_spec(d, off, b)[k] == d[k],
{
    assert(write_spec(d, off, b).subrange(off as int, (off + b.len()) as int) =~= b);
}

/// Prefix of the keys listed by `ls p`.
pub open spec fn ls_prefix(p: Seq<char>) -> Seq<char> {
    if p == seq!['/'] {
        p
    } else {
        p.push('/')
    }
}

/// `k` names a direct child of `p`.
pub open spec fn is_child_key(k: Seq<char>, p: Seq<char>) -> bool {
    &&& k != p
    &&& starts_with_spec(k, ls_prefix(p))
    &&& !k.skip(ls_prefix(p).len() as int).contains('/')
}

/// `entries` is the sorted listing of the direct children of `p` in `fv`.
pub open spec fn ls_spec(fv: Map<Seq<char>, NodeView>, p: Seq<char>, entries: Seq<DirEntry>) -> bool {
    let pre = ls_prefix(p);
    &&& forall|i: int, j: int|
        0 <= i < j < entries.len() ==> lex_lt(#[trigger] entries[i].name@, #[trigger] entries[j].name@)
    &&& forall|i: int|
        0 <= i < entries.len() ==> {
            let k = pre + (#[trigger] entries[i]).name@;
            &&& fv.contains_key(k)
            &&& is_child_key(k, p)
            &&& entries[i].is_dir == fv[k].1
            &&& entries[i].size == fv[k].0.len()
        }
    &&& forall|k: Seq<char>|
        #[trigger] fv.contains_key(k) && is_child_key(k, p) ==> exists|i: int|
            0 <= i < entries.len() && (#[trigger] entries[i]).name@ == k.skip(pre.len() as int)
}

/// Some other node lies below `p`.
pub open spec fn has_children(fv: Map<Seq<char>, NodeView>, p: Seq<char>) -> bool {
    exists|k: Seq<char>| #[trigger] fv.contains_key(k) && k != p && starts_with_spec(k, p.push('/'))
}

fn same_chars(a: &[char], b: &[char]) -> (r: bool)
    ensures
        r == (a@ == b@),
{
    if a.len() != b.len() {
        return false;
    }
    let mut k: usize = 0;
    while k < a.len()
        invariant
            a@.len() == b@.len(),
            k <= a@.len(),
            forall|m: int| 0 <= m < k ==> a@[m] == b@[m],
        decreases a@.len() - k,
    {
        if a[k] != b[k] {
            return false;
        }
        k += 1;
    }
    assert(a@ =~= b@);
    true
}

fn copy_bytes(d: &[u8]) -> (r: Vec<u8>)
    ensures
        r@ == d@,
{
    let mut r: Vec<u8> = Vec::new();
    let mut k: usize = 0;
    while k < d.len()
        invariant
            k <= d@.len(),
            r@ == d@.subrange(0, k as int),
        decreases d@.len() - k,
    {
        r.push(d[k]);
        k += 1;
        assert(r@ =~= d@.subrange(0, k as int));
    }
    assert(r@ =~= d@);
    r
}

fn ascii_bytes(s: &str) -> (r: Vec<u8>)
    ensures
        r@ == s.spec_bytes(),
{
    s.as_bytes_vec()
}

impl RamFs {
    spec fn file_pairs(&self) -> Seq<(Seq<char>, NodeView)> {
        Seq::new(self.files@.len(), |i: int| entry_pair(self.files@[i]))
    }

    /// Every node, by normalised path.
    pub closed spec fn files_view(&self) -> Map<Seq<char>, NodeView> {
        kv_map(self.file_pairs())
    }

    /// Every open file, by handle number.
    pub closed spec fn open_view(&self) -> Map<u64, OpenView> {
        self.open_files@.map_values(|f: OpenFile| open_spec(f))
    }

    /// The handle number that the next `open` hands out.
    pub closed spec fn next_handle_view(&self) -> u64 {
        self.next_handle
    }

    pub closed spec fn wf(&self) -> bool {
        &&& keys_unique(self.file_pairs())
        &&& forall|h: u64| #[trigger] self.open_files@.contains_key(h) ==> h < self.next_handle
    }

    /// The next handle number is not in use.
    pub proof fn lemma_next_fresh(&self)
        requires
            self.wf(),
        ensures
            !self.open_view().contains_key(self.next_handle_view()),
    {
    }

    fn find_file(&self, p: &[char]) -> (r: Option<usize>)
        requires
            self.wf(),
        ensures
            match r {
                Some(i) => i < self.files@.len() && self.files@[i as int].path@ == p@
                    && self.files_view().contains_key(p@) && self.files_view()[p@] == entry_pair(
                    self.files@[i as int],
                ).1,
                None => !self.files_view().contains_key(p@),
            },
    {
        let mut i: usize = 0;
        while i < self.files.len()
            invariant
                self.wf(),
                i <= self.files@.len(),
                forall|j: int| 0 <= j < i ==> self.files@[j].path@ != p@,
            decreases self.files@.len() - i,
        {
            if same_chars(self.files[i].path.as_slice(), p) {
                proof {
                    lemma_kv_at(self.file_pairs(), i as int);
                }
                return Some(i);
            }
            i += 1;
        }
        proof {
            if has_key(self.file_pairs(), p@) {
                let j = choose|j: int| 0 <= j < self.file_pairs().len() && #[trigger] self.file_pairs()[j].0 == p@;
                assert(self.files@[j].path@ == p@);
            }
        }
        None
    }

    /// Adds a node under a path that is not present yet.
    fn add_entry(&mut self, p: Vec<char>, data: Vec<u8>, is_dir: bool)
        requires
            old(self).wf(),
            !old(self).files_view().contains_key(p@),
        ensures
            final(self).wf(),
            final(self).files_view() == old(self).files_view().insert(p@, (data@, is_dir)),
            final(self).open_view() == old(self).open_view(),
            final(self).open_files@ == old(self).open_files@,
            final(self).next_handle == old(self).next_handle,
    {
        let ghost old_pairs = self.file_pairs();
        let ghost pp = p@;
        let ghost node = (data@, is_dir);
        self.files.push(Entry { path: p, inode: Inode { data, is_dir } });
        proof {
            assert(self.file_pairs() =~= old_pairs.push((pp, node)));
            lemma_kv_push(old_pairs, pp, node);
        }
    }

    /// Replaces the node stored at index `i`, keeping its path.
    fn set_entry(&mut self, i: usize, data: Vec<u8>, is_dir: bool)
        requires
            old(self).wf(),
            i < old(self).files@.len(),
        ensures
            final(self).wf(),
            final(self).files_view() == old(self).files_view().insert(
                old(self).files@[i as int].path@,
                (data@, is_dir),
            ),
            final(self).open_view() == old(self).open_view(),
            final(self).open_files@ == old(self).open_files@,
            final(self).next_handle == old(self).next_handle,
    {
        let ghost old_pairs = self.file_pairs();
        let ghost node = (data@, is_dir);
        let p = slice_range(self.files[i].path.as_slice(), 0, self.files[i].path.len());
        proof {
            assert(p@ =~= self.files@[i as int].path@);
        }
        self.files.set(i, Entry { path: p, inode: Inode { data, is_dir } });
        proof {
            assert(self.file_pairs() =~= old_pairs.update(i as int, (old_pairs[i as int].0, node)));
            lemma_kv_update(old_pairs, i as int, node);
        }
    }

    /// Replaces the record of the open file `h`.
    fn set_slot(&mut self, h: u64, path: Vec<char>, offset: usize, flags: OpenFlags)
        requires
            old(self).wf(),
            old(self).open_view().contains_key(h),
        ensures
            final(self).wf(),
            final(self).open_view() == old(self).open_view().insert(h, (path@, offset as nat, flags)),
            final(self).files_view() == old(self).files_view(),
            final(self).next_handle == old(self).next_handle,
    {
        let ghost v = (path@, offset as nat, flags);
        self.open_files.insert(h, OpenFile { path, offset, flags });
        proof {
            assert(self.open_view() =~= old(self).open_view().insert(h, v));
        }
    }

    /// The handle number that the next `open` hands out.
    pub fn next_handle_number(&self) -> (r: u64)
        ensures
            r == self.next_handle_view(),
    {
        self.next_handle
    }

    /// The first `cap` bytes of the file at the normalised `path` when `open` would let it be
    /// read, without opening it; `None` when `open` would refuse.
    pub fn peek(&self, path: &str, cap: usize) -> (r: Option<Vec<u8>>)
        requires
            self.wf(),
        ensures
            ({
                let p = normalize_spec(path@);
                let fv = self.files_view();
                match r {
                    Some(d) => open_error(fv, p, OpenFlags::Read) is None && d@ == fv[p].0.subrange(
                        0,
                        if fv[p].0.len() < cap { fv[p].0.len() as int } else { cap as int },
                    ),
                    None => open_error(fv, p, OpenFlags::Read) is Some,
                }
            }),
    {
        let p = normalize(path);
        match self.find_file(p.as_slice()) {
            None => None,
            Some(i) => {
                if self.files[i].inode.is_dir {
                    return None;
                }
                let d = self.files[i].inode.data.as_slice();
                let n = if d.len() < cap { d.len() } else { cap };
                let mut r: Vec<u8> = Vec::new();
                let mut k: usize = 0;
                while k < n
                    invariant
                        k <= n,
                        n <= d@.len(),
                        r@ == d@.subrange(0, k as int),
                    decreases n - k,
                {
                    r.push(d[k]);
                    k += 1;
                    assert(r@ =~= d@.subrange(0, k as int));
                }
                Some(r)
            },
        }
    }

    pub fn new() -> (r: Self)
        ensures
            r.wf(),
            r.open_view() == Map::<u64, OpenView>::empty(),
            r.next_handle_view() == 1,
            r.files_view() == initial_files(),
    {
        proof {
            reveal_strlit("/");
            reveal_strlit("/etc/hostname");
            reveal_strlit("/etc/motd");
            reveal_strlit("/etc/version");
            reveal_strlit("/tmp");
            reveal_strlit("/home");
            reveal_strlit("/home/guest");
            reveal_strlit("/home/guest/readme.txt");
            assert("/"@.len() == 1);
            assert("/etc/hostname"@.len() == 13);
            assert("/etc/motd"@.len() == 9);
            assert("/etc/version"@.len() == 12);
            assert("/tmp"@.len() == 4);
            assert("/home"@.len() == 5);
            assert("/home/guest"@.len() == 11);
            assert("/home/guest/readme.txt"@.len() == 22);
            assert("/etc/motd"@[1] != "/tmp"@[1]);
            assert("/etc/version"@[1] != "/home/guest"@[1]);
        }
        let mut fs = RamFs { files: Vec::new(), open_files: BTreeMap::new(), next_handle: 1 };
        proof {
            assert(fs.file_pairs() =~= Seq::<(Seq<char>, NodeView)>::empty());
            assert(fs.open_view() =~= Map::<u64, OpenView>::empty());
            assert(fs.files_view() =~= Map::empty());
            assert(fs.open_view() =~= Map::empty());
        }
        fs.add_entry(chars_of("/"), Vec::new(), true);
        fs.add_entry(chars_of("/etc/hostname"), ascii_bytes("atulyaos"), false);
        fs.add_entry(chars_of("/etc/motd"), ascii_bytes("Welcome to AtulyaOS\nThe Intent Computer System\n"), false);
        fs.add_entry(chars_of("/etc/version"), ascii_bytes("0.3.0\n"), false);
        fs.add_entry(chars_of("/tmp"), Vec::new(), true);
        fs.add_entry(chars_of("/home"), Vec::new(), true);
        fs.add_entry(chars_of("/home/guest"), Vec::new(), true);
        fs.add_entry(
            chars_of("/home/guest/readme.txt"),
            ascii_bytes("AtulyaOS - The Intent Computer System\nFuses macOS dock/menubar, Linux terminal,\nand Windows tiling window layouts.\n"),
            false,
        );
        proof {
            assert(fs.files_view() =~= map![
                "/"@ => (Seq::<u8>::empty(), true),
                "/etc/hostname"@ => ("atulyaos".spec_bytes(), false),
                "/etc/motd"@ => ("Welcome to AtulyaOS\nThe Intent Computer System\n".spec_bytes(), false),
                "/etc/version"@ => ("0.3.0\n".spec_bytes(), false),
                "/tmp"@ => (Seq::<u8>::empty(), true),
                "/home"@ => (Seq::<u8>::empty(), true),
                "/home/guest"@ => (Seq::<u8>::empty(), true),
                "/home/guest/readme.txt"@ => ("AtulyaOS - The Intent Computer System\nFuses macOS dock/menubar, Linux terminal,\nand Windows tiling window layouts.\n".spec_bytes(), false),
            ]);
        }
        fs
    }
}


impl RamFs {
    /// Whether the parent of the normalised path `p` exists.
    fn parent_exists(&self, p: &[char]) -> (r: bool)
        requires
            self.wf(),
        ensures
            r == parent_ok(self.files_view(), p@),
    {
        match parent_path(p) {
            Some(q) => self.find_file(q.as_slice()).is_some(),
            None => true,
        }
    }

    /// Whether some other node lies below the path `p`.
    fn children_exist(&self, p: &[char]) -> (r: bool)
        requires
            self.wf(),
        ensures
            r == has_children(self.files_view(), p@),
    {
        let mut pre: Vec<char> = slice_range(p, 0, p.len());
        pre.push('/');
        proof {
            assert(pre@ =~= p@.push('/'));
        }
        let mut i: usize = 0;
        while i < self.files.len()
            invariant
                self.wf(),
                pre@ == p@.push('/'),
                i <= self.files@.len(),
                forall|j: int|
                    0 <= j < i ==> !(self.files@[j].path@ != p@ && starts_with_spec(
                        self.files@[j].path@,
                        pre@,
                    )),
            decreases self.files@.len() - i,
        {
            let k = self.files[i].path.as_slice();
            if crate::text::occurs_at_exec(k, pre.as_slice(), 0) && !same_chars(k, p) {
                proof {
                    lemma_kv_at(self.file_pairs(), i as int);
                    assert(self.files_view().contains_key(self.files@[i as int].path@));
                }
                return true;
            }
            i += 1;
        }
        proof {
            if has_children(self.files_view(), p@) {
                let k = choose|k: Seq<char>| #[trigger] self.files_view().contains_key(k) && k != p@
                    && starts_with_spec(k, p@.push('/'));
                let j = choose|j: int| 0 <= j < self.file_pairs().len() && #[trigger] self.file_pairs()[j].0 == k;
                assert(self.files@[j].path@ == k);
            }
        }
        false
    }
}

impl FileSystem for RamFs {
    open spec fn fs_inv(&self) -> bool {
        self.wf()
    }

    open spec fn open_ready(&self) -> bool {
        self.next_handle_view() < u64::MAX
    }

    open spec fn read_ready(&self, handle: FileHandle) -> bool {
        let ov = self.open_view();
        let fv = self.files_view();
        ov.contains_key(handle.0) && fv.contains_key(ov[handle.0].0) ==> ov[handle.0].1
            <= fv[ov[handle.0].0].0.len()
    }

    open spec fn write_ready(&self, handle: FileHandle, len: nat) -> bool {
        self.open_view().contains_key(handle.0) ==> self.open_view()[handle.0].1 + len
            <= usize::MAX
    }

    /// Opens the file at the normalised `path`. Writing modes need the parent directory and
    /// create a missing file; `Truncate` empties it; `Read` needs the file.
    fn open(&mut self, path: &str, flags: OpenFlags) -> (r: Result<FileHandle, FsError>)
        ensures
            ({
                let p = normalize_spec(path@);
                let fv = old(self).files_view();
                match open_error(fv, p, flags) {
                    Some(e) => r == Err::<FileHandle, FsError>(e) && final(self).files_view() == fv
                        && final(self).open_view() == old(self).open_view()
                        && final(self).next_handle_view() == old(self).next_handle_view(),
                    None => r == Ok::<FileHandle, FsError>(FileHandle(old(self).next_handle_view()))
                        && final(self).next_handle_view() == old(self).next_handle_view() + 1
                        && final(self).open_view() == old(self).open_view().insert(
                        old(self).next_handle_view(),
                        (p, 0nat, flags),
                    ) && final(self).files_view() == (if !fv.contains_key(p) || flags
                        == OpenFlags::Truncate {
                        fv.insert(p, (Seq::empty(), false))
                    } else {
                        fv
                    }),
                }
            }),
    {
        let p = normalize(path);
        if flags != OpenFlags::Read {
            if !self.parent_exists(p.as_slice()) {
                return Err(FsError::NotFound);
            }
        } else {
            if self.find_file(p.as_slice()).is_none() {
                return Err(FsError::NotFound);
            }
        }
        match self.find_file(p.as_slice()) {
            Some(i) => {
                if self.files[i].inode.is_dir {
                    return Err(FsError::NotAFile);
                }
                if flags == OpenFlags::Truncate {
                    self.set_entry(i, Vec::new(), false);
                    proof {
                        assert(old(self).files_view()[p@].1 == false);
                    }
                }
            },
            None => {
                if flags == OpenFlags::Read {
                    return Err(FsError::NotFound);
                }
                let q = slice_range(p.as_slice(), 0, p.len());
                proof {
                    assert(q@ =~= p@);
                }
                self.add_entry(q, Vec::new(), false);
            },
        }
        let handle = self.next_handle;
        let ghost ov = self.open_view();
        let ghost v = (p@, 0nat, flags);
        self.next_handle = self.next_handle + 1;
        self.open_files.insert(handle, OpenFile { path: p, offset: 0, flags });
        proof {
            assert(self.open_view() =~= ov.insert(handle, v));
        }
        Ok(FileHandle(handle))
    }

    /// Reads from the handle's offset into `buf`, as many bytes as fit and remain.
    fn read(&mut self, handle: FileHandle, buf: &mut [u8]) -> (r: Result<usize, FsError>)
        ensures
            ({
                let ov = old(self).open_view();
                let fv = old(self).files_view();
                let h = handle.0;
                if !ov.contains_key(h) || !fv.contains_key(ov[h].0) {
                    r == Err::<usize, FsError>(FsError::NotFound) && final(self).files_view() == fv
                        && final(self).open_view() == ov && final(buf)@ == old(buf)@
                        && final(self).next_handle_view() == old(self).next_handle_view()
                } else {
                    let d = fv[ov[h].0].0;
                    let off = ov[h].1;
                    let n = if old(buf)@.len() < d.len() - off {
                        old(buf)@.len() as int
                    } else {
                        d.len() - off
                    };
                    &&& r == Ok::<usize, FsError>(n as usize)
                    &&& final(buf)@ == d.subrange(off as int, off + n) + old(buf)@.subrange(
                        n,
                        old(buf)@.len() as int,
                    )
                    &&& final(self).files_view() == fv
                    &&& final(self).open_view() == ov.insert(h, (ov[h].0, (off + n) as nat, ov[h].2))
                    &&& final(self).next_handle_view() == old(self).next_handle_view()
                }
            }),
    {
        let (path, offset, flags) = match self.open_files.get(&handle.0) {
            Some(f) => (slice_range(f.path.as_slice(), 0, f.path.len()), f.offset, f.flags),
            None => {
                return Err(FsError::NotFound);
            },
        };
        proof {
            assert(path@ =~= self.open_view()[handle.0].0);
        }
        let fi = match self.find_file(path.as_slice()) {
            Some(fi) => fi,
            None => {
                return Err(FsError::NotFound);
            },
        };
        let dlen = self.files[fi].inode.data.len();
        let available = dlen - offset;
        let to_read = if buf.len() < available { buf.len() } else { available };
        let mut k: usize = 0;
        while k < to_read
            invariant
                self.wf(),
                fi < self.files@.len(),
                dlen == self.files@[fi as int].inode.data@.len(),
                offset + to_read <= dlen,
                to_read <= buf@.len(),
                buf@.len() == old(buf)@.len(),
                k <= to_read,
                forall|m: int| 0 <= m < k ==> buf@[m] == self.files@[fi as int].inode.data@[offset + m],
                forall|m: int| to_read <= m < buf@.len() ==> buf@[m] == old(buf)@[m],
            decreases to_read - k,
        {
            buf[k] = self.files[fi].inode.data[offset + k];
            k += 1;
        }
        proof {
            let d = self.files@[fi as int].inode.data@;
            assert(buf@ =~= d.subrange(offset as int, offset + to_read) + old(buf)@.subrange(
                to_read as int,
                old(buf)@.len() as int,
            ));
        }
        self.set_slot(handle.0, path, offset + to_read, flags);
        Ok(to_read)
    }

    /// Writes `buf` at the handle's offset, growing the file as needed.
    fn write(&mut self, handle: FileHandle, buf: &[u8]) -> (r: Result<usize, FsError>)
        ensures
            ({
                let ov = old(self).open_view();
                let fv = old(self).files_view();
                let h = handle.0;
                let unchanged = final(self).files_view() == fv && final(self).open_view() == ov
                    && final(self).next_handle_view() == old(self).next_handle_view();
                if !ov.contains_key(h) {
                    r == Err::<usize, FsError>(FsError::NotFound) && unchanged
                } else if ov[h].2 == OpenFlags::Read {
                    r == Err::<usize, FsError>(FsError::PermissionDenied) && unchanged
                } else if !fv.contains_key(ov[h].0) {
                    r == Err::<usize, FsError>(FsError::NotFound) && unchanged
                } else {
                    let p = ov[h].0;
                    let off = ov[h].1;
                    &&& r == Ok::<usize, FsError>(buf@.len() as usize)
                    &&& final(self).files_view() == fv.insert(
                        p,
                        (write_spec(fv[p].0, off, buf@), fv[p].1),
                    )
                    &&& final(self).open_view() == ov.insert(h, (p, off + buf@.len(), ov[h].2))
                    &&& final(self).next_handle_view() == old(self).next_handle_view()
                }
            }),
    {
        let (path, offset, flags) = match self.open_files.get(&handle.0) {
            Some(f) => (slice_range(f.path.as_slice(), 0, f.path.len()), f.offset, f.flags),
            None => {
                return Err(FsError::NotFound);
            },
        };
        proof {
            assert(path@ =~= self.open_view()[handle.0].0);
        }
        if flags == OpenFlags::Read {
            return Err(FsError::PermissionDenied);
        }
        let fi = match self.find_file(path.as_slice()) {
            Some(fi) => fi,
            None => {
                return Err(FsError::NotFound);
            },
        };
        let is_dir = self.files[fi].inode.is_dir;
        let mut data = copy_bytes(self.files[fi].inode.data.as_slice());
        let ghost d = data@;
        let new_len = offset + buf.len();
        while data.len() < new_len
            invariant
                d.len() <= data@.len() <= new_len || data@.len() == d.len(),
                data@.len() >= d.len(),
                forall|m: int| 0 <= m < d.len() ==> data@[m] == d[m],
                forall|m: int| d.len() <= m < data@.len() ==> data@[m] == 0u8,
            decreases new_len - data@.len(),
        {
            data.push(0u8);
        }
        let ghost base = data@;
        proof {
            let end = offset + buf@.len();
            let spec_base = if end > d.len() {
                d + Seq::new((end - d.len()) as nat, |k: int| 0u8)
            } else {
                d
            };
            assert(base =~= spec_base);
        }
        let mut k: usize = 0;
        while k < buf.len()
            invariant
                new_len == offset + buf@.len(),
                data@.len() == base.len(),
                base.len() >= new_len,
                k <= buf@.len(),
                forall|m: int|
                    0 <= m < data@.len() ==> data@[m] == if offset <= m < offset + k {
                        buf@[m - offset]
                    } else {
                        base[m]
                    },
            decreases buf@.len() - k,
        {
            data.set(offset + k, buf[k]);
            k += 1;
        }
        proof {
            assert(data@ =~= write_spec(d, offset as nat, buf@));
        }
        self.set_entry(fi, data, is_dir);
        self.set_slot(handle.0, path, new_len, flags);
        Ok(buf.len())
    }

    fn close(&mut self, handle: FileHandle) -> (r: Result<(), FsError>)
        ensures
            old(self).open_view().contains_key(handle.0) ==> r == Ok::<(), FsError>(())
                && final(self).open_view() == old(self).open_view().remove(handle.0),
            !old(self).open_view().contains_key(handle.0) ==> r == Err::<(), FsError>(
                FsError::NotFound,
            ) && final(self).open_view() == old(self).open_view(),
            final(self).files_view() == old(self).files_view(),
            final(self).next_handle_view() == old(self).next_handle_view(),
    {
        let ghost ov = self.open_view();
        match self.open_files.remove(&handle.0) {
            Some(_) => {
                proof {
                    assert(self.open_view() =~= ov.remove(handle.0));
                }
                Ok(())
            },
            None => {
                proof {
                    assert(self.open_view() =~= ov);
                }
                Err(FsError::NotFound)
            },
        }
    }

    /// Lists the direct children of the normalised `path`, sorted by name.
    fn ls(&self, path: &str) -> (r: Result<Vec<DirEntry>, FsError>)
        ensures
            ({
                let p = normalize_spec(path@);
                let fv = self.files_view();
                if !fv.contains_key(p) {
                    r == Err::<Vec<DirEntry>, FsError>(FsError::NotFound)
                } else {
                    r matches Ok(entries) && ls_spec(fv, p, entries@)
                }
            }),
    {
        let p = normalize(path);
        if self.find_file(p.as_slice()).is_none() {
            return Err(FsError::NotFound);
        }
        let root = p.len() == 1 && p[0] == '/';
        let mut pre: Vec<char> = slice_range(p.as_slice(), 0, p.len());
        if !root {
            pre.push('/');
        }
        proof {
            if root {
                assert(p@ =~= seq!['/']);
                assert(pre@ =~= ls_prefix(p@));
            } else {
                assert(p@ != seq!['/']);
                assert(pre@ =~= ls_prefix(p@));
            }
        }
        let mut out: Vec<DirEntry> = Vec::new();
        let mut i: usize = 0;
        while i < self.files.len()
            invariant
                self.wf(),
                pre@ == ls_prefix(p@),
                i <= self.files@.len(),
                self.ls_inv(p@, out@, i as int),
            decreases self.files@.len() - i,
        {
            let k = self.files[i].path.as_slice();
            match child_name(k, p.as_slice(), pre.as_slice()) {
                Some(name) => {
                    let entry = DirEntry {
                        name: to_string(name.as_slice()),
                        is_dir: self.files[i].inode.is_dir,
                        size: self.files[i].inode.data.len(),
                    };
                    proof {
                        self.lemma_ls_fresh(p@, out@, i as int);
                    }
                    let ghost old_out = out@;
                    let pos = insert_sorted(&mut out, entry);
                    proof {
                        self.lemma_ls_add(p@, old_out, out@, pos as int, i as int);
                    }
                },
                None => {
                    proof {
                        self.lemma_ls_skip(p@, out@, i as int);
                    }
                },
            }
            i += 1;
        }
        proof {
            self.lemma_ls_done(p@, out@);
        }
        Ok(out)
    }

    /// Creates a directory at the normalised `path`.
    fn mkdir(&mut self, path: &str) -> (r: Result<(), FsError>)
        ensures
            ({
                let p = normalize_spec(path@);
                let fv = old(self).files_view();
                &&& final(self).open_view() == old(self).open_view()
                &&& final(self).next_handle_view() == old(self).next_handle_view()
                &&& if fv.contains_key(p) {
                    r == Err::<(), FsError>(FsError::AlreadyExists) && final(self).files_view() == fv
                } else if !parent_ok(fv, p) {
                    r == Err::<(), FsError>(FsError::NotFound) && final(self).files_view() == fv
                } else {
                    r == Ok::<(), FsError>(()) && final(self).files_view() == fv.insert(
                        p,
                        (Seq::empty(), true),
                    )
                }
            }),
    {
        let p = normalize(path);
        if self.find_file(p.as_slice()).is_some() {
            return Err(FsError::AlreadyExists);
        }
        if !self.parent_exists(p.as_slice()) {
            return Err(FsError::NotFound);
        }
        self.add_entry(p, Vec::new(), true);
        Ok(())
    }

    /// Creates an empty file at the normalised `path` unless the path exists.
    fn touch(&mut self, path: &str) -> (r: Result<(), FsError>)
        ensures
            ({
                let p = normalize_spec(path@);
                let fv = old(self).files_view();
                &&& final(self).open_view() == old(self).open_view()
                &&& final(self).next_handle_view() == old(self).next_handle_view()
                &&& if fv.contains_key(p) {
                    r == Ok::<(), FsError>(()) && final(self).files_view() == fv
                } else if !parent_ok(fv, p) {
                    r == Err::<(), FsError>(FsError::NotFound) && final(self).files_view() == fv
                } else {
                    r == Ok::<(), FsError>(()) && final(self).files_view() == fv.insert(
                        p,
                        (Seq::empty(), false),
                    )
                }
            }),
    {
        let p = normalize(path);
        if self.find_file(p.as_slice()).is_some() {
            return Ok(());
        }
        if !self.parent_exists(p.as_slice()) {
            return Err(FsError::NotFound);
        }
        self.add_entry(p, Vec::new(), false);
        Ok(())
    }

    /// Removes the node at the normalised `path`; the root and non-empty directories stay.
    fn rm(&mut self, path: &str) -> (r: Result<(), FsError>)
        ensures
            ({
                let p = normalize_spec(path@);
                let fv = old(self).files_view();
                &&& final(self).open_view() == old(self).open_view()
                &&& final(self).next_handle_view() == old(self).next_handle_view()
                &&& if p == seq!['/'] {
                    r == Err::<(), FsError>(FsError::PermissionDenied) && final(self).files_view()
                        == fv
                } else if !fv.contains_key(p) {
                    r == Err::<(), FsError>(FsError::NotFound) && final(self).files_view() == fv
                } else if fv[p].1 && has_children(fv, p) {
                    r == Err::<(), FsError>(FsError::PermissionDenied) && final(self).files_view()
                        == fv
                } else {
                    r == Ok::<(), FsError>(()) && final(self).files_view() == fv.remove(p)
                }
            }),
    {
        let p = normalize(path);
        if p.len() == 1 && p[0] == '/' {
            proof {
                assert(p@ =~= seq!['/']);
            }
            return Err(FsError::PermissionDenied);
        }
        proof {
            assert(p@ != seq!['/']);
        }
        let fi = match self.find_file(p.as_slice()) {
            Some(fi) => fi,
            None => {
                return Err(FsError::NotFound);
            },
        };
        if self.files[fi].inode.is_dir {
            if self.children_exist(p.as_slice()) {
                return Err(FsError::PermissionDenied);
            }
        }
        let ghost old_pairs = self.file_pairs();
        let _ = self.files.remove(fi);
        proof {
            assert(self.file_pairs() =~= old_pairs.remove(fi as int));
            lemma_kv_remove(old_pairs, fi as int);
        }
        Ok(())
    }

    /// Size in bytes of the node at the normalised `path`.
    fn stat(&self, path: &str) -> (r: Result<usize, FsError>)
        ensures
            ({
                let p = normalize_spec(path@);
                let fv = self.files_view();
                if fv.contains_key(p) {
                    r == Ok::<usize, FsError>(fv[p].0.len() as usize)
                } else {
                    r == Err::<usize, FsError>(FsError::NotFound)
                }
            }),
    {
        let p = normalize(path);
        match self.find_file(p.as_slice()) {
            Some(fi) => Ok(self.files[fi].inode.data.len()),
            None => Err(FsError::NotFound),
        }
    }
}


impl RamFs {
    /// Loop invariant of `ls` after the first `i` nodes: `out` is sorted, lists children
    /// among those nodes with their kind and size, and lists every such child.
    spec fn ls_inv(&self, p: Seq<char>, out: Seq<DirEntry>, i: int) -> bool {
        let pre = ls_prefix(p);
        let fv = self.files_view();
        &&& forall|a: int, b: int|
            0 <= a < b < out.len() ==> lex_lt(#[trigger] out[a].name@, #[trigger] out[b].name@)
        &&& forall|a: int|
            0 <= a < out.len() ==> exists|j: int|
                0 <= j < i && #[trigger] self.files@[j].path@ == pre + (#[trigger] out[a]).name@
        &&& forall|a: int|
            0 <= a < out.len() ==> {
                let k = pre + (#[trigger] out[a]).name@;
                &&& fv.contains_key(k)
                &&& is_child_key(k, p)
                &&& out[a].is_dir == fv[k].1
                &&& out[a].size == fv[k].0.len()
            }
        &&& forall|j: int|
            0 <= j < i && is_child_key(#[trigger] self.files@[j].path@, p) ==> exists|a: int|
                0 <= a < out.len() && (#[trigger] out[a]).name@ == self.files@[j].path@.skip(
                    pre.len() as int,
                )
    }

    proof fn lemma_ls_skip(&self, p: Seq<char>, out: Seq<DirEntry>, i: int)
        requires
            self.wf(),
            0 <= i < self.files@.len(),
            self.ls_inv(p, out, i),
            !is_child_key(self.files@[i].path@, p),
        ensures
            self.ls_inv(p, out, i + 1),
    {
        let pre = ls_prefix(p);
        assert forall|a: int| 0 <= a < out.len() implies exists|j: int|
            0 <= j < i + 1 && #[trigger] self.files@[j].path@ == pre + (#[trigger] out[a]).name@ by {
            let j = choose|j: int| 0 <= j < i && #[trigger] self.files@[j].path@ == pre + (#[trigger] out[a]).name@;
        }
    }

    /// The name of the child at node `i` is not listed yet.
    proof fn lemma_ls_fresh(&self, p: Seq<char>, out: Seq<DirEntry>, i: int)
        requires
            self.wf(),
            0 <= i < self.files@.len(),
            self.ls_inv(p, out, i),
            is_child_key(self.files@[i].path@, p),
        ensures
            forall|a: int|
                0 <= a < out.len() ==> (#[trigger] out[a]).name@ != self.files@[i].path@.skip(
                    ls_prefix(p).len() as int,
                ),
    {
        let pre = ls_prefix(p);
        let k = self.files@[i].path@;
        assert(pre + k.skip(pre.len() as int) =~= k);
        assert forall|a: int| 0 <= a < out.len() implies (#[trigger] out[a]).name@ != k.skip(pre.len() as int) by {
            if out[a].name@ == k.skip(pre.len() as int) {
                let j = choose|j: int| 0 <= j < i && #[trigger] self.files@[j].path@ == pre + (#[trigger] out[a]).name@;
                assert(self.file_pairs()[j].0 == self.file_pairs()[i].0);
            }
        }
    }

    proof fn lemma_ls_add(&self, p: Seq<char>, old_out: Seq<DirEntry>, out: Seq<DirEntry>, pos: int, i: int)
        requires
            self.wf(),
            0 <= i < self.files@.len(),
            self.ls_inv(p, old_out, i),
            is_child_key(self.files@[i].path@, p),
            0 <= pos <= old_out.len(),
            out.len() == old_out.len() + 1,
            forall|a: int| 0 <= a < pos ==> out[a] == old_out[a],
            forall|a: int| pos < a < out.len() ==> out[a] == old_out[a - 1],
            out[pos].name@ == self.files@[i].path@.skip(ls_prefix(p).len() as int),
            out[pos].is_dir == self.files@[i].inode.is_dir,
            out[pos].size == self.files@[i].inode.data@.len(),
            forall|a: int, b: int|
                0 <= a < b < out.len() ==> lex_lt(#[trigger] out[a].name@, #[trigger] out[b].name@),
        ensures
            self.ls_inv(p, out, i + 1),
    {
        let pre = ls_prefix(p);
        let fv = self.files_view();
        let k = self.files@[i].path@;
        lemma_kv_at(self.file_pairs(), i);
        assert(pre + out[pos].name@ =~= k);
        assert forall|a: int| 0 <= a < out.len() implies exists|j: int|
            0 <= j < i + 1 && #[trigger] self.files@[j].path@ == pre + (#[trigger] out[a]).name@ by {
            if a < pos {
                let j = choose|j: int| 0 <= j < i && #[trigger] self.files@[j].path@ == pre + (#[trigger] old_out[a]).name@;
            } else if a > pos {
                let j = choose|j: int| 0 <= j < i && #[trigger] self.files@[j].path@ == pre + (#[trigger] old_out[a - 1]).name@;
            } else {
                assert(self.files@[i].path@ == pre + out[a].name@);
            }
        }
        assert forall|a: int| 0 <= a < out.len() implies {
            let kk = pre + (#[trigger] out[a]).name@;
            &&& fv.contains_key(kk)
            &&& is_child_key(kk, p)
            &&& out[a].is_dir == fv[kk].1
            &&& out[a].size == fv[kk].0.len()
        } by {
            if a < pos {
                assert(out[a] == old_out[a]);
            } else if a > pos {
                assert(out[a] == old_out[a - 1]);
            }
        }
        assert forall|j: int|
            0 <= j < i + 1 && is_child_key(#[trigger] self.files@[j].path@, p) implies exists|a: int|
            0 <= a < out.len() && (#[trigger] out[a]).name@ == self.files@[j].path@.skip(
                pre.len() as int,
            ) by {
            if j == i {
                assert(out[pos].name@ == k.skip(pre.len() as int));
            } else {
                let a = choose|a: int|
                    0 <= a < old_out.len() && (#[trigger] old_out[a]).name@ == self.files@[j].path@.skip(
                        pre.len() as int,
                    );
                if a < pos {
                    assert(out[a] == old_out[a]);
                } else {
                    assert(out[a + 1] == old_out[a]);
                }
            }
        }
    }

    proof fn lemma_ls_done(&self, p: Seq<char>, out: Seq<DirEntry>)
        requires
            self.wf(),
            self.ls_inv(p, out, self.files@.len() as int),
        ensures
            ls_spec(self.files_view(), p, out),
    {
        let fv = self.files_view();
        assert forall|kk: Seq<char>| #[trigger] fv.contains_key(kk) && is_child_key(kk, p) implies exists|a: int|
            0 <= a < out.len() && (#[trigger] out[a]).name@ == kk.skip(ls_prefix(p).len() as int) by {
            let j = choose|j: int| 0 <= j < self.file_pairs().len() && #[trigger] self.file_pairs()[j].0 == kk;
            assert(self.files@[j].path@ == kk);
        }
    }
}

/// The name of the key `k` below the directory `p` (with listing prefix `pre`), when `k`
/// is a direct child of `p`.
fn child_name(k: &[char], p: &[char], pre: &[char]) -> (r: Option<Vec<char>>)
    requires
        pre@ == ls_prefix(p@),
    ensures
        match r {
            Some(n) => is_child_key(k@, p@) && n@ == k@.skip(pre@.len() as int),
            None => !is_child_key(k@, p@),
        },
{
    if same_chars(k, p) || !crate::text::occurs_at_exec(k, pre, 0) {
        return None;
    }
    let rest = slice_range(k, pre.len(), k.len());
    let slash = chars_of("/");
    let has_slash = crate::text::contains_chars(rest.as_slice(), slash.as_slice());
    proof {
        reveal_strlit("/");
        assert(slash@ =~= seq!['/']);
        assert(rest@ =~= k@.skip(pre@.len() as int));
        if rest@.contains('/') {
            let m = choose|m: int| 0 <= m < rest@.len() && rest@[m] == '/';
            assert(rest@.subrange(m, m + 1) =~= slash@);
            assert(occurs_at(rest@, slash@, m));
        }
        if crate::text::contains_spec(rest@, slash@) {
            let m = choose|m: int| occurs_at(rest@, slash@, m);
            assert(rest@.subrange(m, m + 1)[0] == '/');
            assert(rest@[m] == '/');
        }
    }
    if has_slash {
        None
    } else {
        Some(rest)
    }
}

/// Inserts `e` into the listing `out`, sorted strictly by name, before the first greater name.
fn insert_sorted(out: &mut Vec<DirEntry>, e: DirEntry) -> (pos: usize)
    requires
        forall|a: int, b: int|
            0 <= a < b < old(out)@.len() ==> lex_lt(#[trigger] old(out)@[a].name@, #[trigger] old(out)@[b].name@),
        forall|a: int| 0 <= a < old(out)@.len() ==> (#[trigger] old(out)@[a]).name@ != e.name@,
    ensures
        pos <= old(out)@.len(),
        final(out)@ == old(out)@.insert(pos as int, e),
        final(out)@.len() == old(out)@.len() + 1,
        forall|a: int| 0 <= a < pos ==> final(out)@[a] == old(out)@[a],
        forall|a: int| pos < a < final(out)@.len() ==> final(out)@[a] == old(out)@[a - 1],
        final(out)@[pos as int] == e,
        forall|a: int, b: int|
            0 <= a < b < final(out)@.len() ==> lex_lt(#[trigger] final(out)@[a].name@, #[trigger] final(out)@[b].name@),
{
    let name = chars_of(e.name.as_str());
    let pos = sorted_insert_pos(out, name.as_slice());
    let ghost o = out@;
    proof {
        assert forall|a: int| 0 <= a < pos implies lex_lt(o[a].name@, e.name@) by {
            lemma_lex_total(o[a].name@, e.name@);
        }
    }
    out.insert(pos, e);
    proof {
        assert forall|a: int, b: int| 0 <= a < b < out@.len() implies lex_lt(
            #[trigger] out@[a].name@,
            #[trigger] out@[b].name@,
        ) by {
            if b == pos {
                assert(out@[a] == o[a]);
            } else if a == pos {
                assert(out@[b] == o[b - 1]);
                if b - 1 > pos {
                    lemma_lex_trans(e.name@, o[pos as int].name@, o[b - 1].name@);
                }
            } else {
                let a2 = if a < pos { a } else { a - 1 };
                let b2 = if b < pos { b } else { b - 1 };
                assert(out@[a] == o[a2]);
                assert(out@[b] == o[b2]);
                if a < pos && b > pos {
                    if b2 > a2 {
                    }
                }
            }
        }
    }
    pos
}

/// Position at which `name` goes into the sorted listing `out`: after every name that is
/// not greater than it.
fn sorted_insert_pos(out: &Vec<DirEntry>, name: &[char]) -> (pos: usize)
    requires
        forall|a: int, b: int|
            0 <= a < b < out@.len() ==> lex_lt(#[trigger] out@[a].name@, #[trigger] out@[b].name@),
    ensures
        pos <= out@.len(),
        forall|a: int| 0 <= a < pos ==> !lex_lt(name@, #[trigger] out@[a].name@),
        pos < out@.len() ==> lex_lt(name@, out@[pos as int].name@),
{
    let mut pos: usize = 0;
    while pos < out.len()
        invariant
            pos <= out@.len(),
            forall|a: int| 0 <= a < pos ==> !lex_lt(name@, #[trigger] out@[a].name@),
        decreases out@.len() - pos,
    {
        let n = chars_of(out[pos].name.as_str());
        if lex_less(name, n.as_slice()) {
            return pos;
        }
        pos += 1;
    }
    pos
}

} // verus!
