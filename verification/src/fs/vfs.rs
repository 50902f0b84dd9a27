//! Virtual file system: mount table, path resolution and open files.
use vstd::prelude::*;

use crate::text::{
    chars_eq, chars_less, chars_of, chars_prefix, is_prefix, lemma_less_irreflexive,
    lemma_less_total, lemma_less_transitive, seq_less, string_of, strictly_sorted,
};
use crate::{KernelError, KernelResult};

verus! {

#[derive(Debug, Clone, Copy, PartialEq, Eq, Structural)]
pub enum FileSystemType {
    NTFS,
    FAT32,
    RamFs,
    ProcFs,
    DevFs,
    Unknown,
}

impl FileSystemType {
    /// The lower-case name of the file-system type.
    pub fn as_str(&self) -> (r: &'static str)
        ensures
            r == match *self {
                FileSystemType::NTFS => "ntfs",
                FileSystemType::FAT32 => "fat32",
                FileSystemType::RamFs => "ramfs",
                FileSystemType::ProcFs => "procfs",
                FileSystemType::DevFs => "devfs",
                FileSystemType::Unknown => "unknown",
            },
    {
        match self {
            FileSystemType::NTFS => "ntfs",
            FileSystemType::FAT32 => "fat32",
            FileSystemType::RamFs => "ramfs",
            FileSystemType::ProcFs => "procfs",
            FileSystemType::DevFs => "devfs",
            FileSystemType::Unknown => "unknown",
        }
    }
}

#[derive(Debug, Clone, Copy, PartialEq, Eq, Structural)]
pub enum FileType {
    Regular,
    Directory,
    Symlink,
    Device,
    Pipe,
    Unknown,
}

#[derive(Debug, Clone, Copy, PartialEq, Eq, Structural)]
pub struct FilePermissions {
    pub owner_read: bool,
    pub owner_write: bool,
    pub owner_execute: bool,
    pub group_read: bool,
    pub group_write: bool,
    pub group_execute: bool,
    pub others_read: bool,
    pub others_write: bool,
    pub others_execute: bool,
}

impl Default for FilePermissions {
    /// Read for everyone, write for the owner.
    fn default() -> (r: Self)
        ensures
            r == (FilePermissions {
                owner_read: true,
                owner_write: true,
                owner_execute: false,
                group_read: true,
                group_write: false,
                group_execute: false,
                others_read: true,
                others_write: false,
                others_execute: false,
            }),
    {
        FilePermissions {
            owner_read: true,
            owner_write: true,
            owner_execute: false,
            group_read: true,
            group_write: false,
            group_execute: false,
            others_read: true,
            others_write: false,
            others_execute: false,
        }
    }
}

#[derive(Debug, Clone, Copy, PartialEq, Eq, Structural)]
pub struct FileMetadata {
    pub inode: u64,
    pub file_type: FileType,
    pub size: u64,
    pub permissions: FilePermissions,
    pub created: u64,
    pub modified: u64,
    pub accessed: u64,
    pub nlinks: u64,
    pub uid: u32,
    pub gid: u32,
}

#[derive(Debug, Clone)]
pub struct DirEntry {
    pub name: String,
    pub inode: u64,
    pub file_type: FileType,
}

pub const OPEN_READ_ONLY: u32 = 0x01;
pub const OPEN_WRITE_ONLY: u32 = 0x02;
pub const OPEN_READ_WRITE: u32 = 0x03;
pub const OPEN_CREATE: u32 = 0x10;
pub const OPEN_TRUNCATE: u32 = 0x20;
pub const OPEN_APPEND: u32 = 0x40;
pub const OPEN_EXCLUSIVE: u32 = 0x80;

/// How a file is opened.
#[derive(Debug, Clone, Copy, PartialEq, Eq, Structural)]
pub struct OpenFlags {
    pub bits: u32,
}

impl OpenFlags {
    pub fn from_bits_retain(bits: u32) -> (r: Self)
        ensures
            r.bits == bits,
    {
        OpenFlags { bits }
    }

    pub fn bits(&self) -> (r: u32)
        ensures
            r == self.bits,
    {
        self.bits
    }

    pub fn contains(&self, other: OpenFlags) -> (r: bool)
        ensures
            r == (self.bits & other.bits == other.bits),
    {
        self.bits & other.bits == other.bits
    }
}

/// Reading is allowed: the flags hold read-only or read-write.
pub open spec fn may_read(bits: u32) -> bool {
    bits & OPEN_READ_ONLY == OPEN_READ_ONLY || bits & OPEN_READ_WRITE == OPEN_READ_WRITE
}

/// Writing is allowed: the flags hold write-only or read-write.
pub open spec fn may_write(bits: u32) -> bool {
    bits & OPEN_WRITE_ONLY == OPEN_WRITE_ONLY || bits & OPEN_READ_WRITE == OPEN_READ_WRITE
}

pub type FileOffset = i64;

/// A file or directory of some file system.
pub trait Inode: Sized {
    /// `r` is a result `metadata` may report for this inode.
    spec fn metadata_gives(&self, r: KernelResult<FileMetadata>) -> bool;

    /// `r` is a result `lookup` may give for the entry `name` of this inode.
    spec fn lookup_gives(&self, name: Seq<char>, r: KernelResult<Self>) -> bool;

    fn metadata(&self) -> (r: KernelResult<FileMetadata>)
        ensures
            self.metadata_gives(r),
    ;

    /// `r` and `after` are a result and buffer contents a read from
    /// `offset` into a buffer holding `before` may give.
    spec fn read_gives(&self, offset: FileOffset, before: Seq<u8>, after: Seq<u8>, r: KernelResult<usize>) -> bool;

    /// `after` (the inode once written) and `r` are what writing `data` at
    /// `offset` may give.
    spec fn write_gives(&self, after: Self, offset: FileOffset, data: Seq<u8>, r: KernelResult<usize>) -> bool;

    /// Reads from `offset` into `buffer`; never reports more bytes than it holds.
    fn read(&self, offset: FileOffset, buffer: &mut [u8]) -> (r: KernelResult<usize>)
        ensures
            self.read_gives(offset, old(buffer)@, final(buffer)@, r),
            final(buffer)@.len() == old(buffer)@.len(),
            r matches Ok(n) ==> n <= old(buffer)@.len(),
    ;

    /// Writes `data` at `offset`; never reports more bytes than it was given.
    fn write(&mut self, offset: FileOffset, data: &[u8]) -> (r: KernelResult<usize>)
        ensures
            old(self).write_gives(*final(self), offset, data@, r),
            r matches Ok(n) ==> n <= data@.len(),
    ;

    /// `r` is a listing `readdir` may give for this inode.
    spec fn readdir_gives(&self, r: KernelResult<Vec<DirEntry>>) -> bool;

    fn readdir(&self) -> (r: KernelResult<Vec<DirEntry>>)
        ensures
            self.readdir_gives(r),
    ;

    fn lookup(&self, name: &str) -> (r: KernelResult<Self>)
        ensures
            self.lookup_gives(name@, r),
    ;

    fn create(&mut self, name: &str, file_type: FileType) -> KernelResult<Self>;

    fn unlink(&mut self, name: &str) -> KernelResult<()>;

    fn truncate(&mut self, size: u64) -> KernelResult<()>;

    fn clone_inode(&self) -> Self;
}

/// A mounted file system.
pub trait FileSystem {
    type Node: Inode;

    spec fn spec_fs_type(&self) -> FileSystemType;

    fn fs_type(&self) -> (r: FileSystemType)
        ensures
            r == self.spec_fs_type(),
    ;

    fn label(&self) -> &str;

    /// `n` is a root inode `root_inode` may give.
    spec fn root_gives(&self, n: Self::Node) -> bool;

    fn root_inode(&self) -> (n: Self::Node)
        ensures
            self.root_gives(n),
    ;

    fn get_inode(&self, ino: u64) -> KernelResult<Self::Node>;

    fn sync(&self) -> KernelResult<()>;

    /// `r` is a result `statfs` may give for this file system.
    spec fn statfs_gives(&self, r: KernelResult<FileSystemStats>) -> bool;

    fn statfs(&self) -> (r: KernelResult<FileSystemStats>)
        ensures
            self.statfs_gives(r),
    ;
}

#[derive(Debug, Clone, Copy, PartialEq, Eq, Structural)]
pub struct FileSystemStats {
    pub total_size: u64,
    pub free_space: u64,
    pub total_inodes: u64,
    pub free_inodes: u64,
    pub block_size: u64,
    pub max_name_length: u32,
}

#[derive(Debug, Clone, Copy, PartialEq, Eq, Structural)]
pub struct MountFlags {
    pub read_only: bool,
    pub no_exec: bool,
    pub no_suid: bool,
}

impl Default for MountFlags {
    fn default() -> (r: Self)
        ensures
            r == (MountFlags { read_only: false, no_exec: false, no_suid: false }),
    {
        MountFlags { read_only: false, no_exec: false, no_suid: false }
    }
}

struct MountPoint<F> {
    path: String,
    fs: F,
    flags: MountFlags,
}

/// An open file: the inode, how it was opened and the current position.
pub struct FileDescriptor<N: Inode> {
    inode: N,
    flags: OpenFlags,
    offset: FileOffset,
}

impl<N: Inode> FileDescriptor<N> {
    pub closed spec fn flags_spec(&self) -> OpenFlags {
        self.flags
    }

    pub closed spec fn offset_spec(&self) -> FileOffset {
        self.offset
    }

    pub fn new(inode: N, flags: OpenFlags) -> (fd: Self)
        ensures
            fd.flags_spec() == flags,
            fd.offset_spec() == 0,
            fd.inode_spec() == inode,
    {
        FileDescriptor { inode, flags, offset: 0 }
    }

    /// Reads at the current position through the inode and advances the
    /// position by the bytes read; refused unless opened for reading.
    pub fn read(&mut self, buffer: &mut [u8]) -> (r: KernelResult<usize>)
        requires
            forall|after: Seq<u8>, n: usize|
                #[trigger] old(self).inode_spec().read_gives(old(self).offset_spec(), old(buffer)@, after, Ok(n))
                    ==> old(self).offset_spec() + n <= i64::MAX,
            old(buffer)@.len() <= i64::MAX,
        ensures
            final(self).flags_spec() == old(self).flags_spec(),
            final(self).inode_spec() == old(self).inode_spec(),
            final(buffer)@.len() == old(buffer)@.len(),
            !may_read(old(self).flags_spec().bits) ==> r == Err::<usize, KernelError>(KernelError::AccessDenied)
                && final(buffer)@ == old(buffer)@,
            may_read(old(self).flags_spec().bits) ==> old(self).inode_spec().read_gives(
                old(self).offset_spec(),
                old(buffer)@,
                final(buffer)@,
                r,
            ),
            match r {
                Ok(n) => may_read(old(self).flags_spec().bits) && n <= old(buffer)@.len()
                    && final(self).offset_spec() == old(self).offset_spec() + n,
                Err(_) => final(self).offset_spec() == old(self).offset_spec(),
            },
    {
        if !self.flags.contains(OpenFlags { bits: OPEN_READ_ONLY }) && !self.flags.contains(
            OpenFlags { bits: OPEN_READ_WRITE },
        ) {
            return Err(KernelError::AccessDenied);
        }
        let res = self.inode.read(self.offset, buffer);
        match res {
            Ok(bytes_read) => {
                assert(old(self).inode_spec().read_gives(old(self).offset_spec(), old(buffer)@, buffer@, Ok(bytes_read)));
                self.offset = self.offset + bytes_read as FileOffset;
                Ok(bytes_read)
            },
            Err(e) => Err(e),
        }
    }

    /// Writes at the current position through the inode and advances the
    /// position by the bytes written; refused unless opened for writing.
    pub fn write(&mut self, data: &[u8]) -> (r: KernelResult<usize>)
        requires
            forall|after: N, n: usize|
                #[trigger] old(self).inode_spec().write_gives(after, old(self).offset_spec(), data@, Ok(n))
                    ==> old(self).offset_spec() + n <= i64::MAX,
            data@.len() <= i64::MAX,
        ensures
            final(self).flags_spec() == old(self).flags_spec(),
            !may_write(old(self).flags_spec().bits) ==> r == Err::<usize, KernelError>(KernelError::AccessDenied)
                && final(self).inode_spec() == old(self).inode_spec(),
            may_write(old(self).flags_spec().bits) ==> old(self).inode_spec().write_gives(
                final(self).inode_spec(),
                old(self).offset_spec(),
                data@,
                r,
            ),
            match r {
                Ok(n) => may_write(old(self).flags_spec().bits) && n <= data@.len()
                    && final(self).offset_spec() == old(self).offset_spec() + n,
                Err(_) => final(self).offset_spec() == old(self).offset_spec(),
            },
    {
        if !self.flags.contains(OpenFlags { bits: OPEN_WRITE_ONLY }) && !self.flags.contains(
            OpenFlags { bits: OPEN_READ_WRITE },
        ) {
            return Err(KernelError::AccessDenied);
        }
        let res = self.inode.write(self.offset, data);
        match res {
            Ok(bytes_written) => {
                assert(old(self).inode_spec().write_gives(self.inode, old(self).offset_spec(), data@, Ok(bytes_written)));
                self.offset = self.offset + bytes_written as FileOffset;
                Ok(bytes_written)
            },
            Err(e) => Err(e),
        }
    }

    /// Moves the position; the inode is not touched.
    pub fn seek(&mut self, offset: FileOffset) -> (r: KernelResult<FileOffset>)
        ensures
            r == Ok::<FileOffset, KernelError>(offset),
            final(self).offset_spec() == offset,
            final(self).flags_spec() == old(self).flags_spec(),
            final(self).inode_spec() == old(self).inode_spec(),
    {
        self.offset = offset;
        Ok(self.offset)
    }

    pub fn position(&self) -> (r: FileOffset)
        ensures
            r == self.offset_spec(),
    {
        self.offset
    }

    pub closed spec fn inode_spec(&self) -> N {
        self.inode
    }

    /// The metadata the open inode reports.
    pub fn metadata(&self) -> (r: KernelResult<FileMetadata>)
        ensures
            self.inode_spec().metadata_gives(r),
    {
        self.inode.metadata()
    }
}

/// The path components of `p` from position `i` on, with `cur` collected so far.
pub open spec fn comps_from(p: Seq<char>, i: int, cur: Seq<char>) -> Seq<Seq<char>>
    decreases p.len() - i,
{
    if i >= p.len() {
        if cur.len() > 0 {
            seq![cur]
        } else {
            Seq::empty()
        }
    } else if p[i] == '/' {
        (if cur.len() > 0 {
            seq![cur]
        } else {
            Seq::empty()
        }) + comps_from(p, i + 1, Seq::empty())
    } else {
        comps_from(p, i + 1, cur.push(p[i]))
    }
}

/// `r` is a result of looking up the names `names[i..]` one after another
/// from `node`: the node reached when all lookups succeed, else the error of
/// the first one that fails.
pub open spec fn walk_gives<N: Inode>(node: N, names: Seq<Seq<char>>, i: int, r: KernelResult<N>) -> bool
    decreases names.len() - i,
{
    if i < 0 || i >= names.len() {
        r == Ok::<N, KernelError>(node)
    } else {
        exists|x: KernelResult<N>|
            #[trigger] node.lookup_gives(names[i], x) && match x {
                Ok(n) => walk_gives(n, names, i + 1, r),
                Err(e) => r == Err::<N, KernelError>(e),
            }
    }
}

/// The non-empty pieces of `p` between slashes.
pub open spec fn path_components(p: Seq<char>) -> Seq<Seq<char>> {
    comps_from(p, 0, Seq::empty())
}

/// `s` holds no '/'.
pub open spec fn slash_free(s: Seq<char>) -> bool {
    forall|k: int| 0 <= k < s.len() ==> #[trigger] s[k] != '/'
}

/// Collecting a run of non-'/' characters: the components from `i` with
/// `cur` collected are those from `i + k` with the run added to `cur`.
proof fn lemma_comps_run(p: Seq<char>, i: int, k: int, cur: Seq<char>)
    requires
        0 <= i,
        0 <= k,
        i + k <= p.len(),
        forall|t: int| i <= t < i + k ==> #[trigger] p[t] != '/',
    ensures
        comps_from(p, i, cur) == comps_from(p, i + k, cur + p.subrange(i, i + k)),
    decreases k,
{
    if k > 0 {
        lemma_comps_run(p, i + 1, k - 1, cur.push(p[i]));
        assert(cur.push(p[i]) + p.subrange(i + 1, i + k) =~= cur + p.subrange(i, i + k));
    } else {
        assert(cur + p.subrange(i, i) =~= cur);
    }
}

/// The components past a prefix are those of the rest alone.
proof fn lemma_comps_shift(pre: Seq<char>, q: Seq<char>, j: int, cur: Seq<char>)
    requires
        0 <= j,
    ensures
        comps_from(pre + q, pre.len() + j, cur) == comps_from(q, j, cur),
    decreases q.len() - j,
{
    let p = pre + q;
    if j < q.len() {
        assert(p[pre.len() + j] == q[j]);
        if q[j] == '/' {
            lemma_comps_shift(pre, q, j + 1, Seq::empty());
        } else {
            lemma_comps_shift(pre, q, j + 1, cur.push(q[j]));
        }
    }
}

/// Every component is non-empty and holds no '/', when `cur` holds none.
proof fn lemma_comps_shape(p: Seq<char>, i: int, cur: Seq<char>)
    requires
        0 <= i,
        slash_free(cur),
    ensures
        forall|k: int|
            0 <= k < comps_from(p, i, cur).len() ==> (#[trigger] comps_from(p, i, cur)[k]).len() > 0
                && slash_free(comps_from(p, i, cur)[k]),
    decreases p.len() - i,
{
    if i < p.len() {
        if p[i] == '/' {
            lemma_comps_shape(p, i + 1, Seq::empty());
            let front = if cur.len() > 0 {
                seq![cur]
            } else {
                Seq::<Seq<char>>::empty()
            };
            let rest = comps_from(p, i + 1, Seq::empty());
            assert(comps_from(p, i, cur) == front + rest);
            assert forall|k: int| 0 <= k < (front + rest).len() implies (#[trigger] (front + rest)[k]).len() > 0
                && slash_free((front + rest)[k]) by {
                if k >= front.len() {
                    assert((front + rest)[k] == rest[k - front.len()]);
                }
            }
        } else {
            assert(slash_free(cur.push(p[i])));
            lemma_comps_shape(p, i + 1, cur.push(p[i]));
            assert(comps_from(p, i, cur) == comps_from(p, i + 1, cur.push(p[i])));
        }
    } else {
        if cur.len() > 0 {
            assert(comps_from(p, i, cur) == seq![cur]);
            assert(seq![cur][0] == cur);
        } else {
            assert(comps_from(p, i, cur).len() == 0);
        }
    }
}

/// How a path splits: an empty path has no components; a non-empty run of
/// non-'/' characters is one component; and a run followed by '/' and the
/// rest of the path gives the run (when it is not empty) and then the
/// rest's components. Every component is non-empty and holds no '/'.
pub proof fn law_path_components(a: Seq<char>, q: Seq<char>, p: Seq<char>)
    requires
        slash_free(a),
    ensures
        path_components(Seq::empty()).len() == 0,
        a.len() > 0 ==> path_components(a) == seq![a],
        path_components(a + seq!['/'] + q) == (if a.len() > 0 {
            seq![a]
        } else {
            Seq::empty()
        }) + path_components(q),
        forall|k: int|
            0 <= k < path_components(p).len() ==> (#[trigger] path_components(p)[k]).len() > 0
                && slash_free(path_components(p)[k]),
{
    lemma_comps_run(a, 0, a.len() as int, Seq::empty());
    assert(Seq::<char>::empty() + a.subrange(0, a.len() as int) =~= a);
    let full = a + seq!['/'] + q;
    lemma_comps_run(full, 0, a.len() as int, Seq::empty());
    assert(Seq::<char>::empty() + full.subrange(0, a.len() as int) =~= a);
    assert(full[a.len() as int] == '/');
    lemma_comps_shift(a + seq!['/'], q, 0, Seq::empty());
    assert(a + seq!['/'] + q =~= full);
    assert((a + seq!['/']).len() + 0 == a.len() + 1);
    lemma_comps_shape(p, 0, Seq::empty());
}

/// For slash-free, non-empty `a` and `b`, "/a/b" splits into `a` then `b`.
pub proof fn law_two_components(a: Seq<char>, b: Seq<char>)
    requires
        slash_free(a),
        slash_free(b),
        a.len() > 0,
        b.len() > 0,
    ensures
        path_components(seq!['/'] + a + seq!['/'] + b) == seq![a, b],
{
    let e = Seq::<char>::empty();
    law_path_components(e, a + seq!['/'] + b, b);
    assert(e + seq!['/'] + (a + seq!['/'] + b) =~= seq!['/'] + a + seq!['/'] + b);
    law_path_components(a, b, b);
    law_path_components(b, e, b);
    assert(seq![a] + seq![b] =~= seq![a, b]);
    assert(Seq::<Seq<char>>::empty() + seq![a, b] =~= seq![a, b]);
}

/// `m` is the mount point that serves `p`: the longest non-empty mounted path
/// that is a prefix of `p`.
pub open spec fn serves(mounts: Seq<Seq<char>>, p: Seq<char>, m: Seq<char>) -> bool {
    &&& mounts.contains(m)
    &&& m.len() > 0
    &&& is_prefix(m, p)
    &&& forall|k: int| 0 <= k < mounts.len() && is_prefix(#[trigger] mounts[k], p) ==> mounts[k].len() <= m.len()
}

/// The mount point and the rest of the path that `p` resolves to.
pub open spec fn resolve(mounts: Seq<Seq<char>>, p: Seq<char>) -> Option<(Seq<char>, Seq<char>)> {
    if exists|m: Seq<char>| serves(mounts, p, m) {
        let m = choose|m: Seq<char>| serves(mounts, p, m);
        Some((m, p.skip(m.len() as int)))
    } else if mounts.contains(seq!['/']) {
        Some((seq!['/'], p))
    } else {
        None
    }
}

/// Two mount points serving the same path are the same.
proof fn lemma_serves_unique(mounts: Seq<Seq<char>>, p: Seq<char>, m1: Seq<char>, m2: Seq<char>)
    requires
        serves(mounts, p, m1),
        serves(mounts, p, m2),
    ensures
        m1 == m2,
{
    let k1 = choose|k: int| 0 <= k < mounts.len() && mounts[k] == m1;
    let k2 = choose|k: int| 0 <= k < mounts.len() && mounts[k] == m2;
    assert(is_prefix(mounts[k1], p));
    assert(is_prefix(mounts[k2], p));
    assert(m1.len() == m2.len());
    assert(m1 =~= p.subrange(0, m1.len() as int));
    assert(m2 =~= p.subrange(0, m2.len() as int));
}

/// The file system state seen as plain values.
pub struct VfsView {
    /// Mounted paths, in ascending order.
    pub mounts: Seq<Seq<char>>,
    /// The type of the file system at each mount.
    pub types: Seq<FileSystemType>,
    /// The flags each mount was made with.
    pub mount_flags: Seq<MountFlags>,
    /// Open descriptor numbers, ascending.
    pub fds: Seq<u64>,
    /// Each open descriptor's position.
    pub offsets: Seq<FileOffset>,
    /// The open flags of each descriptor.
    pub fd_flags: Seq<u32>,
    pub next_fd: u64,
}

pub struct Vfs<F: FileSystem> {
    mount_points: Vec<MountPoint<F>>,
    next_fd: u64,
    open_files: Vec<(u64, FileDescriptor<F::Node>)>,
    opened: Ghost<nat>,
}

impl<F: FileSystem> View for Vfs<F> {
    type V = VfsView;

    closed spec fn view(&self) -> VfsView {
        VfsView {
            mounts: self.mount_points@.map_values(|m: MountPoint<F>| m.path@),
            types: self.mount_points@.map_values(|m: MountPoint<F>| m.fs.spec_fs_type()),
            mount_flags: self.mount_points@.map_values(|m: MountPoint<F>| m.flags),
            fds: self.open_files@.map_values(|e: (u64, FileDescriptor<F::Node>)| e.0),
            offsets: self.open_files@.map_values(|e: (u64, FileDescriptor<F::Node>)| e.1.offset_spec()),
            fd_flags: self.open_files@.map_values(|e: (u64, FileDescriptor<F::Node>)| e.1.flags_spec().bits),
            next_fd: self.next_fd,
        }
    }
}

/// `v` with the file system of type `ty` mounted at `path`, made with
/// `flags`, at position `i` of the mount list.
pub open spec fn mounted_at(v: VfsView, i: int, path: Seq<char>, ty: FileSystemType, flags: MountFlags) -> VfsView {
    VfsView {
        mounts: v.mounts.insert(i, path),
        types: v.types.insert(i, ty),
        mount_flags: v.mount_flags.insert(i, flags),
        ..v
    }
}

/// `v` without the mount at position `i`.
pub open spec fn unmounted_at(v: VfsView, i: int) -> VfsView {
    VfsView {
        mounts: v.mounts.remove(i),
        types: v.types.remove(i),
        mount_flags: v.mount_flags.remove(i),
        ..v
    }
}

/// The position after a read or write of `r` from `off`.
pub open spec fn advanced(off: FileOffset, r: KernelResult<usize>) -> FileOffset {
    match r {
        Ok(n) => (off + n) as FileOffset,
        Err(_) => off,
    }
}

/// What `read(fd, ..)` does on `v`, leaving `w`, the buffer going from
/// `before` to `after`: an `fd` that is not open is refused with
/// `InvalidArgument`; one not opened for reading with `AccessDenied`;
/// otherwise the descriptor's inode reads at the descriptor's position,
/// which advances by the bytes read. Nothing else changes.
pub open spec fn read_outcome<F: FileSystem>(
    v: Vfs<F>,
    w: Vfs<F>,
    fd: u64,
    before: Seq<u8>,
    after: Seq<u8>,
    r: KernelResult<usize>,
) -> bool {
    &&& w.nodes() == v.nodes()
    &&& w.file_systems() == v.file_systems()
    &&& !v@.fds.contains(fd) ==> r == Err::<usize, KernelError>(KernelError::InvalidArgument) && w@ == v@
        && after == before
    &&& forall|i: int|
        0 <= i < v@.fds.len() && #[trigger] v@.fds[i] == fd ==> if !may_read(v@.fd_flags[i]) {
            r == Err::<usize, KernelError>(KernelError::AccessDenied) && w@ == v@ && after == before
        } else {
            &&& v.nodes()[i].read_gives(v@.offsets[i], before, after, r)
            &&& w@ == (VfsView { offsets: v@.offsets.update(i, advanced(v@.offsets[i], r)), ..v@ })
        }
}

/// What `write(fd, data)` does on `v`, leaving `w`: an `fd` that is not
/// open is refused with `InvalidArgument`; one not opened for writing with
/// `AccessDenied`; otherwise the descriptor's inode writes at the
/// descriptor's position, which advances by the bytes written. Nothing
/// else changes.
pub open spec fn write_outcome<F: FileSystem>(v: Vfs<F>, w: Vfs<F>, fd: u64, data: Seq<u8>, r: KernelResult<usize>) -> bool {
    &&& w.file_systems() == v.file_systems()
    &&& w.nodes().len() == v.nodes().len()
    &&& !v@.fds.contains(fd) ==> r == Err::<usize, KernelError>(KernelError::InvalidArgument) && w@ == v@
        && w.nodes() == v.nodes()
    &&& forall|i: int|
        0 <= i < v@.fds.len() && #[trigger] v@.fds[i] == fd ==> if !may_write(v@.fd_flags[i]) {
            r == Err::<usize, KernelError>(KernelError::AccessDenied) && w@ == v@ && w.nodes() == v.nodes()
        } else {
            &&& v.nodes()[i].write_gives(w.nodes()[i], v@.offsets[i], data, r)
            &&& w.nodes() == v.nodes().update(i, w.nodes()[i])
            &&& w@ == (VfsView { offsets: v@.offsets.update(i, advanced(v@.offsets[i], r)), ..v@ })
        }
}

/// What `open(path, flags)` does on `v`, leaving `w`: a path no mount
/// serves is refused with `FileSystemNotFound`. Otherwise the file system
/// of the mount that serves it gives a root inode, and the rest of the path
/// is looked up from there one component at a time (see `walk_gives`);
/// when that reaches a node, it gets the next descriptor number, with
/// position 0 and these open flags; else the lookup's error is returned.
/// A refused open changes nothing.
pub open spec fn open_outcome<F: FileSystem>(v: Vfs<F>, w: Vfs<F>, path: Seq<char>, flags: u32, r: KernelResult<u64>) -> bool {
    match resolve(v@.mounts, path) {
        None => r == Err::<u64, KernelError>(KernelError::FileSystemNotFound) && w@ == v@ && w.nodes()
            == v.nodes() && w.file_systems() == v.file_systems(),
        Some((m, rest)) => exists|i: int, root: F::Node, res: KernelResult<F::Node>|
            #![trigger v.file_systems()[i].root_gives(root), walk_gives(root, path_components(rest), 0, res)]
            {
                &&& 0 <= i < v@.mounts.len()
                &&& v@.mounts[i] == m
                &&& v.file_systems()[i].root_gives(root)
                &&& walk_gives(root, path_components(rest), 0, res)
                &&& match res {
                    Ok(node) => {
                        &&& r == Ok::<u64, KernelError>(v@.next_fd)
                        &&& w@ == (VfsView {
                            fds: v@.fds.push(v@.next_fd),
                            offsets: v@.offsets.push(0),
                            fd_flags: v@.fd_flags.push(flags),
                            next_fd: (v@.next_fd + 1) as u64,
                            ..v@
                        })
                        &&& w.nodes() == v.nodes().push(node)
                        &&& w.file_systems() == v.file_systems()
                    },
                    Err(e) => r == Err::<u64, KernelError>(e) && w@ == v@ && w.nodes() == v.nodes()
                        && w.file_systems() == v.file_systems(),
                }
            },
    }
}

/// The shape every file-system state keeps.
pub open spec fn vfs_wf(v: VfsView) -> bool {
    &&& strictly_sorted(v.mounts)
    &&& v.types.len() == v.mounts.len()
    &&& v.mount_flags.len() == v.mounts.len()
    &&& v.offsets.len() == v.fds.len()
    &&& v.fd_flags.len() == v.fds.len()
    &&& forall|i: int, j: int| 0 <= i < j < v.fds.len() ==> v.fds[i] < v.fds[j]
    &&& forall|i: int| 0 <= i < v.fds.len() ==> #[trigger] v.fds[i] < v.next_fd
    &&& v.next_fd >= 3
}

impl<F: FileSystem> Vfs<F> {
    /// The file system mounted at each mount point.
    pub closed spec fn file_systems(&self) -> Seq<F> {
        self.mount_points@.map_values(|m: MountPoint<F>| m.fs)
    }

    /// The inode each open descriptor reads and writes.
    pub closed spec fn nodes(&self) -> Seq<F::Node> {
        self.open_files@.map_values(|e: (u64, FileDescriptor<F::Node>)| e.1.inode_spec())
    }

    /// How many opens have succeeded on this file system state.
    pub closed spec fn opens(&self) -> nat {
        self.opened@
    }

    /// Mounts in ascending path order, descriptors in ascending number
    /// order, all below the next number, which is 3 more than the number of
    /// successful opens.
    pub open spec fn wf(&self) -> bool {
        &&& vfs_wf(self@)
        &&& self.file_systems().len() == self@.mounts.len()
        &&& self.nodes().len() == self@.fds.len()
        &&& self@.next_fd == 3 + self.opens()
    }

    pub fn new() -> (vfs: Self)
        ensures
            vfs.wf(),
            vfs@ == (VfsView {
                mounts: Seq::empty(),
                types: Seq::empty(),
                mount_flags: Seq::empty(),
                fds: Seq::empty(),
                offsets: Seq::empty(),
                fd_flags: Seq::empty(),
                next_fd: 3,
            }),
            vfs@.mounts.len() == 0,
            vfs@.fds.len() == 0,
            vfs@.next_fd == 3,
            vfs.opens() == 0,
    {
        let v = Vfs { mount_points: Vec::new(), next_fd: 3, open_files: Vec::new(), opened: Ghost(0) };
        assert(v@.mounts =~= Seq::empty() && v@.types =~= Seq::empty() && v@.mount_flags =~= Seq::empty());
        assert(v@.fds =~= Seq::empty() && v@.offsets =~= Seq::empty() && v@.fd_flags =~= Seq::empty());
        v
    }

    /// Position of the mount with this path, or where it would go.
    fn mount_position(&self, path: &Vec<char>) -> (r: (usize, bool))
        requires
            self.wf(),
        ensures
            r.0 <= self@.mounts.len(),
            r.1 <==> self@.mounts.contains(path@),
            r.1 ==> r.0 < self@.mounts.len() && self@.mounts[r.0 as int] == path@,
            !r.1 ==> forall|i: int| 0 <= i < r.0 ==> seq_less(#[trigger] self@.mounts[i], path@),
            !r.1 ==> forall|i: int| r.0 <= i < self@.mounts.len() ==> seq_less(path@, #[trigger] self@.mounts[i]),
    {
        let mut i: usize = 0;
        while i < self.mount_points.len()
            invariant
                self.wf(),
                i <= self@.mounts.len(),
                forall|k: int| 0 <= k < i ==> seq_less(#[trigger] self@.mounts[k], path@),
            decreases self@.mounts.len() - i,
        {
            let m = chars_of(self.mount_points[i].path.as_str());
            assert(m@ == self@.mounts[i as int]);
            if chars_eq(&m, path) {
                return (i, true);
            }
            if !chars_less(&m, path) {
                proof {
                    lemma_less_total(m@, path@);
                    assert forall|k: int| i <= k < self@.mounts.len() implies seq_less(
                        path@,
                        #[trigger] self@.mounts[k],
                    ) by {
                        if k > i {
                            lemma_less_transitive(path@, m@, self@.mounts[k]);
                        }
                    }
                    assert forall|k: int| 0 <= k < self@.mounts.len() implies self@.mounts[k] != path@ by {
                        if k < i {
                            lemma_less_irreflexive(path@);
                        } else {
                            lemma_less_irreflexive(path@);
                        }
                    }
                }
                return (i, false);
            }
            i = i + 1;
        }
        proof {
            assert forall|k: int| 0 <= k < self@.mounts.len() implies self@.mounts[k] != path@ by {
                lemma_less_irreflexive(path@);
            }
        }
        (i, false)
    }

    /// Mounts `fs` at `path`; a path that is already mounted is refused.
    pub fn mount(&mut self, path: &str, fs: F, flags: MountFlags) -> (r: KernelResult<()>)
        requires
            old(self).wf(),
        ensures
            final(self).wf(),
            old(self)@.mounts.contains(path@) ==> r == Err::<(), KernelError>(KernelError::PageAlreadyMapped)
                && final(self)@ == old(self)@,
            old(self)@.mounts.contains(path@) ==> final(self).file_systems() == old(self).file_systems()
                && final(self).nodes() == old(self).nodes(),
            !old(self)@.mounts.contains(path@) ==> {
                &&& r is Ok
                &&& final(self)@.mounts.to_set() == old(self)@.mounts.to_set().insert(path@)
                &&& exists|i: int|
                    0 <= i <= old(self)@.mounts.len() && final(self)@ == (#[trigger] mounted_at(old(self)@, i, path@, fs.spec_fs_type(), flags))
                        && final(self).file_systems() == old(self).file_systems().insert(i, fs)
                &&& final(self).nodes() == old(self).nodes()
            },
    {
        let p = chars_of(path);
        let (pos, found) = self.mount_position(&p);
        if found {
            return Err(KernelError::PageAlreadyMapped);
        }
        let ghost old_mounts = self@.mounts;
        let ghost ty = fs.spec_fs_type();
        let ghost fs_ghost = fs;
        let mp = MountPoint { path: path.to_owned(), fs, flags };
        self.mount_points.insert(pos, mp);
        proof {
            let n = old_mounts.len() as int;
            assert(self@.types =~= old(self)@.types.insert(pos as int, ty));
            assert(self@.mount_flags =~= old(self)@.mount_flags.insert(pos as int, flags));
            assert(self@.mounts =~= old(self)@.mounts.insert(pos as int, path@));
            assert(self@.fds =~= old(self)@.fds && self@.offsets =~= old(self)@.offsets && self@.fd_flags =~= old(self)@.fd_flags);
            assert(self@ == mounted_at(old(self)@, pos as int, path@, ty, flags));
            assert(self.file_systems() =~= old(self).file_systems().insert(pos as int, fs_ghost));
            assert(self.nodes() =~= old(self).nodes());
            let ins = old_mounts.subrange(0, pos as int) + seq![path@] + old_mounts.subrange(pos as int, n);
            assert(self@.mounts =~= ins);
            assert(self@.types[pos as int] == ty);
            assert forall|i: int, j: int| 0 <= i < j < self@.mounts.len() implies seq_less(
                #[trigger] self@.mounts[i],
                #[trigger] self@.mounts[j],
            ) by {
                if j < pos {
                    assert(self@.mounts[i] == old_mounts[i] && self@.mounts[j] == old_mounts[j]);
                } else if i < pos && j == pos {
                    assert(self@.mounts[i] == old_mounts[i]);
                } else if i < pos && j > pos {
                    assert(self@.mounts[i] == old_mounts[i] && self@.mounts[j] == old_mounts[j - 1]);
                    lemma_less_transitive(old_mounts[i], path@, old_mounts[j - 1]);
                } else if i == pos {
                    assert(self@.mounts[j] == old_mounts[j - 1]);
                } else {
                    assert(self@.mounts[i] == old_mounts[i - 1] && self@.mounts[j] == old_mounts[j - 1]);
                }
            }
            assert forall|x: Seq<char>| self@.mounts.to_set().contains(x) <==> old_mounts.to_set().insert(path@).contains(x) by {
                if self@.mounts.contains(x) {
                    let k = choose|k: int| 0 <= k < self@.mounts.len() && self@.mounts[k] == x;
                    if k < pos {
                        assert(old_mounts[k] == x);
                    } else if k > pos {
                        assert(old_mounts[k - 1] == x);
                    }
                }
                if old_mounts.contains(x) {
                    let k = choose|k: int| 0 <= k < old_mounts.len() && old_mounts[k] == x;
                    if k < pos {
                        assert(self@.mounts[k] == x);
                    } else {
                        assert(self@.mounts[k + 1] == x);
                    }
                }
                if x == path@ {
                    assert(self@.mounts[pos as int] == x);
                }
            }
            assert(self@.mounts.to_set() =~= old_mounts.to_set().insert(path@));
        }
        Ok(())
    }

    /// Unmounts the file system at `path`.
    pub fn unmount(&mut self, path: &str) -> (r: KernelResult<()>)
        requires
            old(self).wf(),
        ensures
            final(self).wf(),
            !old(self)@.mounts.contains(path@) ==> r == Err::<(), KernelError>(KernelError::FileSystemNotFound)
                && final(self)@ == old(self)@,
            !old(self)@.mounts.contains(path@) ==> final(self).file_systems() == old(self).file_systems()
                && final(self).nodes() == old(self).nodes(),
            old(self)@.mounts.contains(path@) ==> {
                &&& r is Ok
                &&& !final(self)@.mounts.contains(path@)
                &&& final(self)@.mounts.to_set() == old(self)@.mounts.to_set().remove(path@)
                &&& exists|i: int|
                    0 <= i < old(self)@.mounts.len() && old(self)@.mounts[i] == path@ && final(self)@ == (
                    #[trigger] unmounted_at(old(self)@, i)) && final(self).file_systems() == old(self).file_systems().remove(i)
                &&& final(self).nodes() == old(self).nodes()
            },
    {
        let p = chars_of(path);
        let (pos, found) = self.mount_position(&p);
        if !found {
            return Err(KernelError::FileSystemNotFound);
        }
        let ghost old_mounts = self@.mounts;
        let _ = self.mount_points.remove(pos);
        proof {
            assert(self@.types =~= old(self)@.types.remove(pos as int));
            assert(self@.mount_flags =~= old(self)@.mount_flags.remove(pos as int));
            assert(self@.mounts =~= old(self)@.mounts.remove(pos as int));
            assert(self@.fds =~= old(self)@.fds && self@.offsets =~= old(self)@.offsets && self@.fd_flags =~= old(self)@.fd_flags);
            assert(self@ == unmounted_at(old(self)@, pos as int));
            assert(self.file_systems() =~= old(self).file_systems().remove(pos as int));
            assert(self.nodes() =~= old(self).nodes());
            let n = old_mounts.len() as int;
            assert(self@.mounts =~= old_mounts.subrange(0, pos as int) + old_mounts.subrange(pos + 1, n));
            assert forall|i: int, j: int| 0 <= i < j < self@.mounts.len() implies seq_less(
                #[trigger] self@.mounts[i],
                #[trigger] self@.mounts[j],
            ) by {
                if j < pos {
                    assert(self@.mounts[i] == old_mounts[i] && self@.mounts[j] == old_mounts[j]);
                } else if i < pos {
                    assert(self@.mounts[i] == old_mounts[i] && self@.mounts[j] == old_mounts[j + 1]);
                } else {
                    assert(self@.mounts[i] == old_mounts[i + 1] && self@.mounts[j] == old_mounts[j + 1]);
                }
            }
            assert forall|k: int| 0 <= k < self@.mounts.len() implies self@.mounts[k] != path@ by {
                lemma_less_irreflexive(path@);
                if k < pos {
                    assert(self@.mounts[k] == old_mounts[k]);
                    assert(seq_less(old_mounts[k], old_mounts[pos as int]));
                } else {
                    assert(self@.mounts[k] == old_mounts[k + 1]);
                    assert(seq_less(old_mounts[pos as int], old_mounts[k + 1]));
                }
            }
            assert forall|x: Seq<char>| self@.mounts.to_set().contains(x) <==> old_mounts.to_set().remove(path@).contains(x) by {
                if self@.mounts.contains(x) {
                    let k = choose|k: int| 0 <= k < self@.mounts.len() && self@.mounts[k] == x;
                    if k < pos {
                        assert(old_mounts[k] == x);
                    } else {
                        assert(old_mounts[k + 1] == x);
                    }
                }
                if old_mounts.contains(x) && x != path@ {
                    let k = choose|k: int| 0 <= k < old_mounts.len() && old_mounts[k] == x;
                    if k < pos {
                        assert(self@.mounts[k] == x);
                    } else {
                        assert(k != pos);
                        assert(self@.mounts[k - 1] == x);
                    }
                }
            }
            assert(self@.mounts.to_set() =~= old_mounts.to_set().remove(path@));
            assert(self@.fds =~= old(self)@.fds);
        }
        Ok(())
    }

    /// The mount that serves `path` (its index) and the rest of the path.
    fn resolve_mount_point(&self, path: &str) -> (r: KernelResult<(usize, String)>)
        requires
            self.wf(),
        ensures
            match resolve(self@.mounts, path@) {
                Some((m, rest)) => r matches Ok((i, s)) && i < self@.mounts.len() && self@.mounts[i as int] == m
                    && s@ == rest,
                None => r == Err::<(usize, String), KernelError>(KernelError::FileSystemNotFound),
            },
    {
        let p = chars_of(path);
        let mut best: Option<usize> = None;
        let mut best_len: usize = 0;
        let mut i: usize = 0;
        while i < self.mount_points.len()
            invariant
                self.wf(),
                p@ == path@,
                i <= self@.mounts.len(),
                best is None ==> best_len == 0,
                best matches Some(b) ==> b < i && self@.mounts[b as int].len() == best_len && best_len > 0
                    && is_prefix(self@.mounts[b as int], p@),
                forall|k: int| 0 <= k < i && is_prefix(#[trigger] self@.mounts[k], p@) ==> self@.mounts[k].len() <= best_len,
            decreases self@.mounts.len() - i,
        {
            let m = chars_of(self.mount_points[i].path.as_str());
            if chars_prefix(&m, &p) && m.len() > best_len {
                best = Some(i);
                best_len = m.len();
            }
            i = i + 1;
        }
        match best {
            Some(b) => {
                proof {
                    let m = self@.mounts[b as int];
                    assert(self@.mounts.contains(m));
                    assert(serves(self@.mounts, p@, m));
                    let c = choose|m2: Seq<char>| serves(self@.mounts, p@, m2);
                    lemma_serves_unique(self@.mounts, p@, m, c);
                }
                let rest = string_of(&p, best_len, p.len());
                proof {
                    assert(p@.subrange(best_len as int, p@.len() as int) =~= p@.skip(best_len as int));
                }
                Ok((b, rest))
            },
            None => {
                proof {
                    assert forall|m: Seq<char>| !serves(self@.mounts, p@, m) by {
                        if serves(self@.mounts, p@, m) {
                            let k = choose|k: int| 0 <= k < self@.mounts.len() && self@.mounts[k] == m;
                            assert(is_prefix(self@.mounts[k], p@));
                        }
                    }
                }
                let mut root: Vec<char> = Vec::new();
                root.push('/');
                let (pos, found) = self.mount_position(&root);
                assert(root@ =~= seq!['/']);
                if found {
                    let rest = string_of(&p, 0, p.len());
                    assert(p@.subrange(0, p@.len() as int) =~= p@);
                    Ok((pos, rest))
                } else {
                    Err(KernelError::FileSystemNotFound)
                }
            },
        }
    }

    /// Follows the components of `path` from `root`, one lookup each; the
    /// first failing lookup's error is the result.
    fn traverse_path(&self, root: F::Node, path: &str) -> (r: KernelResult<F::Node>)
        ensures
            walk_gives(root, path_components(path@), 0, r),
            path_components(path@).len() == 0 ==> r == Ok::<F::Node, KernelError>(root),
    {
        let p = chars_of(path);
        let comps = split_path(&p);
        let ghost cs = path_components(path@);
        assert(comps@.len() == cs.len());
        let mut current = root;
        let mut i: usize = 0;
        while i < comps.len()
            invariant
                i <= comps@.len(),
                p@ == path@,
                cs == path_components(p@),
                comps@.map_values(|s: String| s@) == cs,
                comps@.len() == cs.len(),
                comps@.len() == 0 ==> current == root,
                forall|x: KernelResult<F::Node>|
                    walk_gives(current, cs, i as int, x) ==> #[trigger] walk_gives(root, cs, 0, x),
            decreases comps@.len() - i,
        {
            assert(comps@[i as int]@ == cs[i as int]);
            let step = current.lookup(comps[i].as_str());
            match step {
                Ok(next) => {
                    proof {
                        assert forall|x: KernelResult<F::Node>|
                            walk_gives(next, cs, i + 1, x) implies #[trigger] walk_gives(root, cs, 0, x) by {
                            assert(walk_gives(current, cs, i as int, x));
                        }
                    }
                    current = next;
                },
                Err(e) => {
                    assert(walk_gives(current, cs, i as int, Err(e)));
                    return Err(e);
                },
            }
            i = i + 1;
        }
        Ok(current)
    }

    /// Opens the file at `path`: the mount that serves it gives its root
    /// inode, the rest of the path is looked up from there, and the inode
    /// reached gets a new descriptor at position 0 (see `open_outcome`).
    pub fn open(&mut self, path: &str, flags: OpenFlags) -> (r: KernelResult<u64>)
        requires
            old(self).wf(),
            old(self)@.next_fd < u64::MAX,
        ensures
            final(self).wf(),
            open_outcome(*old(self), *final(self), path@, flags.bits, r),
            r is Ok ==> final(self).opens() == old(self).opens() + 1,
            r is Err ==> final(self).opens() == old(self).opens(),
            resolve(old(self)@.mounts, path@) is None ==> r == Err::<u64, KernelError>(KernelError::FileSystemNotFound),
            match r {
                Ok(fd) => fd == old(self)@.next_fd && final(self)@.fds == old(self)@.fds.push(fd)
                    && final(self)@.offsets == old(self)@.offsets.push(0) && final(self)@.next_fd
                    == old(self)@.next_fd + 1,
                Err(_) => final(self)@ == old(self)@,
            },
    {
        let (mi, relative_path) = match self.resolve_mount_point(path) {
            Ok(found) => found,
            Err(e) => {
                assert(self.nodes() =~= old(self).nodes());
                return Err(e);
            },
        };
        let root = self.mount_points[mi].fs.root_inode();
        assert(self.file_systems()[mi as int] == self.mount_points@[mi as int].fs);
        let walked = self.traverse_path(root, relative_path.as_str());
        let ghost res = walked;
        assert(old(self).file_systems()[mi as int].root_gives(root) && walk_gives(
            root,
            path_components(relative_path@),
            0,
            res,
        ));
        let inode = match walked {
            Ok(node) => node,
            Err(e) => {
                return Err(e);
            },
        };
        let fd = self.next_fd;
        self.next_fd = self.next_fd + 1;
        self.opened = Ghost(self.opened@ + 1);
        let file_desc = FileDescriptor::new(inode, flags);
        let ghost old_files = self.open_files@;
        self.open_files.push((fd, file_desc));
        proof {
            assert(self@.fds =~= old(self)@.fds.push(fd));
            assert(self@.offsets =~= old(self)@.offsets.push(0));
            assert(self@.fd_flags =~= old(self)@.fd_flags.push(flags.bits));
            assert(self@.mounts =~= old(self)@.mounts);
            assert(self@.types =~= old(self)@.types);
            assert(self@.mount_flags =~= old(self)@.mount_flags);
            assert(self.nodes() =~= old(self).nodes().push(inode));
            assert(self.file_systems() =~= old(self).file_systems());
            assert(old(self).file_systems()[mi as int].root_gives(root)
                && walk_gives(root, path_components(relative_path@), 0, res));
        }
        Ok(fd)
    }

    fn find_fd(&self, fd: u64) -> (r: Option<usize>)
        requires
            self.wf(),
        ensures
            match r {
                Some(i) => i < self@.fds.len() && self@.fds[i as int] == fd,
                None => !self@.fds.contains(fd),
            },
    {
        let mut i: usize = 0;
        while i < self.open_files.len()
            invariant
                i <= self@.fds.len(),
                forall|k: int| 0 <= k < i ==> self@.fds[k] != fd,
            decreases self@.fds.len() - i,
        {
            if self.open_files[i].0 == fd {
                return Some(i);
            }
            i = i + 1;
        }
        None
    }

    /// Closes descriptor `fd`.
    pub fn close(&mut self, fd: u64) -> (r: KernelResult<()>)
        requires
            old(self).wf(),
        ensures
            final(self).wf(),
            old(self)@.fds.contains(fd) ==> r is Ok && final(self)@.fds == old(self)@.fds.remove_value(fd)
                && final(self)@.mounts == old(self)@.mounts && final(self)@.next_fd == old(self)@.next_fd,
            old(self)@.fds.contains(fd) ==> exists|i: int|
                0 <= i < old(self)@.fds.len() && #[trigger] old(self)@.fds[i] == fd && final(self)@ == (VfsView {
                    fds: old(self)@.fds.remove(i),
                    offsets: old(self)@.offsets.remove(i),
                    fd_flags: old(self)@.fd_flags.remove(i),
                    ..old(self)@
                }) && final(self).nodes() == old(self).nodes().remove(i),
            !old(self)@.fds.contains(fd) ==> r == Err::<(), KernelError>(KernelError::InvalidArgument)
                && final(self)@ == old(self)@ && final(self).nodes() == old(self).nodes(),
            final(self).file_systems() == old(self).file_systems(),
    {
        match self.find_fd(fd) {
            Some(i) => {
                let ghost old_fds = self@.fds;
                let _ = self.open_files.remove(i);
                proof {
                    assert(self@.fds =~= old_fds.remove(i as int));
                    assert(old_fds.index_of_first(fd) == Some(i as int)) by {
                        old_fds.index_of_first_ensures(fd);
                        let j = old_fds.index_of_first(fd);
                        if j != Some(i as int) {
                            assert(j is Some);
                            let jj = j->0;
                            assert(jj < i);
                        }
                    }
                    assert(self@.mounts =~= old(self)@.mounts);
                    assert(self@.types =~= old(self)@.types);
                    assert(self@.mount_flags =~= old(self)@.mount_flags);
                    assert(self@.offsets =~= old(self)@.offsets.remove(i as int));
                    assert(self@.fd_flags =~= old(self)@.fd_flags.remove(i as int));
                    assert(self.nodes() =~= old(self).nodes().remove(i as int));
                    assert(self.file_systems() =~= old(self).file_systems());
                }
                Ok(())
            },
            None => Err(KernelError::InvalidArgument),
        }
    }

    /// Reads from descriptor `fd` into `buffer` through its inode, at its
    /// position, which then advances by the bytes read (see `read_outcome`).
    pub fn read(&mut self, fd: u64, buffer: &mut [u8]) -> (r: KernelResult<usize>)
        requires
            old(self).wf(),
            forall|i: int, after: Seq<u8>, n: usize|
                0 <= i < old(self)@.fds.len() && old(self)@.fds[i] == fd && #[trigger] old(self).nodes()[i].read_gives(
                    old(self)@.offsets[i],
                    old(buffer)@,
                    after,
                    Ok(n),
                ) ==> old(self)@.offsets[i] + n <= i64::MAX,
            old(buffer)@.len() <= i64::MAX,
        ensures
            final(self).wf(),
            read_outcome(*old(self), *final(self), fd, old(buffer)@, final(buffer)@, r),
            final(buffer)@.len() == old(buffer)@.len(),
            r matches Ok(n) ==> n <= old(buffer)@.len(),
    {
        match self.find_fd(fd) {
            Some(i) => {
                let ghost v = *old(self);
                let (k, mut file) = self.open_files.remove(i);
                assert(old(self)@.offsets[i as int] == file.offset_spec());
                assert(old(self).nodes()[i as int] == file.inode_spec());
                assert(old(self)@.fd_flags[i as int] == file.flags_spec().bits);
                let r = file.read(buffer);
                self.open_files.insert(i, (k, file));
                proof {
                    assert(self@.fds =~= old(self)@.fds);
                    assert(self@.fd_flags =~= old(self)@.fd_flags);
                    assert(self@.mounts =~= old(self)@.mounts);
                    assert(self@.types =~= old(self)@.types);
                    assert(self@.mount_flags =~= old(self)@.mount_flags);
                    assert(self.nodes() =~= old(self).nodes());
                    assert(self.file_systems() =~= old(self).file_systems());
                    assert(self@.offsets =~= old(self)@.offsets.update(i as int, file.offset_spec()));
                    assert forall|j: int| 0 <= j < old(self)@.fds.len() && old(self)@.fds[j] == fd implies j == i by {
                        if j != i {
                            assert(old(self)@.fds[j] != old(self)@.fds[i as int]);
                        }
                    }
                }
                proof {
                    assert(old(self)@.fds.contains(fd));
                    assert(file.offset_spec() == advanced(old(self)@.offsets[i as int], r));
                    if !may_read(old(self)@.fd_flags[i as int]) {
                        assert(self@.offsets =~= old(self)@.offsets);
                        assert(self@ == old(self)@);
                    } else {
                        assert(self@ == (VfsView {
                            offsets: old(self)@.offsets.update(i as int, advanced(old(self)@.offsets[i as int], r)),
                            ..old(self)@
                        }));
                    }
                }
                r
            },
            None => {
                proof {
                    assert forall|j: int| 0 <= j < old(self)@.fds.len() implies #[trigger] old(self)@.fds[j] != fd by {
                        assert(old(self)@.fds.contains(old(self)@.fds[j]));
                    }
                }
                Err(KernelError::InvalidArgument)
            },
        }
    }

    /// Writes `data` to descriptor `fd` through its inode, at its position,
    /// which then advances by the bytes written (see `write_outcome`).
    pub fn write(&mut self, fd: u64, data: &[u8]) -> (r: KernelResult<usize>)
        requires
            old(self).wf(),
            forall|i: int, after: F::Node, n: usize|
                0 <= i < old(self)@.fds.len() && old(self)@.fds[i] == fd && #[trigger] old(self).nodes()[i].write_gives(
                    after,
                    old(self)@.offsets[i],
                    data@,
                    Ok(n),
                ) ==> old(self)@.offsets[i] + n <= i64::MAX,
            data@.len() <= i64::MAX,
        ensures
            final(self).wf(),
            write_outcome(*old(self), *final(self), fd, data@, r),
            r matches Ok(n) ==> n <= data@.len(),
    {
        match self.find_fd(fd) {
            Some(i) => {
                let (k, mut file) = self.open_files.remove(i);
                assert(old(self)@.offsets[i as int] == file.offset_spec());
                assert(old(self).nodes()[i as int] == file.inode_spec());
                assert(old(self)@.fd_flags[i as int] == file.flags_spec().bits);
                let r = file.write(data);
                self.open_files.insert(i, (k, file));
                proof {
                    assert(self@.fds =~= old(self)@.fds);
                    assert(self@.fd_flags =~= old(self)@.fd_flags);
                    assert(self@.mounts =~= old(self)@.mounts);
                    assert(self@.types =~= old(self)@.types);
                    assert(self@.mount_flags =~= old(self)@.mount_flags);
                    assert(self.nodes() =~= old(self).nodes().update(i as int, file.inode_spec()));
                    assert(self.file_systems() =~= old(self).file_systems());
                    assert(self@.offsets =~= old(self)@.offsets.update(i as int, file.offset_spec()));
                    assert forall|j: int| 0 <= j < old(self)@.fds.len() && old(self)@.fds[j] == fd implies j == i by {
                        if j != i {
                            assert(old(self)@.fds[j] != old(self)@.fds[i as int]);
                        }
                    }
                }
                proof {
                    assert(old(self)@.fds.contains(fd));
                    assert(file.offset_spec() == advanced(old(self)@.offsets[i as int], r));
                    if !may_write(old(self)@.fd_flags[i as int]) {
                        assert(self@.offsets =~= old(self)@.offsets);
                        assert(self@ == old(self)@);
                        assert(self.nodes() =~= old(self).nodes());
                    } else {
                        assert(self.nodes()[i as int] == file.inode_spec());
                        assert(self.nodes() =~= old(self).nodes().update(i as int, self.nodes()[i as int]));
                        assert(self@ == (VfsView {
                            offsets: old(self)@.offsets.update(i as int, advanced(old(self)@.offsets[i as int], r)),
                            ..old(self)@
                        }));
                    }
                }
                r
            },
            None => {
                proof {
                    assert forall|j: int| 0 <= j < old(self)@.fds.len() implies #[trigger] old(self)@.fds[j] != fd by {
                        assert(old(self)@.fds.contains(old(self)@.fds[j]));
                    }
                }
                Err(KernelError::InvalidArgument)
            },
        }
    }

    /// Lists the directory at `path`.
    pub fn readdir(&self, path: &str) -> (r: KernelResult<Vec<DirEntry>>)
        requires
            self.wf(),
        ensures
            match resolve(self@.mounts, path@) {
                None => r is Err && r->Err_0 == KernelError::FileSystemNotFound,
                Some((m, rest)) => exists|i: int, root: F::Node, res: KernelResult<F::Node>|
                    #![trigger self.file_systems()[i].root_gives(root), walk_gives(root, path_components(rest), 0, res)]
                    {
                        &&& 0 <= i < self@.mounts.len()
                        &&& self@.mounts[i] == m
                        &&& self.file_systems()[i].root_gives(root)
                        &&& walk_gives(root, path_components(rest), 0, res)
                        &&& match res {
                            Ok(node) => node.readdir_gives(r),
                            Err(e) => r is Err && r->Err_0 == e,
                        }
                    },
            },
    {
        let (mi, relative_path) = self.resolve_mount_point(path)?;
        let root = self.mount_points[mi].fs.root_inode();
        assert(self.file_systems()[mi as int] == self.mount_points@[mi as int].fs);
        let walked = self.traverse_path(root, relative_path.as_str());
        assert(self.file_systems()[mi as int].root_gives(root) && walk_gives(
            root,
            path_components(relative_path@),
            0,
            walked,
        ));
        let inode = match walked {
            Ok(node) => node,
            Err(e) => {
                return Err(e);
            },
        };
        inode.readdir()
    }

    /// Statistics of the file system that serves `path`.
    pub fn statfs(&self, path: &str) -> (r: KernelResult<FileSystemStats>)
        requires
            self.wf(),
        ensures
            match resolve(self@.mounts, path@) {
                None => r == Err::<FileSystemStats, KernelError>(KernelError::FileSystemNotFound),
                Some((m, rest)) => exists|i: int|
                    0 <= i < self@.mounts.len() && self@.mounts[i] == m && #[trigger] self.file_systems()[i].statfs_gives(r),
            },
    {
        let (mi, _) = self.resolve_mount_point(path)?;
        assert(self.file_systems()[mi as int] == self.mount_points@[mi as int].fs);
        self.mount_points[mi].fs.statfs()
    }

    /// The mounted paths and their file-system types, in path order.
    pub fn list_mounts(&self) -> (r: Vec<(String, FileSystemType)>)
        requires
            self.wf(),
        ensures
            r@.len() == self@.mounts.len(),
            forall|i: int| 0 <= i < r@.len() ==> (#[trigger] r@[i]).0@ == self@.mounts[i] && r@[i].1 == self@.types[i],
            forall|i: int, j: int| 0 <= i < j < r@.len() ==> seq_less(#[trigger] r@[i].0@, #[trigger] r@[j].0@),
            forall|i: int| 0 <= i < r@.len() ==> (#[trigger] r@[i]).1 == self.file_systems()[i].spec_fs_type(),
    {
        let mut out: Vec<(String, FileSystemType)> = Vec::new();
        let mut i: usize = 0;
        while i < self.mount_points.len()
            invariant
                i <= self@.mounts.len(),
                self@.types.len() == self@.mounts.len(),
                out@.len() == i,
                forall|k: int| 0 <= k < i ==> (#[trigger] out@[k]).0@ == self@.mounts[k] && out@[k].1 == self@.types[k],
            decreases self@.mounts.len() - i,
        {
            let m = &self.mount_points[i];
            let name = m.path.clone();
            let t = m.fs.fs_type();
            out.push((name, t));
            i = i + 1;
        }
        out
    }
}

/// Splits `p` into its non-empty components.
pub fn split_path(p: &Vec<char>) -> (r: Vec<String>)
    ensures
        r@.map_values(|s: String| s@) == path_components(p@),
{
    let mut out: Vec<String> = Vec::new();
    let mut cur: Vec<char> = Vec::new();
    let mut i: usize = 0;
    while i < p.len()
        invariant
            i <= p@.len(),
            out@.map_values(|s: String| s@) + comps_from(p@, i as int, cur@) == path_components(p@),
        decreases p@.len() - i,
    {
        let ghost before = out@.map_values(|s: String| s@);
        if p[i] == '/' {
            if cur.len() > 0 {
                let s = string_of(&cur, 0, cur.len());
                assert(cur@.subrange(0, cur@.len() as int) =~= cur@);
                out.push(s);
                assert(out@.map_values(|s: String| s@) =~= before.push(cur@));
                assert(before + comps_from(p@, i as int, cur@) =~= out@.map_values(|s: String| s@) + comps_from(
                    p@,
                    i + 1,
                    Seq::empty(),
                ));
            } else {
                assert(comps_from(p@, i as int, cur@) =~= comps_from(p@, i + 1, Seq::empty()));
            }
            cur = Vec::new();
        } else {
            cur.push(p[i]);
        }
        i = i + 1;
    }
    if cur.len() > 0 {
        let ghost before = out@.map_values(|s: String| s@);
        let s = string_of(&cur, 0, cur.len());
        assert(cur@.subrange(0, cur@.len() as int) =~= cur@);
        out.push(s);
        assert(out@.map_values(|s: String| s@) =~= before.push(cur@));
    } else {
        assert(out@.map_values(|s: String| s@) =~= out@.map_values(|s: String| s@) + comps_from(p@, i as int, cur@));
    }
    out
}


/// Closing the descriptor that an open handed out leaves the open
/// descriptors as they were before the open: `v` is the state the open
/// started from.
pub proof fn law_close_undoes_open(v: VfsView)
    requires
        vfs_wf(v),
    ensures
        v.fds.push(v.next_fd).contains(v.next_fd),
        v.fds.push(v.next_fd).remove_value(v.next_fd) == v.fds,
{
    let s = v.fds.push(v.next_fd);
    assert(s[s.len() - 1] == v.next_fd);
    s.index_of_first_ensures(v.next_fd);
    let k = s.index_of_first(v.next_fd)->0;
    if k < s.len() - 1 {
        assert(s[k] == v.fds[k]);
    }
    assert(s.remove(s.len() - 1) =~= v.fds);
}

/// Opening a path and then reading the descriptor it gave reads the file
/// the path names from its start: the descriptor's inode is the node that
/// looking up the path's components from the serving mount's root reaches,
/// and the read is that node's read at position 0. `v0` is the state the
/// open started from, `v1` the state it left, `v2` the state the read left.
pub proof fn law_open_then_read<F: FileSystem>(
    v0: Vfs<F>,
    v1: Vfs<F>,
    v2: Vfs<F>,
    path: Seq<char>,
    flags: u32,
    fd: u64,
    before: Seq<u8>,
    after: Seq<u8>,
    r: KernelResult<usize>,
)
    requires
        v0.wf(),
        open_outcome(v0, v1, path, flags, Ok(fd)),
        read_outcome(v1, v2, fd, before, after, r),
        may_read(flags),
    ensures
        fd == v0@.next_fd,
        match resolve(v0@.mounts, path) {
            None => false,
            Some((m, rest)) => exists|i: int, root: F::Node, node: F::Node|
                #![trigger v0.file_systems()[i].root_gives(root), node.read_gives(0, before, after, r)]
                {
                    &&& 0 <= i < v0@.mounts.len()
                    &&& v0@.mounts[i] == m
                    &&& v0.file_systems()[i].root_gives(root)
                    &&& walk_gives(root, path_components(rest), 0, Ok::<F::Node, KernelError>(node))
                    &&& node.read_gives(0, before, after, r)
                },
        },
{
    let (m, rest) = match resolve(v0@.mounts, path) {
        Some(mr) => mr,
        None => (Seq::empty(), Seq::empty()),
    };
    let (i, root, res) = choose|i: int, root: F::Node, res: KernelResult<F::Node>|
        #![trigger v0.file_systems()[i].root_gives(root), walk_gives(root, path_components(rest), 0, res)]
        {
            &&& 0 <= i < v0@.mounts.len()
            &&& v0@.mounts[i] == m
            &&& v0.file_systems()[i].root_gives(root)
            &&& walk_gives(root, path_components(rest), 0, res)
            &&& match res {
                Ok(node) => {
                    &&& Ok::<u64, KernelError>(fd) == Ok::<u64, KernelError>(v0@.next_fd)
                    &&& v1@ == (VfsView {
                        fds: v0@.fds.push(v0@.next_fd),
                        offsets: v0@.offsets.push(0),
                        fd_flags: v0@.fd_flags.push(flags),
                        next_fd: (v0@.next_fd + 1) as u64,
                        ..v0@
                    })
                    &&& v1.nodes() == v0.nodes().push(node)
                    &&& v1.file_systems() == v0.file_systems()
                },
                Err(e) => Ok::<u64, KernelError>(fd) == Err::<u64, KernelError>(e) && v1@ == v0@ && v1.nodes() == v0.nodes()
                    && v1.file_systems() == v0.file_systems(),
            }
        };
    let node = res->Ok_0;
    let k = v0@.fds.len() as int;
    assert(v1@.fds[k] == fd);
    assert(v1@.fd_flags[k] == flags);
    assert(v1@.offsets[k] == 0);
    assert(v1.nodes()[k] == node);
    assert(node.read_gives(0, before, after, r));
}

/// Descriptor numbers count the successful opens: every state keeps the
/// next number at 3 plus the opens that succeeded so far, so the descriptor
/// an open hands out is 3 plus the number of earlier successful opens, and
/// numbers are never handed out twice, even after a close. A failed open
/// changes neither the count nor the open descriptors.
pub proof fn law_descriptor_numbers<F: FileSystem>(v0: Vfs<F>, v1: Vfs<F>, path: Seq<char>, flags: u32, r: KernelResult<u64>)
    requires
        v0.wf(),
        v1.wf(),
        open_outcome(v0, v1, path, flags, r),
        r is Ok ==> v1.opens() == v0.opens() + 1,
        r is Err ==> v1.opens() == v0.opens(),
    ensures
        r matches Ok(fd) ==> fd == 3 + v0.opens() && v1@.fds.contains(fd) && !v0@.fds.contains(fd),
        r is Err ==> v1@ == v0@,
{
    match r {
        Ok(fd) => {
            match resolve(v0@.mounts, path) {
                Some((m, rest)) => {
                    let (i, root, res) = choose|i: int, root: F::Node, res: KernelResult<F::Node>|
                        #![trigger v0.file_systems()[i].root_gives(root), walk_gives(root, path_components(rest), 0, res)]
                        {
                            &&& 0 <= i < v0@.mounts.len()
                            &&& v0@.mounts[i] == m
                            &&& v0.file_systems()[i].root_gives(root)
                            &&& walk_gives(root, path_components(rest), 0, res)
                            &&& match res {
                                Ok(node) => {
                                    &&& r == Ok::<u64, KernelError>(v0@.next_fd)
                                    &&& v1@ == (VfsView {
                                        fds: v0@.fds.push(v0@.next_fd),
                                        offsets: v0@.offsets.push(0),
                                        fd_flags: v0@.fd_flags.push(flags),
                                        next_fd: (v0@.next_fd + 1) as u64,
                                        ..v0@
                                    })
                                    &&& v1.nodes() == v0.nodes().push(node)
                                    &&& v1.file_systems() == v0.file_systems()
                                },
                                Err(e) => r == Err::<u64, KernelError>(e) && v1@ == v0@ && v1.nodes() == v0.nodes()
                                    && v1.file_systems() == v0.file_systems(),
                            }
                        };
                    assert(v1@.fds[v0@.fds.len() as int] == fd);
                    if v0@.fds.contains(fd) {
                        let k = choose|k: int| 0 <= k < v0@.fds.len() && v0@.fds[k] == fd;
                        assert(v0@.fds[k] < v0@.next_fd);
                    }
                },
                None => {},
            }
        },
        Err(_) => {
            match resolve(v0@.mounts, path) {
                Some((m, rest)) => {
                    let (i, root, res) = choose|i: int, root: F::Node, res: KernelResult<F::Node>|
                        #![trigger v0.file_systems()[i].root_gives(root), walk_gives(root, path_components(rest), 0, res)]
                        {
                            &&& 0 <= i < v0@.mounts.len()
                            &&& v0@.mounts[i] == m
                            &&& v0.file_systems()[i].root_gives(root)
                            &&& walk_gives(root, path_components(rest), 0, res)
                            &&& match res {
                                Ok(node) => {
                                    &&& r == Ok::<u64, KernelError>(v0@.next_fd)
                                    &&& v1@ == (VfsView {
                                        fds: v0@.fds.push(v0@.next_fd),
                                        offsets: v0@.offsets.push(0),
                                        fd_flags: v0@.fd_flags.push(flags),
                                        next_fd: (v0@.next_fd + 1) as u64,
                                        ..v0@
                                    })
                                    &&& v1.nodes() == v0.nodes().push(node)
                                    &&& v1.file_systems() == v0.file_systems()
                                },
                                Err(e) => r == Err::<u64, KernelError>(e) && v1@ == v0@ && v1.nodes() == v0.nodes()
                                    && v1.file_systems() == v0.file_systems(),
                            }
                        };
                },
                None => {},
            }
        },
    }
}

} // verus!
