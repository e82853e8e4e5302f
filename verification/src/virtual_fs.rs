//! A file system whose files exist only in the program that serves them.

use std::sync::Arc;
use vstd::prelude::*;
use crate::abi::{LINUX_ENOSYS, SETATTR_SIZE};
use crate::config::Duration;
use crate::handles::{DirEntry, DirEntryView};
use crate::passthrough::xattr::XattrReply;
use crate::passthrough::Entry;
use crate::stat::Stat;

verus! {

/// An entry of a directory.
#[derive(Debug, Clone, PartialEq, Eq)]
pub struct VirtualDirEntry {
    pub inode: u64,
    pub type_: u32,
    pub name: Vec<u8>,
}

/// What serves the files. Names have no NUL, and failures are guest error
/// numbers. An operation that is not provided is not supported.
pub trait VirtualFsBackend: Send + Sync + 'static {
    fn lookup(&self, parent: u64, name: &[u8]) -> (r: Result<Entry, i32>);

    fn getattr(&self, inode: u64) -> (r: Result<(Stat, Duration), i32>);

    fn readdir(&self, inode: u64) -> (r: Result<Vec<VirtualDirEntry>, i32>);

    fn read(&self, inode: u64, offset: u64, size: u32) -> (r: Result<Vec<u8>, i32>);

    fn create(&self, parent: u64, name: &[u8], mode: u32) -> (r: Result<Entry, i32>)
        default_ensures
            r == Err::<Entry, i32>(LINUX_ENOSYS),
    {
        let _ = (parent, name, mode);
        Err(LINUX_ENOSYS)
    }

    fn write(&self, inode: u64, offset: u64, data: &[u8]) -> (r: Result<usize, i32>)
        default_ensures
            r == Err::<usize, i32>(LINUX_ENOSYS),
    {
        let _ = (inode, offset, data);
        Err(LINUX_ENOSYS)
    }

    fn truncate(&self, inode: u64, size: u64) -> (r: Result<(Stat, Duration), i32>)
        default_ensures
            r == Err::<(Stat, Duration), i32>(LINUX_ENOSYS),
    {
        let _ = (inode, size);
        Err(LINUX_ENOSYS)
    }

    fn mkdir(&self, parent: u64, name: &[u8], mode: u32) -> (r: Result<Entry, i32>)
        default_ensures
            r == Err::<Entry, i32>(LINUX_ENOSYS),
    {
        let _ = (parent, name, mode);
        Err(LINUX_ENOSYS)
    }

    fn unlink(&self, parent: u64, name: &[u8]) -> (r: Result<(), i32>)
        default_ensures
            r == Err::<(), i32>(LINUX_ENOSYS),
    {
        let _ = (parent, name);
        Err(LINUX_ENOSYS)
    }

    fn rmdir(&self, parent: u64, name: &[u8]) -> (r: Result<(), i32>)
        default_ensures
            r == Err::<(), i32>(LINUX_ENOSYS),
    {
        let _ = (parent, name);
        Err(LINUX_ENOSYS)
    }

    fn rename(
        &self,
        olddir: u64,
        oldname: &[u8],
        newdir: u64,
        newname: &[u8],
        flags: u32,
    ) -> (r: Result<(), i32>)
        default_ensures
            r == Err::<(), i32>(LINUX_ENOSYS),
    {
        let _ = (olddir, oldname, newdir, newname, flags);
        Err(LINUX_ENOSYS)
    }

    fn link(&self, inode: u64, newparent: u64, newname: &[u8]) -> (r: Result<Entry, i32>)
        default_ensures
            r == Err::<Entry, i32>(LINUX_ENOSYS),
    {
        let _ = (inode, newparent, newname);
        Err(LINUX_ENOSYS)
    }

    fn symlink(&self, linkname: &[u8], parent: u64, name: &[u8]) -> (r: Result<Entry, i32>)
        default_ensures
            r == Err::<Entry, i32>(LINUX_ENOSYS),
    {
        let _ = (linkname, parent, name);
        Err(LINUX_ENOSYS)
    }

    fn readlink(&self, inode: u64) -> (r: Result<Vec<u8>, i32>)
        default_ensures
            r == Err::<Vec<u8>, i32>(LINUX_ENOSYS),
    {
        let _ = inode;
        Err(LINUX_ENOSYS)
    }

    fn setxattr(&self, inode: u64, name: &[u8], value: &[u8], flags: u32) -> (r: Result<(), i32>)
        default_ensures
            r == Err::<(), i32>(LINUX_ENOSYS),
    {
        let _ = (inode, name, value, flags);
        Err(LINUX_ENOSYS)
    }

    fn getxattr(&self, inode: u64, name: &[u8], size: u32) -> (r: Result<XattrReply, i32>)
        default_ensures
            r == Err::<XattrReply, i32>(LINUX_ENOSYS),
    {
        let _ = (inode, name, size);
        Err(LINUX_ENOSYS)
    }

    fn listxattr(&self, inode: u64, size: u32) -> (r: Result<XattrReply, i32>)
        default_ensures
            r == Err::<XattrReply, i32>(LINUX_ENOSYS),
    {
        let _ = (inode, size);
        Err(LINUX_ENOSYS)
    }

    fn removexattr(&self, inode: u64, name: &[u8]) -> (r: Result<(), i32>)
        default_ensures
            r == Err::<(), i32>(LINUX_ENOSYS),
    {
        let _ = (inode, name);
        Err(LINUX_ENOSYS)
    }
}

/// A file system that is served by a backend.
pub struct VirtualFs<B: ?Sized> {
    pub backend: Arc<B>,
}

impl<B: VirtualFsBackend + ?Sized> Clone for VirtualFs<B> {
    fn clone(&self) -> (r: Self)
        ensures
            r.backend == self.backend,
    {
        VirtualFs { backend: self.backend.clone() }
    }
}

/// A size as the backend takes it: the same bits, without a sign.
pub open spec fn unsigned(n: i64) -> u64 {
    if n >= 0 {
        n as u64
    } else {
        (n + 0x1_0000_0000_0000_0000) as u64
    }
}

fn to_unsigned(n: i64) -> (r: u64)
    ensures
        r == unsigned(n),
{
    if n >= 0 {
        n as u64
    } else {
        u64::MAX - ((-(n + 1)) as u64)
    }
}

/// The entry at an index of a directory, with the offset behind it.
pub open spec fn listed(entries: Seq<VirtualDirEntry>, index: int) -> DirEntryView {
    DirEntryView {
        ino: entries[index].inode,
        offset: (index + 1) as u64,
        type_: entries[index].type_,
        name: entries[index].name@,
    }
}

/// The entries of a directory from an offset on.
pub open spec fn listing(entries: Seq<VirtualDirEntry>, offset: u64) -> Seq<DirEntryView> {
    if offset >= entries.len() {
        Seq::empty()
    } else {
        Seq::new((entries.len() - offset) as nat, |i: int| listed(entries, offset + i))
    }
}

/// The contents of entries.
pub open spec fn dir_entry_views(entries: Seq<DirEntry>) -> Seq<DirEntryView> {
    entries.map_values(|e: DirEntry| e@)
}

/// A listing that goes on behind the entry that came last hands out what is
/// left, and nothing twice.
pub proof fn listing_resumes(entries: Seq<VirtualDirEntry>, offset: u64, k: int)
    requires
        entries.len() <= usize::MAX,
        0 <= k < listing(entries, offset).len(),
    ensures
        listing(entries, listing(entries, offset)[k].offset) == listing(entries, offset).skip(
            k + 1,
        ),
{
    let whole = listing(entries, offset);
    let next = whole[k].offset;
    assert(next == offset + k + 1);
    let rest = listing(entries, next);
    assert(rest =~= whole.skip(k + 1));
}

/// The entries of a directory from an offset on.
pub fn list_from(entries: &[VirtualDirEntry], offset: u64) -> (r: Vec<DirEntry<'_>>)
    ensures
        dir_entry_views(r@) == listing(entries@, offset),
{
    let mut out: Vec<DirEntry<'_>> = Vec::new();
    if offset >= entries.len() as u64 {
        assert(dir_entry_views(out@) =~= listing(entries@, offset));
        return out;
    }
    let mut i: usize = offset as usize;
    while i < entries.len()
        invariant
            offset <= i <= entries.len(),
            out@.len() == i - offset,
            forall|j: int|
                0 <= j < out@.len() ==> (#[trigger] out@[j])@ == listed(entries@, offset + j),
        decreases entries.len() - i,
    {
        let e = &entries[i];
        out.push(
            DirEntry {
                ino: e.inode,
                offset: i as u64 + 1,
                type_: e.type_,
                name: e.name.as_slice(),
            },
        );
        i = i + 1;
    }
    assert(dir_entry_views(out@) =~= listing(entries@, offset));
    out
}

impl<B: VirtualFsBackend + ?Sized> VirtualFs<B> {
    pub fn new(backend: Arc<B>) -> (r: Self)
        ensures
            r.backend == backend,
    {
        VirtualFs { backend }
    }

    /// No protocol feature is offered.
    pub fn init(&self, capable: u64) -> (r: u64)
        ensures
            r == 0,
    {
        let _ = capable;
        0
    }

    pub fn lookup(&self, parent: u64, name: &[u8]) -> (r: Result<Entry, i32>)
        ensures
            call_ensures(B::lookup, (&*self.backend, parent, name), r),
    {
        self.backend.lookup(parent, name)
    }

    pub fn getattr(&self, inode: u64) -> (r: Result<(Stat, Duration), i32>)
        ensures
            call_ensures(B::getattr, (&*self.backend, inode), r),
    {
        self.backend.getattr(inode)
    }

    /// Sets attributes, of which only the size can be set.
    pub fn setattr(&self, inode: u64, attr: Stat, valid: u32) -> (r: Result<(Stat, Duration), i32>)
        ensures
            if valid & SETATTR_SIZE == SETATTR_SIZE {
                call_ensures(B::truncate, (&*self.backend, inode, unsigned(attr.size)), r)
            } else {
                call_ensures(B::getattr, (&*self.backend, inode), r)
            },
    {
        if valid & SETATTR_SIZE == SETATTR_SIZE {
            return self.backend.truncate(inode, to_unsigned(attr.size));
        }
        self.backend.getattr(inode)
    }

    /// The handle and the options of an open file: the handle is the inode.
    pub fn open(&self, inode: u64) -> (r: (u64, u32))
        ensures
            r == (inode, 0u32),
    {
        (inode, 0)
    }

    /// The handle and the options of an open directory.
    pub fn opendir(&self, inode: u64) -> (r: (u64, u32))
        ensures
            r == (inode, 0u32),
    {
        (inode, 0)
    }

    /// Creates and opens a file.
    pub fn create(&self, parent: u64, name: &[u8], mode: u32) -> (r: Result<(Entry, u64, u32), i32>)
        ensures
            match r {
                Ok((entry, handle, options)) => {
                    &&& call_ensures(
                        B::create,
                        (&*self.backend, parent, name, mode),
                        Ok::<Entry, i32>(entry),
                    )
                    &&& handle == entry.inode
                    &&& options == 0
                },
                Err(error) => call_ensures(
                    B::create,
                    (&*self.backend, parent, name, mode),
                    Err::<Entry, i32>(error),
                ),
            },
    {
        match self.backend.create(parent, name, mode) {
            Ok(entry) => Ok((entry, entry.inode, 0)),
            Err(error) => Err(error),
        }
    }

    pub fn mknod(&self, parent: u64, name: &[u8], mode: u32) -> (r: Result<Entry, i32>)
        ensures
            call_ensures(B::create, (&*self.backend, parent, name, mode), r),
    {
        self.backend.create(parent, name, mode)
    }

    pub fn read(&self, inode: u64, offset: u64, size: u32) -> (r: Result<Vec<u8>, i32>)
        ensures
            call_ensures(B::read, (&*self.backend, inode, offset, size), r),
    {
        self.backend.read(inode, offset, size)
    }

    pub fn write(&self, inode: u64, offset: u64, data: &[u8]) -> (r: Result<usize, i32>)
        ensures
            call_ensures(B::write, (&*self.backend, inode, offset, data), r),
    {
        self.backend.write(inode, offset, data)
    }

    /// The entries of a directory.
    pub fn readdir(&self, inode: u64) -> (r: Result<Vec<VirtualDirEntry>, i32>)
        ensures
            call_ensures(B::readdir, (&*self.backend, inode), r),
    {
        self.backend.readdir(inode)
    }

    /// Every access is granted.
    pub fn access(&self, inode: u64, mask: u32) -> (r: Result<(), i32>)
        ensures
            r == Ok::<(), i32>(()),
    {
        let _ = (inode, mask);
        Ok(())
    }

    pub fn mkdir(&self, parent: u64, name: &[u8], mode: u32) -> (r: Result<Entry, i32>)
        ensures
            call_ensures(B::mkdir, (&*self.backend, parent, name, mode), r),
    {
        self.backend.mkdir(parent, name, mode)
    }

    pub fn unlink(&self, parent: u64, name: &[u8]) -> (r: Result<(), i32>)
        ensures
            call_ensures(B::unlink, (&*self.backend, parent, name), r),
    {
        self.backend.unlink(parent, name)
    }

    pub fn rmdir(&self, parent: u64, name: &[u8]) -> (r: Result<(), i32>)
        ensures
            call_ensures(B::rmdir, (&*self.backend, parent, name), r),
    {
        self.backend.rmdir(parent, name)
    }

    pub fn rename(
        &self,
        olddir: u64,
        oldname: &[u8],
        newdir: u64,
        newname: &[u8],
        flags: u32,
    ) -> (r: Result<(), i32>)
        ensures
            call_ensures(
                B::rename,
                (&*self.backend, olddir, oldname, newdir, newname, flags),
                r,
            ),
    {
        self.backend.rename(olddir, oldname, newdir, newname, flags)
    }

    pub fn link(&self, inode: u64, newparent: u64, newname: &[u8]) -> (r: Result<Entry, i32>)
        ensures
            call_ensures(B::link, (&*self.backend, inode, newparent, newname), r),
    {
        self.backend.link(inode, newparent, newname)
    }

    pub fn symlink(&self, linkname: &[u8], parent: u64, name: &[u8]) -> (r: Result<Entry, i32>)
        ensures
            call_ensures(B::symlink, (&*self.backend, linkname, parent, name), r),
    {
        self.backend.symlink(linkname, parent, name)
    }

    pub fn readlink(&self, inode: u64) -> (r: Result<Vec<u8>, i32>)
        ensures
            call_ensures(B::readlink, (&*self.backend, inode), r),
    {
        self.backend.readlink(inode)
    }

    pub fn setxattr(&self, inode: u64, name: &[u8], value: &[u8], flags: u32) -> (r: Result<
        (),
        i32,
    >)
        ensures
            call_ensures(B::setxattr, (&*self.backend, inode, name, value, flags), r),
    {
        self.backend.setxattr(inode, name, value, flags)
    }

    pub fn getxattr(&self, inode: u64, name: &[u8], size: u32) -> (r: Result<XattrReply, i32>)
        ensures
            call_ensures(B::getxattr, (&*self.backend, inode, name, size), r),
    {
        self.backend.getxattr(inode, name, size)
    }

    pub fn listxattr(&self, inode: u64, size: u32) -> (r: Result<XattrReply, i32>)
        ensures
            call_ensures(B::listxattr, (&*self.backend, inode, size), r),
    {
        self.backend.listxattr(inode, size)
    }

    pub fn removexattr(&self, inode: u64, name: &[u8]) -> (r: Result<(), i32>)
        ensures
            call_ensures(B::removexattr, (&*self.backend, inode, name), r),
    {
        self.backend.removexattr(inode, name)
    }
}

/// A directory is listed from an offset on, each entry as the backend has it and
/// with the offset behind it.
pub proof fn entries_are_listed_as_they_are(
    entries: Seq<VirtualDirEntry>,
    offset: u64,
    i: int,
)
    requires
        entries.len() <= usize::MAX,
    ensures
        listing(entries, offset).len() == if offset < entries.len() {
            entries.len() - offset
        } else {
            0
        },
        0 <= i && offset + i < entries.len() ==> {
            let shown = listing(entries, offset)[i];
            &&& shown.ino == entries[offset + i].inode
            &&& shown.type_ == entries[offset + i].type_
            &&& shown.name == entries[offset + i].name@
            &&& shown.offset == offset + i + 1
        },
{
}

/// A size is handed to the backend with the bits that it has.
pub proof fn sizes_keep_their_bits(n: i64)
    ensures
        n >= 0 ==> unsigned(n) == n,
        n < 0 ==> unsigned(n) == n + 0x1_0000_0000_0000_0000,
{
}

/// Requests on files reach the backend as the guest made them: the same inode or
/// name, the same offset, and the same bytes. A new size is cut to, and no other
/// attribute is set.
pub proof fn file_requests_reach_the_backend<B: VirtualFsBackend + ?Sized>(
    fs: &VirtualFs<B>,
    inode: u64,
    offset: u64,
    size: u32,
    data: &[u8],
    attr: Stat,
    valid: u32,
    read: Result<Vec<u8>, i32>,
    written: Result<usize, i32>,
    set: Result<(Stat, Duration), i32>,
    got: Result<(Stat, Duration), i32>,
    target: Result<Vec<u8>, i32>,
)
    requires
        call_ensures(VirtualFs::<B>::read, (fs, inode, offset, size), read),
        call_ensures(VirtualFs::<B>::write, (fs, inode, offset, data), written),
        call_ensures(VirtualFs::<B>::setattr, (fs, inode, attr, valid), set),
        call_ensures(VirtualFs::<B>::getattr, (fs, inode), got),
        call_ensures(VirtualFs::<B>::readlink, (fs, inode), target),
    ensures
        call_ensures(B::read, (&*fs.backend, inode, offset, size), read),
        call_ensures(B::write, (&*fs.backend, inode, offset, data), written),
        valid & 8 == 8 && attr.size >= 0 ==> call_ensures(
            B::truncate,
            (&*fs.backend, inode, attr.size as u64),
            set,
        ),
        valid & 8 != 8 ==> call_ensures(B::getattr, (&*fs.backend, inode), set),
        call_ensures(B::getattr, (&*fs.backend, inode), got),
        call_ensures(B::readlink, (&*fs.backend, inode), target),
{
}

/// Requests on names reach the backend as the guest made them: in the same
/// directory, under the same name.
pub proof fn name_requests_reach_the_backend<B: VirtualFsBackend + ?Sized>(
    fs: &VirtualFs<B>,
    parent: u64,
    name: &[u8],
    mode: u32,
    newdir: u64,
    newname: &[u8],
    flags: u32,
    looked: Result<Entry, i32>,
    made: Result<Entry, i32>,
    dir: Result<Entry, i32>,
    removed: Result<(), i32>,
    emptied: Result<(), i32>,
    renamed: Result<(), i32>,
    linked: Result<Entry, i32>,
    symlinked: Result<Entry, i32>,
)
    requires
        call_ensures(VirtualFs::<B>::lookup, (fs, parent, name), looked),
        call_ensures(VirtualFs::<B>::mknod, (fs, parent, name, mode), made),
        call_ensures(VirtualFs::<B>::mkdir, (fs, parent, name, mode), dir),
        call_ensures(VirtualFs::<B>::unlink, (fs, parent, name), removed),
        call_ensures(VirtualFs::<B>::rmdir, (fs, parent, name), emptied),
        call_ensures(
            VirtualFs::<B>::rename,
            (fs, parent, name, newdir, newname, flags),
            renamed,
        ),
        call_ensures(VirtualFs::<B>::link, (fs, parent, newdir, newname), linked),
        call_ensures(VirtualFs::<B>::symlink, (fs, newname, parent, name), symlinked),
    ensures
        call_ensures(B::lookup, (&*fs.backend, parent, name), looked),
        call_ensures(B::create, (&*fs.backend, parent, name, mode), made),
        call_ensures(B::mkdir, (&*fs.backend, parent, name, mode), dir),
        call_ensures(B::unlink, (&*fs.backend, parent, name), removed),
        call_ensures(B::rmdir, (&*fs.backend, parent, name), emptied),
        call_ensures(
            B::rename,
            (&*fs.backend, parent, name, newdir, newname, flags),
            renamed,
        ),
        call_ensures(B::link, (&*fs.backend, parent, newdir, newname), linked),
        call_ensures(B::symlink, (&*fs.backend, newname, parent, name), symlinked),
{
}

/// A created file is opened under its own inode, and so is any other; no option
/// and no feature is asked for, and every access is granted.
pub proof fn files_are_opened_under_their_inode<B: VirtualFsBackend + ?Sized>(
    fs: &VirtualFs<B>,
    parent: u64,
    name: &[u8],
    mode: u32,
    inode: u64,
    created: Result<(Entry, u64, u32), i32>,
    opened: (u64, u32),
    listed: (u64, u32),
    capable: u64,
    offered: u64,
    mask: u32,
    granted: Result<(), i32>,
)
    requires
        call_ensures(VirtualFs::<B>::create, (fs, parent, name, mode), created),
        call_ensures(VirtualFs::<B>::open, (fs, inode), opened),
        call_ensures(VirtualFs::<B>::opendir, (fs, inode), listed),
        call_ensures(VirtualFs::<B>::init, (fs, capable), offered),
        call_ensures(VirtualFs::<B>::access, (fs, inode, mask), granted),
    ensures
        match created {
            Ok((entry, handle, options)) => handle == entry.inode && options == 0 && call_ensures(
                B::create,
                (&*fs.backend, parent, name, mode),
                Ok::<Entry, i32>(entry),
            ),
            Err(error) => call_ensures(
                B::create,
                (&*fs.backend, parent, name, mode),
                Err::<Entry, i32>(error),
            ),
        },
        opened.0 == inode && opened.1 == 0,
        listed.0 == inode && listed.1 == 0,
        offered == 0,
        granted is Ok,
{
}

/// A listing has the entries of the directory from the offset on.
pub proof fn list_from_lists(entries: &[VirtualDirEntry], offset: u64, r: Vec<DirEntry<'_>>, i: int)
    requires
        call_ensures(list_from, (entries, offset), r),
        entries@.len() <= usize::MAX,
        0 <= i,
        offset + i < entries@.len(),
    ensures
        r@.len() == entries@.len() - offset,
        r@[i].ino == entries@[offset + i].inode,
        r@[i].offset == offset + i + 1,
        r@[i].type_ == entries@[offset + i].type_,
        r@[i].name@ == entries@[offset + i].name@,
{
    assert(dir_entry_views(r@).len() == r@.len());
    assert(dir_entry_views(r@)[i] == r@[i]@);
    entries_are_listed_as_they_are(entries@, offset, i);
}

} // verus!
