//! Open files and directory listings.

use std::collections::HashMap;
use vstd::prelude::*;
use crate::abi::{LINUX_EBADF, LINUX_EIO};
use crate::host::HostError;

verus! {

broadcast use vstd::std_specs::hash::group_hash_axioms;

/// One entry of a listing.
#[derive(Debug)]
pub struct CachedDirEntry {
    pub ino: u64,
    pub name: Vec<u8>,
    pub type_: u8,
}

/// The contents of a `CachedDirEntry`.
#[verifier::ext_equal]
pub struct CachedView {
    pub ino: u64,
    pub name: Seq<u8>,
    pub type_: u8,
}

impl View for CachedDirEntry {
    type V = CachedView;

    open spec fn view(&self) -> CachedView {
        CachedView { ino: self.ino, name: self.name@, type_: self.type_ }
    }
}

/// The contents of a vector of entries.
pub open spec fn cached_views(entries: Seq<CachedDirEntry>) -> Seq<CachedView> {
    entries.map_values(|e: CachedDirEntry| e@)
}

/// A directory entry as the guest gets it. The offset is that of the entry that
/// follows.
#[derive(Debug, PartialEq, Eq)]
pub struct DirEntry<'a> {
    pub ino: u64,
    pub offset: u64,
    pub type_: u32,
    pub name: &'a [u8],
}

/// The contents of a `DirEntry`.
#[verifier::ext_equal]
pub struct DirEntryView {
    pub ino: u64,
    pub offset: u64,
    pub type_: u32,
    pub name: Seq<u8>,
}

impl<'a> View for DirEntry<'a> {
    type V = DirEntryView;

    open spec fn view(&self) -> DirEntryView {
        DirEntryView {
            ino: self.ino,
            offset: self.offset,
            type_: self.type_,
            name: self.name@,
        }
    }
}

/// The contents of an optional entry.
pub open spec fn entry_view(entry: Option<DirEntry>) -> Option<DirEntryView> {
    match entry {
        Some(entry) => Some(entry@),
        None => None,
    }
}

/// The listing of a directory, kept so that offsets into it stay good.
pub struct DirStream {
    entries: Vec<CachedDirEntry>,
    ready: bool,
}

/// The contents of a `DirStream`.
#[verifier::ext_equal]
pub struct StreamView {
    pub entries: Seq<CachedView>,
    pub ready: bool,
}

impl View for DirStream {
    type V = StreamView;

    closed spec fn view(&self) -> StreamView {
        StreamView { entries: cached_views(self.entries@), ready: self.ready }
    }
}

impl StreamView {
    /// The entry at an offset.
    pub open spec fn entry_at(self, offset: u64) -> Option<DirEntryView> {
        if offset < self.entries.len() {
            let e = self.entries[offset as int];
            Some(
                DirEntryView {
                    ino: e.ino,
                    offset: (offset + 1) as u64,
                    type_: e.type_ as u32,
                    name: e.name,
                },
            )
        } else {
            None
        }
    }

    /// The entry that is handed out next, after what became of the one before.
    pub open spec fn delivery(self, offset: u64, last: Delivery) -> Option<DirEntryView> {
        if last == Delivery::Added(0) || last == Delivery::Refused {
            None
        } else {
            self.entry_at(offset)
        }
    }
}

/// A directory names itself and its parent; neither is listed.
pub open spec fn is_dot(name: Seq<u8>) -> bool {
    name == seq![0x2eu8] || name == seq![0x2eu8, 0x2eu8]
}

/// What became of the entry that was handed out before.
#[derive(Debug, Clone, Copy, PartialEq, Eq, Structural)]
pub enum Delivery {
    /// There was none.
    First,
    /// It took this many bytes of the guest's buffer; none if it did not fit.
    Added(usize),
    /// It could not be handed out.
    Refused,
}

/// The host call that a listing waits for.
#[derive(Debug, Clone, Copy, PartialEq, Eq)]
pub enum Fill {
    /// Duplicate the directory's descriptor.
    Dup,
    /// Open a directory stream on the duplicate.
    Open { fd: i32 },
    /// Close the duplicate, as no stream took it.
    Discard { fd: i32, error: i32 },
    /// Read one entry.
    Read,
    /// Close the stream; an error is kept for the end.
    Close { error: Option<i32> },
    /// Nothing: the listing is complete, or ended by an error.
    Finished { error: Option<i32> },
}

/// The reply to such a call.
#[derive(Debug)]
pub enum FillReply {
    Error(HostError),
    Done,
    Fd(i32),
    Entry(CachedDirEntry),
    End,
}

/// What a listing waits for after a reply. A reply of another kind than the call
/// has counts as an I/O error.
pub open spec fn fill_next(phase: Fill, reply: FillReply) -> Fill {
    match phase {
        Fill::Dup => match reply {
            FillReply::Fd(fd) => Fill::Open { fd },
            FillReply::Error(error) => Fill::Finished { error: Some(error.linux) },
            _ => Fill::Finished { error: Some(LINUX_EIO) },
        },
        Fill::Open { fd } => match reply {
            FillReply::Error(error) => Fill::Discard { fd, error: error.linux },
            _ => Fill::Read,
        },
        Fill::Discard { fd: _, error } => Fill::Finished { error: Some(error) },
        Fill::Read => match reply {
            FillReply::Error(error) => Fill::Close { error: Some(error.linux) },
            FillReply::End => Fill::Close { error: None },
            FillReply::Entry(_) => Fill::Read,
            _ => Fill::Close { error: Some(LINUX_EIO) },
        },
        Fill::Close { error } => Fill::Finished { error },
        Fill::Finished { error } => Fill::Finished { error },
    }
}

/// The listing after a reply: an entry that was read is added, unless it names
/// the directory or its parent.
pub open spec fn fill_entries(phase: Fill, reply: FillReply, entries: Seq<CachedView>) -> Seq<
    CachedView,
> {
    match (phase, reply) {
        (Fill::Read, FillReply::Entry(entry)) => if is_dot(entry.name@) {
            entries
        } else {
            entries.push(entry@)
        },
        _ => entries,
    }
}

/// The entries that a guest with room for all of them gets from an offset on:
/// each entry gives the offset at which to go on.
pub open spec fn walk(stream: StreamView, offset: u64) -> Seq<DirEntryView>
    decreases stream.entries.len() - offset,
{
    match stream.entry_at(offset) {
        Some(entry) => if offset < u64::MAX {
            seq![entry] + walk(stream, entry.offset)
        } else {
            seq![entry]
        },
        None => Seq::empty(),
    }
}

/// A listing hands out every entry from an offset on, each once and in order.
pub proof fn walk_reaches_every_entry(stream: StreamView, offset: u64)
    requires
        offset <= stream.entries.len() < u64::MAX,
    ensures
        walk(stream, offset).len() == stream.entries.len() - offset,
        forall|i: int|
            0 <= i < walk(stream, offset).len() ==> (#[trigger] walk(stream, offset)[i]).name
                == stream.entries[offset + i].name && walk(stream, offset)[i].ino
                == stream.entries[offset + i].ino && walk(stream, offset)[i].offset == offset + i
                + 1,
    decreases stream.entries.len() - offset,
{
    if offset < stream.entries.len() {
        let next = (offset + 1) as u64;
        walk_reaches_every_entry(stream, next);
        let rest = walk(stream, next);
        let whole = walk(stream, offset);
        assert forall|i: int| 0 <= i < whole.len() implies (#[trigger] whole[i]).name
            == stream.entries[offset + i].name && whole[i].ino == stream.entries[offset + i].ino
            && whole[i].offset == offset + i + 1 by {
            if i > 0 {
                assert(whole[i] == rest[i - 1]);
                assert(rest[i - 1].name == stream.entries[next + (i - 1)].name);
            }
        }
    }
}

/// Whether a name is the directory itself or its parent.
fn is_dot_name(name: &Vec<u8>) -> (r: bool)
    ensures
        r == is_dot(name@),
{
    let ghost one = seq![0x2eu8];
    let ghost two = seq![0x2eu8, 0x2eu8];
    if name.len() == 1 && name[0] == 0x2e {
        assert(name@ =~= one);
        return true;
    }
    if name.len() == 2 && name[0] == 0x2e && name[1] == 0x2e {
        assert(name@ =~= two);
        return true;
    }
    assert(one[0] == 0x2e && two[0] == 0x2e && two[1] == 0x2e);
    false
}

impl DirStream {
    pub fn new() -> (r: DirStream)
        ensures
            r@.entries == Seq::<CachedView>::empty(),
            !r@.ready,
    {
        let r = DirStream { entries: Vec::new(), ready: false };
        assert(r@.entries =~= Seq::<CachedView>::empty());
        r
    }

    /// The entry at an offset.
    pub fn get_entry(&self, offset: u64) -> (r: Option<DirEntry<'_>>)
        ensures
            entry_view(r) == self@.entry_at(offset),
    {
        if offset >= self.entries.len() as u64 {
            return None;
        }
        let e = &self.entries[offset as usize];
        Some(
            DirEntry {
                ino: e.ino,
                offset: offset + 1,
                type_: e.type_ as u32,
                name: e.name.as_slice(),
            },
        )
    }

    /// The entry to hand out next.
    pub fn deliver(&self, offset: u64, last: Delivery) -> (r: Option<DirEntry<'_>>)
        ensures
            entry_view(r) == self@.delivery(offset, last),
    {
        match last {
            Delivery::Added(0) => None,
            Delivery::Refused => None,
            _ => self.get_entry(offset),
        }
    }

    /// Takes the reply to the call that the listing waited for.
    pub fn fill_from(&mut self, phase: Fill, reply: FillReply) -> (r: Fill)
        ensures
            r == fill_next(phase, reply),
            final(self)@.ready == old(self)@.ready,
            final(self)@.entries == fill_entries(phase, reply, old(self)@.entries),
    {
        match phase {
            Fill::Dup => match reply {
                FillReply::Fd(fd) => Fill::Open { fd },
                FillReply::Error(error) => Fill::Finished { error: Some(error.linux) },
                _ => Fill::Finished { error: Some(LINUX_EIO) },
            },
            Fill::Open { fd } => match reply {
                FillReply::Error(error) => Fill::Discard { fd, error: error.linux },
                _ => Fill::Read,
            },
            Fill::Discard { fd: _, error } => Fill::Finished { error: Some(error) },
            Fill::Read => match reply {
                FillReply::Error(error) => Fill::Close { error: Some(error.linux) },
                FillReply::End => Fill::Close { error: None },
                FillReply::Entry(entry) => {
                    if !is_dot_name(&entry.name) {
                        let ghost before = self@.entries;
                        self.entries.push(entry);
                        assert(self@.entries =~= before.push(entry@));
                    }
                    Fill::Read
                },
                _ => Fill::Close { error: Some(LINUX_EIO) },
            },
            Fill::Close { error } => Fill::Finished { error },
            Fill::Finished { error } => Fill::Finished { error },
        }
    }

    /// Forgets the entries.
    pub fn reset(&mut self)
        ensures
            final(self)@.entries == Seq::<CachedView>::empty(),
            !final(self)@.ready,
    {
        self.entries.clear();
        self.ready = false;
        assert(self@.entries =~= Seq::<CachedView>::empty());
    }

    /// The listing has ended, by an error or at its end. What was read before an
    /// error is good; an error is reported only if nothing was.
    pub fn finish(&mut self, error: Option<i32>) -> (r: Result<(), i32>)
        ensures
            final(self)@.entries == old(self)@.entries,
            match r {
                Err(e) => error == Some(e) && old(self)@.entries.len() == 0 && final(self)@.ready
                    == old(self)@.ready,
                Ok(_) => (error is None || old(self)@.entries.len() > 0) && final(self)@.ready,
            },
    {
        if let Some(error) = error {
            if self.entries.len() == 0 {
                return Err(error);
            }
        }
        self.ready = true;
        Ok(())
    }

    pub fn is_ready(&self) -> (r: bool)
        ensures
            r == self@.ready,
    {
        self.ready
    }
}

/// An open file.
pub struct HandleData {
    pub inode: u64,
    pub fd: i32,
    pub stream: DirStream,
}

/// The contents of a `HandleData`.
#[verifier::ext_equal]
pub struct HandleView {
    pub inode: u64,
    pub fd: i32,
    pub stream: StreamView,
}

impl View for HandleData {
    type V = HandleView;

    open spec fn view(&self) -> HandleView {
        HandleView { inode: self.inode, fd: self.fd, stream: self.stream@ }
    }
}

/// The open files by handle.
pub struct HandleTable {
    handles: HashMap<u64, HandleData>,
    next_handle: u64,
    wrapped: Ghost<bool>,
}

/// The contents of a `HandleTable`.
#[verifier::ext_equal]
pub struct HandlesView {
    pub open: Map<u64, HandleView>,
    pub next: u64,
    /// Every handle was given out once, and they are given out anew.
    pub wrapped: bool,
}

/// The contents of the open files.
pub open spec fn handle_views(handles: Map<u64, HandleData>) -> Map<u64, HandleView> {
    handles.map_values(|d: HandleData| d@)
}

impl View for HandleTable {
    type V = HandlesView;

    closed spec fn view(&self) -> HandlesView {
        HandlesView {
            open: handle_views(self.handles@),
            next: self.next_handle,
            wrapped: self.wrapped@,
        }
    }
}

/// A file that was just opened.
pub open spec fn fresh_handle(inode: u64, fd: i32) -> HandleView {
    HandleView {
        inode,
        fd,
        stream: StreamView { entries: Seq::empty(), ready: false },
    }
}

impl HandlesView {
    /// Every open file has a handle that was given out: until handles are given
    /// out anew, one below the next.
    pub open spec fn numbered(self) -> bool {
        !self.wrapped ==> forall|h: u64| #[trigger] self.open.contains_key(h) ==> h < self.next
    }

    /// The descriptor of an open file, if the handle is of that inode.
    pub open spec fn fd_for(self, inode: u64, handle: u64) -> Result<i32, i32> {
        if self.open.contains_key(handle) && self.open[handle].inode == inode {
            Ok(self.open[handle].fd)
        } else {
            Err(LINUX_EBADF)
        }
    }

    /// The open files after one more was opened.
    pub open spec fn opened(self, inode: u64, fd: i32) -> HandlesView {
        HandlesView {
            open: self.open.insert(self.next, fresh_handle(inode, fd)),
            next: self.next.wrapping_add(1),
            wrapped: self.wrapped || self.next == u64::MAX,
        }
    }

    /// The open files after a handle was released.
    pub open spec fn released(self, inode: u64, handle: u64) -> HandlesView {
        if self.fd_for(inode, handle) is Ok {
            HandlesView { open: self.open.remove(handle), ..self }
        } else {
            self
        }
    }

    /// The open files with another listing for one of them.
    pub open spec fn listed(self, handle: u64, stream: StreamView) -> HandlesView {
        HandlesView {
            open: self.open.insert(handle, HandleView { stream, ..self.open[handle] }),
            ..self
        }
    }
}

/// A released handle is good no more, and leaves every other handle alone.
pub proof fn release_invalidates_the_handle(
    handles: HandlesView,
    inode: u64,
    handle: u64,
    other_inode: u64,
    other: u64,
)
    requires
        handles.fd_for(inode, handle) is Ok,
    ensures
        handles.released(inode, handle).fd_for(inode, handle) == Err::<i32, i32>(LINUX_EBADF),
        other != handle ==> handles.released(inode, handle).fd_for(other_inode, other)
            == handles.fd_for(other_inode, other),
{
}

/// A new handle is not in use, until all were given out. A file that was opened
/// is found under its new handle, and releasing it
/// again leaves the files that were open before.
pub proof fn open_then_release(handles: HandlesView, inode: u64, fd: i32)
    requires
        handles.numbered(),
        !handles.wrapped,
    ensures
        !handles.open.contains_key(handles.next),
        handles.opened(inode, fd).fd_for(inode, handles.next) == Ok::<i32, i32>(fd),
        handles.opened(inode, fd).released(inode, handles.next).open == handles.open,
{
    assert(handles.opened(inode, fd).released(inode, handles.next).open =~= handles.open);
}

/// What a listing needs before entries can be handed out.
#[derive(Debug, Clone, Copy, PartialEq, Eq, Structural)]
pub enum ListStart {
    /// Nothing: no entry fits.
    Empty,
    /// The directory is rewound, then read.
    Rewind { fd: i32 },
    /// The directory is read.
    Fill { fd: i32 },
    /// Nothing: the entries are there.
    Ready,
}

/// What a listing needs. Offset zero starts over.
pub open spec fn list_start(handles: HandlesView, inode: u64, handle: u64, size: u32, offset: u64)
    -> Result<ListStart, i32> {
    if size == 0 {
        Ok(ListStart::Empty)
    } else {
        match handles.fd_for(inode, handle) {
            Err(error) => Err(error),
            Ok(fd) => if handles.open[handle].stream.ready {
                if offset == 0 {
                    Ok(ListStart::Rewind { fd })
                } else {
                    Ok(ListStart::Ready)
                }
            } else {
                Ok(ListStart::Fill { fd })
            },
        }
    }
}

impl HandleTable {
    pub fn new() -> (r: HandleTable)
        ensures
            r@.open == Map::<u64, HandleView>::empty(),
            r@.next == 1,
            !r@.wrapped,
    {
        let r = HandleTable { handles: HashMap::new(), next_handle: 1, wrapped: Ghost(false) };
        assert(r@.open =~= Map::<u64, HandleView>::empty());
        r
    }

    /// The descriptor of an open file.
    pub fn lookup(&self, inode: u64, handle: u64) -> (r: Result<i32, i32>)
        ensures
            r == self@.fd_for(inode, handle),
    {
        match self.handles.get(&handle) {
            Some(data) => if data.inode == inode {
                Ok(data.fd)
            } else {
                Err(LINUX_EBADF)
            },
            None => Err(LINUX_EBADF),
        }
    }

    /// Adds an open file.
    pub fn open(&mut self, inode: u64, fd: i32) -> (r: u64)
        ensures
            r == old(self)@.next,
            final(self)@ == old(self)@.opened(inode, fd),
    {
        let ghost before = self@;
        let handle: u64 = self.next_handle;
        self.next_handle = handle.wrapping_add(1);
        let ghost wrapped = self.wrapped@ || handle == u64::MAX;
        self.wrapped = Ghost(wrapped);
        let data = HandleData { inode, fd, stream: DirStream::new() };
        assert(data@ =~= fresh_handle(inode, fd));
        self.handles.insert(handle, data);
        assert(self@.open =~= before.open.insert(handle, data@));
        handle
    }

    /// Removes an open file. The result is the descriptor to close.
    pub fn release(&mut self, inode: u64, handle: u64) -> (r: Result<i32, i32>)
        ensures
            r == old(self)@.fd_for(inode, handle),
            final(self)@ == old(self)@.released(inode, handle),
    {
        let ghost before = self@;
        let fd = match self.lookup(inode, handle) {
            Ok(fd) => fd,
            Err(error) => return Err(error),
        };
        self.handles.remove(&handle);
        assert(self@.open =~= before.open.remove(handle));
        Ok(fd)
    }

    /// Removes every open file. The result is what was open.
    pub fn clear(&mut self) -> (r: HashMap<u64, HandleData>)
        ensures
            handle_views(r@) == old(self)@.open,
            final(self)@.open == Map::<u64, HandleView>::empty(),
            final(self)@.next == old(self)@.next,
            final(self)@.wrapped == old(self)@.wrapped,
    {
        let mut taken: HashMap<u64, HandleData> = HashMap::new();
        core::mem::swap(&mut self.handles, &mut taken);
        assert(self@.open =~= Map::<u64, HandleView>::empty());
        taken
    }

    /// Prepares a listing: says what it needs, and forgets the entries of one
    /// that starts over.
    pub fn begin_listing(&mut self, inode: u64, handle: u64, size: u32, offset: u64) -> (r: Result<
        ListStart,
        i32,
    >)
        ensures
            r == list_start(old(self)@, inode, handle, size, offset),
            final(self)@ == match r {
                Ok(ListStart::Rewind { .. }) => old(self)@.listed(
                    handle,
                    StreamView { entries: Seq::empty(), ready: false },
                ),
                _ => old(self)@,
            },
    {
        if size == 0 {
            return Ok(ListStart::Empty);
        }
        let fd = match self.lookup(inode, handle) {
            Ok(fd) => fd,
            Err(error) => return Err(error),
        };
        let ready: bool = match self.handles.get(&handle) {
            Some(data) => data.stream.is_ready(),
            None => false,
        };
        if !ready {
            return Ok(ListStart::Fill { fd });
        }
        if offset != 0 {
            return Ok(ListStart::Ready);
        }
        let ghost before = self@;
        if let Some(mut data) = self.handles.remove(&handle) {
            data.stream.reset();
            self.handles.insert(handle, data);
            assert(self@.open =~= before.listed(
                handle,
                StreamView { entries: Seq::empty(), ready: false },
            ).open);
        }
        Ok(ListStart::Rewind { fd })
    }

    /// Takes the reply to the call that a listing waited for.
    pub fn fill_listing(&mut self, handle: u64, phase: Fill, reply: FillReply) -> (r: Fill)
        requires
            old(self)@.open.contains_key(handle),
        ensures
            r == fill_next(phase, reply),
            final(self)@ == old(self)@.listed(
                handle,
                StreamView {
                    entries: fill_entries(phase, reply, old(self)@.open[handle].stream.entries),
                    ..old(self)@.open[handle].stream
                },
            ),
    {
        let ghost before = self@;
        let mut next: Fill = phase;
        if let Some(mut data) = self.handles.remove(&handle) {
            next = data.stream.fill_from(phase, reply);
            self.handles.insert(handle, data);
            assert(self@.open =~= before.listed(
                handle,
                StreamView {
                    entries: fill_entries(phase, reply, before.open[handle].stream.entries),
                    ..before.open[handle].stream
                },
            ).open);
        }
        next
    }

    /// Ends a listing: it fails only if an error came before any entry.
    pub fn finish_listing(&mut self, handle: u64, error: Option<i32>) -> (r: Result<(), i32>)
        requires
            old(self)@.open.contains_key(handle),
        ensures
            match r {
                Err(e) => error == Some(e) && old(self)@.open[handle].stream.entries.len() == 0
                    && final(self)@ == old(self)@,
                Ok(_) => (error is None || old(self)@.open[handle].stream.entries.len() > 0)
                    && final(self)@ == old(self)@.listed(
                    handle,
                    StreamView { ready: true, ..old(self)@.open[handle].stream },
                ),
            },
    {
        let ghost before = self@;
        let mut result: Result<(), i32> = Ok(());
        if let Some(mut data) = self.handles.remove(&handle) {
            result = data.stream.finish(error);
            self.handles.insert(handle, data);
            assert(data@.stream =~= StreamView {
                ready: data@.stream.ready,
                ..before.open[handle].stream
            });
            assert(self@.open =~= before.listed(
                handle,
                StreamView { ready: data@.stream.ready, ..before.open[handle].stream },
            ).open);
            proof {
                if result is Err {
                    assert(self@.open =~= before.open);
                }
            }
        }
        result
    }

    /// The next entry of a listing.
    pub fn deliver(&self, handle: u64, offset: u64, last: Delivery) -> (r: Option<DirEntry<'_>>)
        requires
            self@.open.contains_key(handle),
        ensures
            entry_view(r) == self@.open[handle].stream.delivery(offset, last),
    {
        match self.handles.get(&handle) {
            Some(data) => data.stream.deliver(offset, last),
            None => None,
        }
    }
}

/// The entries that a listing has after entries were read one after the other.
pub open spec fn read_all(entries: Seq<CachedView>, read: Seq<CachedDirEntry>) -> Seq<CachedView>
    decreases read.len(),
{
    if read.len() == 0 {
        entries
    } else {
        fill_entries(
            Fill::Read,
            FillReply::Entry(read.last()),
            read_all(entries, read.drop_last()),
        )
    }
}

/// A listing keeps every entry that was read, in order and as it was read, but for
/// the two that name the directory itself and its parent.
pub proof fn listings_keep_what_was_read(entries: Seq<CachedView>, read: Seq<CachedDirEntry>)
    ensures
        read_all(entries, read) == entries + read.map_values(
            |e: CachedDirEntry| CachedView { ino: e.ino, name: e.name@, type_: e.type_ },
        ).filter(
            |e: CachedView|
                !(e.name.len() == 1 && e.name[0] == 46) && !(e.name.len() == 2 && e.name[0] == 46
                    && e.name[1] == 46),
        ),
    decreases read.len(),
{
    reveal(Seq::filter);
    let shown = |e: CachedDirEntry| CachedView { ino: e.ino, name: e.name@, type_: e.type_ };
    let kept = |e: CachedView|
        !(e.name.len() == 1 && e.name[0] == 46) && !(e.name.len() == 2 && e.name[0] == 46
            && e.name[1] == 46);
    if read.len() == 0 {
        assert(entries + read.map_values(shown).filter(kept) =~= entries);
    } else {
        listings_keep_what_was_read(entries, read.drop_last());
        let last = read.last();
        let before = read.drop_last().map_values(shown);
        assert(read.map_values(shown).drop_last() =~= before);
        assert(read.map_values(shown).last() == last@);
        let (one, two) = (seq![0x2eu8], seq![0x2eu8, 0x2eu8]);
        assert(one[0] == 46 && two[0] == 46 && two[1] == 46);
        if last.name@.len() == 1 && last.name@[0] == 46 {
            assert(last.name@ =~= one);
        }
        if last.name@.len() == 2 && last.name@[0] == 46 && last.name@[1] == 46 {
            assert(last.name@ =~= two);
        }
        assert(read_all(entries, read) =~= entries + read.map_values(shown).filter(kept));
    }
}

/// A directory is read through a stream on a duplicate of its descriptor, up to
/// its end, and the stream is closed whatever came; the duplicate is where no
/// stream took it. What failed first is what the listing ends with.
pub proof fn listings_close_what_they_opened(
    fd: i32,
    error: i32,
    failed: HostError,
    entry: CachedDirEntry,
    reply: FillReply,
)
    ensures
        fill_next(Fill::Dup, FillReply::Fd(fd)) == (Fill::Open { fd }),
        fill_next(Fill::Dup, FillReply::Error(failed)) == (Fill::Finished {
            error: Some(failed.linux),
        }),
        fill_next(Fill::Open { fd }, FillReply::Done) == Fill::Read,
        fill_next(Fill::Open { fd }, FillReply::Error(failed)) == (Fill::Discard {
            fd,
            error: failed.linux,
        }),
        fill_next(Fill::Discard { fd, error }, reply) == (Fill::Finished { error: Some(error) }),
        fill_next(Fill::Read, FillReply::Entry(entry)) == Fill::Read,
        fill_next(Fill::Read, FillReply::End) == (Fill::Close { error: None }),
        fill_next(Fill::Read, FillReply::Error(failed)) == (Fill::Close {
            error: Some(failed.linux),
        }),
        fill_next(Fill::Close { error: Some(error) }, reply) == (Fill::Finished {
            error: Some(error),
        }),
        fill_next(Fill::Close { error: None }, reply) == (Fill::Finished { error: None }),
{
}

/// The entry at an offset is handed out as it was read, with the offset behind it;
/// none is behind the last, and none after one that did not fit.
pub proof fn entries_are_handed_out_as_read(stream: StreamView, offset: u64, last: Delivery)
    ensures
        ({
            let next = stream.delivery(offset, last);
            let stopped = last == Delivery::Refused || last == Delivery::Added(0);
            &&& next is Some <==> !stopped && offset < stream.entries.len()
            &&& match next {
                Some(entry) => {
                    &&& entry.ino == stream.entries[offset as int].ino
                    &&& entry.name == stream.entries[offset as int].name
                    &&& entry.type_ == stream.entries[offset as int].type_
                    &&& offset < u64::MAX ==> entry.offset == offset + 1
                },
                None => true,
            }
        }),
{
}

/// A listing is of the open directory that the handle is of. It reads the
/// directory unless it has, and starts over at the first offset; for a guest
/// without room it does nothing.
pub proof fn listings_start_as_asked(
    handles: HandlesView,
    inode: u64,
    handle: u64,
    size: u32,
    offset: u64,
)
    ensures
        ({
            let start = list_start(handles, inode, handle, size, offset);
            let open = handles.open.contains_key(handle) && handles.open[handle].inode == inode;
            let fd = handles.open[handle].fd;
            let ready = handles.open[handle].stream.ready;
            &&& size == 0 ==> start == Ok::<ListStart, i32>(ListStart::Empty)
            &&& size > 0 && !open ==> start == Err::<ListStart, i32>(9)
            &&& size > 0 && open && !ready ==> start == Ok::<ListStart, i32>(ListStart::Fill { fd })
            &&& size > 0 && open && ready && offset == 0 ==> start == Ok::<ListStart, i32>(
                ListStart::Rewind { fd },
            )
            &&& size > 0 && open && ready && offset > 0 ==> start == Ok::<ListStart, i32>(
                ListStart::Ready,
            )
        }),
{
}

/// A file that is opened is found under the handle that is given out for it, and
/// is given back when the handle is released.
pub proof fn handles_are_given_out_and_back(
    table: &mut HandleTable,
    inode: u64,
    fd: i32,
    r: u64,
)
    requires
        call_ensures(HandleTable::open, (table, inode, fd), r),
    ensures
        r == old(table)@.next,
        final(table)@.open.contains_key(r),
        final(table)@.open[r].inode == inode,
        final(table)@.open[r].fd == fd,
        r < u64::MAX ==> final(table)@.next == r + 1,
        final(table)@.open == old(table)@.open.insert(r, final(table)@.open[r]),
{
}

/// The next entry of a listing is the one at the offset, as it was read.
pub proof fn deliver_hands_out(
    table: &HandleTable,
    handle: u64,
    offset: u64,
    r: Option<DirEntry<'_>>,
)
    requires
        call_ensures(HandleTable::deliver, (table, handle, offset, Delivery::First), r),
    ensures
        ({
            let entries = table@.open[handle].stream.entries;
            &&& r is Some <==> offset < entries.len()
            &&& offset < entries.len() ==> {
                &&& r->Some_0.ino == entries[offset as int].ino
                &&& r->Some_0.name@ == entries[offset as int].name
                &&& r->Some_0.type_ == entries[offset as int].type_
                &&& offset < u64::MAX ==> r->Some_0.offset == offset + 1
            }
        }),
{
    entries_are_handed_out_as_read(table@.open[handle].stream, offset, Delivery::First);
}

} // verus!
