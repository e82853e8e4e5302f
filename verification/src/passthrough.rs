//! A file system that passes the guest's requests through to a host directory.
//!
//! Host files are addressed by volume and number, so that an inode stays good
//! when its name changes; one that loses its last name is kept open instead.

pub mod answer_laws;
pub mod attribute_laws;
pub mod create;
pub mod creation_laws;
pub mod effects;
pub mod entry_laws;
pub mod file_laws;
pub mod io;
pub mod laws;
pub mod mapping;
pub mod removal_laws;
pub mod rename;
pub mod setattr;
pub mod view_laws;
pub mod xattr;
pub mod xattr_laws;

use std::collections::HashMap;
use vstd::prelude::*;
use crate::abi::{
    ATTR_SUBMOUNT, FS_HANDLE_KILLPRIV_V2, FS_SECURITY_CTX, FS_SUBMOUNTS, FS_WRITEBACK_CACHE,
    LINUX_EBADF, LINUX_EINVAL, O_CLOEXEC, O_NOFOLLOW, ROOT_ID, S_IFDIR, S_IFMT,
};
use crate::attributes::{fstat, istat, stating, viewing};
use crate::config::{Config, Duration};
use crate::handles::{HandleData, HandleTable, HandlesView, handle_views};
use crate::host::{
    and_finally, count_of, fd_of, finally, stat_of, Call, CallView, HostCall, Node, Reply, Slot,
    Step, StepView,
};
use crate::inodes::{
    all_forgotten, all_released, forgotten, inode_of, inserted, referenced, released, well_numbered,
    InodeData, InodeTable, NO_FD,
};
use crate::opening::{open_node, reopening};
use crate::stat::{access_granted, check_access, Context, Stat};

verus! {

broadcast use vstd::std_specs::hash::group_hash_axioms;

/// What the guest is told of a file that it looked up.
#[derive(Debug, Clone, Copy, PartialEq, Eq, Structural)]
pub struct Entry {
    pub inode: u64,
    pub generation: u64,
    pub attr: Stat,
    pub attr_flags: u32,
    pub attr_timeout: Duration,
    pub entry_timeout: Duration,
}

impl View for Entry {
    type V = Entry;

    open spec fn view(&self) -> Entry {
        *self
    }
}

impl View for Duration {
    type V = Duration;

    open spec fn view(&self) -> Duration {
        *self
    }
}

/// A served host directory.
pub struct PassthroughFs {
    cfg: Config,
    inodes: InodeTable,
    handles: HandleTable,
    map_windows: HashMap<u64, u64>,
    /// Whether the guest caches writes: it was configured, and the guest can.
    writeback: bool,
    announce_submounts: bool,
}

/// The contents of a `PassthroughFs`.
#[verifier::ext_equal]
pub struct FsView {
    pub cfg: Config,
    pub inodes: Map<u64, InodeData>,
    pub handles: HandlesView,
    /// The host address behind each mapped guest address.
    pub windows: Map<u64, u64>,
    pub writeback: bool,
    pub submounts: bool,
}

impl View for PassthroughFs {
    type V = FsView;

    closed spec fn view(&self) -> FsView {
        FsView {
            cfg: self.cfg,
            inodes: self.inodes@,
            handles: self.handles@,
            windows: self.map_windows@,
            writeback: self.writeback,
            submounts: self.announce_submounts,
        }
    }
}

impl FsView {
    /// A file system that was not yet initialised.
    pub open spec fn fresh(cfg: Config) -> FsView {
        FsView {
            cfg,
            inodes: Map::empty(),
            handles: HandlesView { open: Map::empty(), next: 1, wrapped: false },
            windows: Map::empty(),
            writeback: false,
            submounts: false,
        }
    }

    /// How an inode is addressed: by the descriptor that was kept when its last
    /// name went, where the call can take one, else by volume and number.
    pub open spec fn node_of(self, inode: u64, supports_fd: bool) -> Result<Node, i32> {
        if !self.inodes.contains_key(inode) {
            Err(LINUX_EBADF)
        } else {
            let data = self.inodes[inode];
            if supports_fd && data.unlinked_fd >= 0 {
                Ok(Node::Fd(data.unlinked_fd))
            } else {
                Ok(Node::Inode { dev: data.dev, ino: data.ino })
            }
        }
    }

    /// How a name in a directory is addressed.
    pub open spec fn child_of(self, parent: u64, slot: Slot) -> Result<Node, i32> {
        if !self.inodes.contains_key(parent) {
            Err(LINUX_EBADF)
        } else {
            let data = self.inodes[parent];
            Ok(Node::Child { dev: data.dev, ino: data.ino, slot })
        }
    }

    /// What the guest is told of a file. A directory on another volume than its
    /// parent is announced as a mount, if the guest understands that.
    pub open spec fn entry(self, parent: u64, inode: u64, st: Stat) -> Entry {
        Entry {
            inode,
            generation: 0,
            attr: st,
            attr_flags: if st.kind() == S_IFDIR && self.submounts && st.dev
                != self.inodes[parent].dev {
                ATTR_SUBMOUNT
            } else {
                0
            },
            attr_timeout: self.cfg.attr_timeout,
            entry_timeout: self.cfg.entry_timeout,
        }
    }

    /// The file system after the guest was told of a file.
    pub open spec fn with_entry(self, entry: Entry) -> FsView {
        FsView { inodes: registered(self.inodes, entry.inode, entry.attr), ..self }
    }

    /// The file system after a lookup came to `step`.
    pub open spec fn after_lookup(self, step: StepView<Entry>) -> FsView {
        match step {
            StepView::Done(entry, _) => self.with_entry(entry),
            _ => self,
        }
    }
}

/// The inodes after the guest was told of a file under number `inode`: one more
/// reference, or a new inode.
pub open spec fn registered(m: Map<u64, InodeData>, inode: u64, st: Stat) -> Map<u64, InodeData> {
    match inode_of(m, st.ino, st.dev) {
        Some(i) => referenced(m, i),
        None => inserted(
            m,
            InodeData { inode, ino: st.ino, dev: st.dev, refcount: 1, unlinked_fd: NO_FD },
        ),
    }
}

/// Telling the guest of a file in a directory: under the number that it knows,
/// or a new one.
pub open spec fn entering(fs: FsView, parent: u64, st: Stat, log: Seq<Reply>, pos: int) -> StepView<
    Entry,
> {
    if !fs.inodes.contains_key(parent) {
        StepView::Fail(LINUX_EBADF, pos)
    } else {
        match inode_of(fs.inodes, st.ino, st.dev) {
            Some(inode) => StepView::Done(fs.entry(parent, inode, st), pos),
            None => if pos >= log.len() {
                StepView::Call(CallView::Do(Call::AllocateInode))
            } else {
                match count_of(log[pos]) {
                    Ok(inode) => StepView::Done(fs.entry(parent, inode, st), pos + 1),
                    Err(error) => StepView::Fail(error.linux, pos + 1),
                }
            },
        }
    }
}

/// Looking a name up in a directory.
pub open spec fn looking_up(
    fs: FsView,
    ctx: Context,
    parent: u64,
    slot: Slot,
    log: Seq<Reply>,
    pos: int,
) -> StepView<Entry> {
    match fs.child_of(parent, slot) {
        Err(error) => StepView::Fail(error, pos),
        Ok(at) => match viewing(ctx, fs.cfg.semantics, at, log, pos) {
            StepView::Call(call) => StepView::Call(call),
            StepView::Fail(error, next) => StepView::Fail(error, next),
            StepView::Done(st, next) => entering(fs, parent, st, log, next),
        },
    }
}

/// Telling the guest of an open file in a directory: of the file itself, whatever
/// its name leads to.
pub open spec fn entering_file(
    fs: FsView,
    ctx: Context,
    parent: u64,
    fd: i32,
    log: Seq<Reply>,
    pos: int,
) -> StepView<Entry> {
    match stating(ctx, fs.cfg.semantics, Node::Fd(fd), log, pos) {
        StepView::Call(call) => StepView::Call(call),
        StepView::Fail(error, next) => StepView::Fail(error, next),
        StepView::Done(st, next) => entering(fs, parent, st, log, next),
    }
}

/// The guest's view of an inode, and how long it stays good.
pub open spec fn getting(
    fs: FsView,
    ctx: Context,
    inode: u64,
    log: Seq<Reply>,
    pos: int,
) -> StepView<(Stat, Duration)> {
    match fs.node_of(inode, true) {
        Err(error) => StepView::Fail(error, pos),
        Ok(at) => match viewing(ctx, fs.cfg.semantics, at, log, pos) {
            StepView::Call(call) => StepView::Call(call),
            StepView::Fail(error, next) => StepView::Fail(error, next),
            StepView::Done(st, next) => StepView::Done((st, fs.cfg.attr_timeout), next),
        },
    }
}

/// Checking the rights of the guest on an inode.
pub open spec fn checking(
    fs: FsView,
    ctx: Context,
    inode: u64,
    mask: u32,
    log: Seq<Reply>,
    pos: int,
) -> StepView<()> {
    match getting(fs, ctx, inode, log, pos) {
        StepView::Call(call) => StepView::Call(call),
        StepView::Fail(error, next) => StepView::Fail(error, next),
        StepView::Done((st, _), next) => if access_granted(ctx, st, mask) {
            StepView::Done((), next)
        } else {
            StepView::Fail(crate::abi::LINUX_EACCES, next)
        },
    }
}

/// Opening an inode.
pub open spec fn opening_inode(
    fs: FsView,
    inode: u64,
    flags: u32,
    log: Seq<Reply>,
    pos: int,
) -> StepView<i32> {
    match fs.node_of(inode, true) {
        Err(error) => StepView::Fail(error, pos),
        Ok(at) => reopening(at, fs.writeback, flags, log, pos),
    }
}

/// How the served directory is opened.
pub const ROOT_OPEN_FLAGS: u32 = O_NOFOLLOW | O_CLOEXEC;

/// Making a file system: the guest's principal must be distinct, and the
/// directory must be there.
pub open spec fn constructing(cfg: Config, log: Seq<Reply>) -> StepView<FsView> {
    if !cfg.semantics.identity_is_distinct() {
        StepView::Fail(LINUX_EINVAL, 0)
    } else if log.len() == 0 {
        StepView::Call(CallView::Do(Call::OpenRoot { flags: ROOT_OPEN_FLAGS }))
    } else {
        match fd_of(log[0]) {
            Err(error) => StepView::Fail(error.linux, 1),
            Ok(fd) => finally(StepView::Done(FsView::fresh(cfg), 1), Call::Close { fd }, log),
        }
    }
}

/// The features that are offered to a guest with the features `capable`.
pub open spec fn negotiated(cfg: Config, capable: u64) -> u64 {
    let opts = 0u64;
    let opts = if cfg.writeback && capable & FS_WRITEBACK_CACHE == FS_WRITEBACK_CACHE {
        opts | FS_WRITEBACK_CACHE
    } else {
        opts
    };
    let opts = if capable & FS_SUBMOUNTS == FS_SUBMOUNTS {
        opts | FS_SUBMOUNTS
    } else {
        opts
    };
    let opts = if !cfg.semantics.sandboxed() && capable & FS_SECURITY_CTX == FS_SECURITY_CTX {
        opts | FS_SECURITY_CTX
    } else {
        opts
    };
    if cfg.semantics.sandboxed() && capable & FS_HANDLE_KILLPRIV_V2 == FS_HANDLE_KILLPRIV_V2 {
        opts | FS_HANDLE_KILLPRIV_V2
    } else {
        opts
    }
}

/// Only features that the guest has are offered; a sandbox never offers security
/// contexts, and only a sandbox takes the removal of privileges upon itself.
pub proof fn negotiation_is_sound(cfg: Config, capable: u64)
    ensures
        negotiated(cfg, capable) & !capable == 0,
        cfg.semantics.sandboxed() ==> negotiated(cfg, capable) & FS_SECURITY_CTX == 0,
        !cfg.semantics.sandboxed() ==> negotiated(cfg, capable) & FS_HANDLE_KILLPRIV_V2 == 0,
        !cfg.writeback ==> negotiated(cfg, capable) & FS_WRITEBACK_CACHE == 0,
{
    let writeback = cfg.writeback;
    let sandboxed = cfg.semantics.sandboxed();
    assert({
        let a: u64 = if writeback && capable & 0x1_0000 == 0x1_0000 {
            0u64 | 0x1_0000
        } else {
            0u64
        };
        let b: u64 = if capable & 0x800_0000 == 0x800_0000 { a | 0x800_0000 } else { a };
        let c: u64 = if !sandboxed && capable & 0x1_0000_0000 == 0x1_0000_0000 {
            b | 0x1_0000_0000
        } else {
            b
        };
        let d: u64 = if sandboxed && capable & 0x1000_0000 == 0x1000_0000 { c | 0x1000_0000 } else {
            c
        };
        &&& d & !capable == 0
        &&& (sandboxed ==> d & 0x1_0000_0000 == 0)
        &&& (!sandboxed ==> d & 0x1000_0000 == 0)
        &&& (!writeback ==> d & 0x1_0000 == 0)
    }) by (bit_vector);
}

/// The host attributes of the open root directory, with creation modes let
/// through from here on.
pub open spec fn inspecting_root(fd: i32, log: Seq<Reply>, pos: int) -> StepView<Stat> {
    if pos >= log.len() {
        StepView::Call(CallView::Do(Call::Stat { at: Node::Fd(fd) }))
    } else {
        match stat_of(log[pos]) {
            Err(error) => StepView::Fail(error.linux, pos + 1),
            Ok(st) => finally(StepView::Done(st, pos + 1), Call::ClearUmask, log),
        }
    }
}

/// Learning which host file the root directory is.
pub open spec fn finding_root(log: Seq<Reply>) -> StepView<Stat> {
    if log.len() == 0 {
        StepView::Call(CallView::Do(Call::OpenRoot { flags: ROOT_OPEN_FLAGS }))
    } else {
        match fd_of(log[0]) {
            Err(error) => StepView::Fail(error.raw, 1),
            Ok(fd) => finally(inspecting_root(fd, log, 1), Call::Close { fd }, log),
        }
    }
}

/// The file system after initialisation: the root is known, with the two
/// references that the protocol gives it.
pub open spec fn initialised(fs: FsView, capable: u64, st: Stat) -> FsView {
    FsView {
        inodes: inserted(
            fs.inodes,
            InodeData {
                inode: ROOT_ID,
                ino: st.ino,
                dev: st.dev,
                refcount: 2,
                unlinked_fd: NO_FD,
            },
        ),
        writeback: fs.writeback || (fs.cfg.writeback && capable & FS_WRITEBACK_CACHE
            == FS_WRITEBACK_CACHE),
        submounts: fs.submounts || capable & FS_SUBMOUNTS == FS_SUBMOUNTS,
        ..fs
    }
}

impl PassthroughFs {
    pub closed spec fn wf(&self) -> bool {
        self.inodes.wf() && self.handles@.numbered()
    }

    /// At any time no host file has two inodes, and no handle is given out while it
    /// is in use, until all were given out.
    pub proof fn tables_are_consistent(&self)
        requires
            self.wf(),
        ensures
            well_numbered(self@.inodes),
            self@.handles.numbered(),
            !self@.handles.wrapped ==> !self@.handles.open.contains_key(self@.handles.next),
    {
    }

    /// Makes a file system of a host directory.
    pub fn new(cfg: Config, log: &Vec<Reply>) -> (r: Step<PassthroughFs>)
        requires
            cfg.semantics.identity_is_distinct() ==> cfg.root_is_path(),
        ensures
            r@ == constructing(cfg, log@),
            match r {
                Step::Done(fs, _) => fs.wf(),
                _ => true,
            },
    {
        if !cfg.semantics.has_distinct_identity() {
            return Step::Fail(LINUX_EINVAL, 0);
        }
        if log.len() == 0 {
            return Step::Call(HostCall::Do(Call::OpenRoot { flags: ROOT_OPEN_FLAGS }));
        }
        match log[0].fd() {
            Err(error) => Step::Fail(error.linux, 1),
            Ok(fd) => {
                if log.len() == 1 {
                    return Step::Call(HostCall::Do(Call::Close { fd }));
                }
                let fs = PassthroughFs {
                    cfg,
                    inodes: InodeTable::new(),
                    handles: HandleTable::new(),
                    map_windows: HashMap::new(),
                    writeback: false,
                    announce_submounts: false,
                };
                assert(fs@ =~= FsView::fresh(cfg));
                Step::Done(fs, 2)
            },
        }
    }

    /// Starts serving: the root becomes known. The result is the features that
    /// are offered.
    pub fn init(&mut self, capable: u64, log: &Vec<Reply>) -> (r: Step<u64>)
        requires
            old(self).wf(),
        ensures
            final(self).wf(),
            match finding_root(log@) {
                StepView::Call(call) => {
                    &&& r@ == StepView::<u64>::Call(call)
                    &&& final(self)@ == old(self)@
                },
                StepView::Fail(error, pos) => {
                    &&& r@ == StepView::<u64>::Fail(error, pos)
                    &&& final(self)@ == old(self)@
                },
                StepView::Done(st, pos) => {
                    &&& r@ == StepView::<u64>::Done(negotiated(old(self)@.cfg, capable), pos)
                    &&& final(self)@ == initialised(old(self)@, capable, st)
                },
            },
    {
        let (st, pos) = match Self::find_root(log) {
            Step::Call(call) => return Step::Call(call),
            Step::Fail(error, pos) => return Step::Fail(error, pos),
            Step::Done(st, pos) => (st, pos),
        };
        self.inodes.insert(
            InodeData { inode: ROOT_ID, ino: st.ino, dev: st.dev, refcount: 2, unlinked_fd: NO_FD },
        );
        let mut opts: u64 = 0;
        if self.cfg.writeback && capable & FS_WRITEBACK_CACHE == FS_WRITEBACK_CACHE {
            opts = opts | FS_WRITEBACK_CACHE;
            self.writeback = true;
        }
        if capable & FS_SUBMOUNTS == FS_SUBMOUNTS {
            opts = opts | FS_SUBMOUNTS;
            self.announce_submounts = true;
        }
        let sandbox: bool = self.cfg.semantics.is_sandbox();
        if !sandbox && capable & FS_SECURITY_CTX == FS_SECURITY_CTX {
            opts = opts | FS_SECURITY_CTX;
        }
        if sandbox && capable & FS_HANDLE_KILLPRIV_V2 == FS_HANDLE_KILLPRIV_V2 {
            opts = opts | FS_HANDLE_KILLPRIV_V2;
        }
        Step::Done(opts, pos)
    }

    fn find_root(log: &Vec<Reply>) -> (r: Step<Stat>)
        ensures
            r@ == finding_root(log@),
    {
        if log.len() == 0 {
            return Step::Call(HostCall::Do(Call::OpenRoot { flags: ROOT_OPEN_FLAGS }));
        }
        let fd: i32 = match log[0].fd() {
            Err(error) => return Step::Fail(error.raw, 1),
            Ok(fd) => fd,
        };
        let inspected = if log.len() == 1 {
            Step::Call(HostCall::Do(Call::Stat { at: Node::Fd(fd) }))
        } else {
            match log[1].stat() {
                Err(error) => Step::Fail(error.linux, 2),
                Ok(st) => and_finally(Step::Done(st, 2), Call::ClearUmask, log),
            }
        };
        and_finally(inspected, Call::Close { fd }, log)
    }

    /// Stops serving. The result is the files that were open, whose descriptors
    /// are to be closed.
    pub fn destroy(&mut self) -> (r: HashMap<u64, HandleData>)
        requires
            old(self).wf(),
        ensures
            final(self).wf(),
            handle_views(r@) == old(self)@.handles.open,
            final(self)@ == (FsView {
                inodes: Map::empty(),
                handles: HandlesView { open: Map::empty(), ..old(self)@.handles },
                ..old(self)@
            }),
    {
        let open = self.handles.clear();
        self.inodes.clear();
        open
    }

    pub fn config(&self) -> (r: &Config)
        ensures
            *r == self@.cfg,
    {
        &self.cfg
    }

    /// How an inode is addressed.
    pub fn inode_to_handle(&self, inode: u64, supports_fd: bool) -> (r: Result<Node, i32>)
        ensures
            r == self@.node_of(inode, supports_fd),
    {
        match self.inodes.get(inode) {
            None => Err(LINUX_EBADF),
            Some(data) => if supports_fd && data.unlinked_fd >= 0 {
                Ok(Node::Fd(data.unlinked_fd))
            } else {
                Ok(Node::Inode { dev: data.dev, ino: data.ino })
            },
        }
    }

    /// How a name in a directory is addressed.
    pub fn name_to_path(&self, parent: u64, slot: Slot) -> (r: Result<Node, i32>)
        ensures
            r == self@.child_of(parent, slot),
    {
        match self.inodes.get(parent) {
            None => Err(LINUX_EBADF),
            Some(data) => Ok(Node::Child { dev: data.dev, ino: data.ino, slot }),
        }
    }

    /// Opens an inode.
    pub fn open_inode(&self, inode: u64, flags: u32, log: &Vec<Reply>, pos: usize) -> (r: Step<i32>)
        ensures
            r@ == opening_inode(self@, inode, flags, log@, pos as int),
    {
        match self.inode_to_handle(inode, true) {
            Err(error) => Step::Fail(error, pos),
            Ok(at) => open_node(at, self.writeback, flags, log, pos),
        }
    }

    /// What the guest is told of a file in a directory.
    pub fn entry_from_stat(&self, parent: u64, st: Stat, log: &Vec<Reply>, pos: usize) -> (r: Step<
        Entry,
    >)
        requires
            self.wf(),
        ensures
            r@ == entering(self@, parent, st, log@, pos as int),
    {
        let data = match self.inodes.get(parent) {
            None => return Step::Fail(LINUX_EBADF, pos),
            Some(data) => data,
        };
        let mut attr_flags: u32 = 0;
        if st.mode as u32 & S_IFMT == S_IFDIR && self.announce_submounts && st.dev != data.dev {
            attr_flags = ATTR_SUBMOUNT;
        }
        let (inode, next) = match self.inodes.find(st.ino, st.dev) {
            Some(inode) => (inode, pos),
            None => {
                if pos >= log.len() {
                    return Step::Call(HostCall::Do(Call::AllocateInode));
                }
                match log[pos].count() {
                    Err(error) => return Step::Fail(error.linux, pos + 1),
                    Ok(inode) => (inode, pos + 1),
                }
            },
        };
        Step::Done(
            Entry {
                inode,
                generation: 0,
                attr: st,
                attr_flags,
                attr_timeout: self.cfg.attr_timeout,
                entry_timeout: self.cfg.entry_timeout,
            },
            next,
        )
    }

    /// What the guest is told of an open file in a directory.
    pub fn file_entry(
        &self,
        ctx: Context,
        parent: u64,
        fd: i32,
        log: &Vec<Reply>,
        pos: usize,
    ) -> (r: Step<Entry>)
        requires
            self.wf(),
        ensures
            r@ == entering_file(self@, ctx, parent, fd, log@, pos as int),
    {
        match fstat(ctx, self.cfg.semantics, Node::Fd(fd), log, pos) {
            Step::Call(call) => Step::Call(call),
            Step::Fail(error, next) => Step::Fail(error, next),
            Step::Done(st, next) => self.entry_from_stat(parent, st, log, next),
        }
    }

    /// Tells the guest of an open file in a directory.
    pub fn entry_from_file(&mut self, ctx: Context, parent: u64, fd: i32, log: &Vec<Reply>) -> (r:
        Step<Entry>)
        requires
            old(self).wf(),
        ensures
            final(self).wf(),
            r@ == entering_file(old(self)@, ctx, parent, fd, log@, 0),
            final(self)@ == old(self)@.after_lookup(r@),
    {
        let step = self.file_entry(ctx, parent, fd, log, 0);
        self.answer_entry(step)
    }

    /// What the guest is told of a name in a directory.
    pub fn find_entry(
        &self,
        ctx: Context,
        parent: u64,
        slot: Slot,
        log: &Vec<Reply>,
        pos: usize,
    ) -> (r: Step<Entry>)
        requires
            self.wf(),
        ensures
            r@ == looking_up(self@, ctx, parent, slot, log@, pos as int),
    {
        let at = match self.name_to_path(parent, slot) {
            Err(error) => return Step::Fail(error, pos),
            Ok(at) => at,
        };
        match istat(ctx, self.cfg.semantics, at, log, pos) {
            Step::Call(call) => Step::Call(call),
            Step::Fail(error, next) => Step::Fail(error, next),
            Step::Done(st, next) => self.entry_from_stat(parent, st, log, next),
        }
    }

    /// Counts the reference that the guest gets with an entry.
    fn register(&mut self, entry: &Entry)
        requires
            old(self).wf(),
        ensures
            final(self).wf(),
            final(self)@ == old(self)@.with_entry(*entry),
    {
        let (ino, dev) = (entry.attr.ino, entry.attr.dev);
        match self.inodes.find(ino, dev) {
            Some(inode) => self.inodes.reference(inode),
            None => self.inodes.insert(
                InodeData { inode: entry.inode, ino, dev, refcount: 1, unlinked_fd: NO_FD },
            ),
        }
    }

    /// Answers a request whose answer is an entry.
    fn answer_entry(&mut self, step: Step<Entry>) -> (r: Step<Entry>)
        requires
            old(self).wf(),
        ensures
            final(self).wf(),
            r == step,
            final(self)@ == old(self)@.after_lookup(step@),
    {
        if let Step::Done(entry, _) = &step {
            self.register(entry);
        }
        step
    }

    /// Looks the request's name up in a directory.
    pub fn lookup(&mut self, ctx: Context, parent: u64, log: &Vec<Reply>) -> (r: Step<Entry>)
        requires
            old(self).wf(),
        ensures
            final(self).wf(),
            r@ == looking_up(old(self)@, ctx, parent, Slot::Name, log@, 0),
            final(self)@ == old(self)@.after_lookup(r@),
    {
        let step = self.find_entry(ctx, parent, Slot::Name, log, 0);
        self.answer_entry(step)
    }

    /// Drops references to an inode. The result is a descriptor to close.
    pub fn forget(&mut self, inode: u64, count: u64) -> (r: Option<i32>)
        requires
            old(self).wf(),
        ensures
            final(self).wf(),
            r == released(old(self)@.inodes, inode, count),
            final(self)@ == (FsView {
                inodes: forgotten(old(self)@.inodes, inode, count),
                ..old(self)@
            }),
    {
        self.inodes.forget_one(inode, count)
    }

    /// Drops references to several inodes. The result is the descriptors to
    /// close.
    pub fn batch_forget(&mut self, requests: &Vec<(u64, u64)>) -> (r: Vec<i32>)
        requires
            old(self).wf(),
        ensures
            final(self).wf(),
            r@ == all_released(old(self)@.inodes, requests@),
            final(self)@ == (FsView {
                inodes: all_forgotten(old(self)@.inodes, requests@),
                ..old(self)@
            }),
    {
        self.inodes.forget_all(requests)
    }

    /// The guest's view of an inode, and how long it stays good.
    pub fn do_getattr(&self, ctx: Context, inode: u64, log: &Vec<Reply>, pos: usize) -> (r: Step<
        (Stat, Duration),
    >)
        ensures
            r@ == getting(self@, ctx, inode, log@, pos as int),
    {
        let at = match self.inode_to_handle(inode, true) {
            Err(error) => return Step::Fail(error, pos),
            Ok(at) => at,
        };
        match istat(ctx, self.cfg.semantics, at, log, pos) {
            Step::Call(call) => Step::Call(call),
            Step::Fail(error, next) => Step::Fail(error, next),
            Step::Done(st, next) => Step::Done((st, self.cfg.attr_timeout), next),
        }
    }

    pub fn getattr(&self, ctx: Context, inode: u64, log: &Vec<Reply>) -> (r: Step<(Stat, Duration)>)
        ensures
            r@ == getting(self@, ctx, inode, log@, 0),
    {
        self.do_getattr(ctx, inode, log, 0)
    }

    /// Checks the rights of the guest on an inode.
    pub fn access(&self, ctx: Context, inode: u64, mask: u32, log: &Vec<Reply>) -> (r: Step<()>)
        ensures
            r@ == checking(self@, ctx, inode, mask, log@, 0),
    {
        match self.do_getattr(ctx, inode, log, 0) {
            Step::Call(call) => Step::Call(call),
            Step::Fail(error, next) => Step::Fail(error, next),
            Step::Done((st, _), next) => match check_access(ctx, st, mask) {
                Ok(_) => Step::Done((), next),
                Err(error) => Step::Fail(error, next),
            },
        }
    }
}

} // verus!
