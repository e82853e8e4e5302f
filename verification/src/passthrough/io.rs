//! Opening, listing, reading, writing and allocating files.

use vstd::prelude::*;
use crate::abi::{
    LINUX_EINVAL, LINUX_EOPNOTSUPP, LINUX_FALLOC_FL_ALLOCATE_RANGE, LINUX_FALLOC_FL_KEEP_SIZE,
    LINUX_FALLOC_FL_PUNCH_HOLE, O_TRUNC, SEEK_END,
};
use crate::attributes::{shed_privileges, shedding, tolerate, tolerated};
use crate::bytes::copy_bytes;
use crate::config::PermissionSemantics;
use crate::handles::{
    entry_view, fill_entries, fill_next, list_start, Delivery, DirEntry, Fill, FillReply, ListStart,
    StreamView,
};
use crate::host::{
    bytes_of, close_on_failure, count_of, fd_of, or_close, run_single, single, stat_of, Call,
    CallView, HostCall, Node, Reply, Step, StepView,
};
use crate::opening::{host_flags, open_options, options_for, parse_open_flags};
use crate::sandbox::{content_change, prepare_sandbox_content_mutation, updating};
use crate::stat::{Context, Stat};
use super::create::{empty_file, emptying};
use super::{opening_inode, FsView, PassthroughFs};

verus! {

/// The flags of the host's open for the host's flags: a sandbox cuts by itself.
pub open spec fn uncut(semantics: PermissionSemantics, flags: u32) -> u32 {
    if semantics.sandboxed() && flags & O_TRUNC != 0 {
        flags & !O_TRUNC
    } else {
        flags
    }
}

/// What a request to cut a file that was just opened comes to. A sandbox takes
/// its privileges away, then its contents; else the host cut it, and its
/// privileges go if that was asked and is possible.
pub open spec fn cutting_opened(
    semantics: PermissionSemantics,
    ctx: Context,
    kill_priv: bool,
    flags: u32,
    fd: i32,
    log: Seq<Reply>,
    pos: int,
) -> StepView<()> {
    if flags & O_TRUNC == 0 {
        StepView::Done((), pos)
    } else if semantics.sandboxed() {
        emptying(semantics, kill_priv, fd, log, pos)
    } else if kill_priv {
        tolerated(shedding(ctx, semantics, Node::Fd(fd), None, log, pos))
    } else {
        StepView::Done((), pos)
    }
}

/// Opening an inode for the guest. The outcome is its descriptor, which is
/// closed again on any failure.
pub open spec fn opening_file(
    fs: FsView,
    ctx: Context,
    inode: u64,
    kill_priv: bool,
    flags: u32,
    log: Seq<Reply>,
) -> StepView<i32> {
    let semantics = fs.cfg.semantics;
    let parsed = host_flags(flags);
    match opening_inode(fs, inode, uncut(semantics, parsed), log, 0) {
        StepView::Call(call) => StepView::Call(call),
        StepView::Fail(error, next) => StepView::Fail(error, next),
        StepView::Done(fd, next) => match or_close(
            cutting_opened(semantics, ctx, kill_priv, parsed, fd, log, next),
            fd,
            log,
        ) {
            StepView::Call(call) => StepView::Call(call),
            StepView::Fail(error, next) => StepView::Fail(error, next),
            StepView::Done(_, next) => StepView::Done(fd, next),
        },
    }
}

/// Moving the guest's buffer into an open file, with the error number of the
/// host.
pub open spec fn storing_contents(
    fd: i32,
    size: u32,
    offset: u64,
    log: Seq<Reply>,
    pos: int,
) -> StepView<u64> {
    if pos >= log.len() {
        StepView::Call(CallView::Do(Call::Write { fd, size, offset }))
    } else {
        match count_of(log[pos]) {
            Err(error) => StepView::Fail(error.raw, pos + 1),
            Ok(count) => StepView::Done(count, pos + 1),
        }
    }
}

/// Writing to an open file. In a sandbox its capability, and where asked its
/// privileged mode bits, go before the contents change, or the contents do not
/// change; else its privileges go after a write that asked for it, if that is
/// possible.
pub open spec fn writing_file(
    fs: FsView,
    ctx: Context,
    fd: i32,
    size: u32,
    offset: u64,
    kill_priv: bool,
    log: Seq<Reply>,
) -> StepView<u64> {
    match fs.cfg.semantics {
        PermissionSemantics::Sandbox(config) => match updating(
            config,
            Node::Fd(fd),
            None,
            content_change(kill_priv),
            log,
            0,
        ) {
            StepView::Call(call) => StepView::Call(call),
            StepView::Fail(error, next) => StepView::Fail(error, next),
            StepView::Done(_, next) => storing_contents(fd, size, offset, log, next),
        },
        semantics => match storing_contents(fd, size, offset, log, 0) {
            StepView::Call(call) => StepView::Call(call),
            StepView::Fail(error, next) => StepView::Fail(error, next),
            StepView::Done(count, next) => if kill_priv {
                match tolerated(shedding(ctx, semantics, Node::Fd(fd), None, log, next)) {
                    StepView::Call(call) => StepView::Call(call),
                    StepView::Fail(error, next) => StepView::Fail(error, next),
                    StepView::Done(_, next) => StepView::Done(count, next),
                }
            } else {
                StepView::Done(count, next)
            },
        },
    }
}

/// Reading from an open file into the guest's buffer, with the error number of
/// the host.
pub open spec fn reading_file(fd: i32, size: u32, offset: u64, log: Seq<Reply>) -> StepView<u64> {
    if log.len() == 0 {
        StepView::Call(CallView::Do(Call::Read { fd, size, offset }))
    } else {
        match count_of(log[0]) {
            Err(error) => StepView::Fail(error.raw, 1),
            Ok(count) => StepView::Done(count, 1),
        }
    }
}

/// A file offset as the host takes it: the same bits, with a sign.
pub open spec fn signed(n: u64) -> i64 {
    if n <= i64::MAX {
        n as i64
    } else {
        (n - 0x1_0000_0000_0000_0000) as i64
    }
}

fn to_signed(n: u64) -> (r: i64)
    ensures
        r == signed(n),
{
    if n <= i64::MAX as u64 {
        n as i64
    } else {
        -((u64::MAX - n) as i64) - 1
    }
}

/// The modes of allocation that are served.
pub const FALLOC_SUPPORTED: u32 = LINUX_FALLOC_FL_ALLOCATE_RANGE | LINUX_FALLOC_FL_KEEP_SIZE
    | LINUX_FALLOC_FL_PUNCH_HOLE;

/// The mode asks for a file to be extended.
pub open spec fn extends(mode: u32) -> bool {
    mode & !FALLOC_SUPPORTED == 0 && mode & LINUX_FALLOC_FL_PUNCH_HOLE == 0
}

/// The size of a file's blocks, and what they lack up to `end`, can be counted.
pub open spec fn countable_blocks(st: Stat, end: i64) -> bool {
    &&& i64::MIN <= st.blocks * 512 <= i64::MAX
    &&& end - st.blocks * 512 <= i64::MAX
}

/// Extending a file to `end`: its blocks, where its size stays, or its size. A
/// file that is as long is left alone.
pub open spec fn extending(
    fd: i32,
    keep_size: bool,
    end: i64,
    st: Stat,
    log: Seq<Reply>,
    pos: int,
) -> StepView<()> {
    if keep_size {
        if st.blocks * 512 >= end {
            StepView::Done((), pos)
        } else {
            single(Call::Preallocate { fd, length: (end - st.blocks * 512) as i64 }, log, pos)
        }
    } else if st.size >= end {
        StepView::Done((), pos)
    } else {
        single(Call::Truncate { fd, size: end }, log, pos)
    }
}

/// Allocating, or giving back, a part of an open file. A hole leaves the size as
/// it is, and the guest must say so.
pub open spec fn allocating(
    fd: i32,
    mode: u32,
    offset: u64,
    length: u64,
    log: Seq<Reply>,
) -> StepView<()> {
    let keep_size = mode & LINUX_FALLOC_FL_KEEP_SIZE != 0;
    if mode & !FALLOC_SUPPORTED != 0 {
        StepView::Fail(LINUX_EOPNOTSUPP, 0)
    } else if mode & LINUX_FALLOC_FL_PUNCH_HOLE == 0 {
        if log.len() == 0 {
            StepView::Call(CallView::Do(Call::Stat { at: Node::Fd(fd) }))
        } else {
            match stat_of(log[0]) {
                Err(error) => StepView::Fail(error.linux, 1),
                Ok(st) => extending(fd, keep_size, signed((offset + length) as u64), st, log, 1),
            }
        }
    } else if !keep_size {
        StepView::Fail(LINUX_EINVAL, 0)
    } else {
        single(Call::PunchHole { fd, offset: signed(offset), length: signed(length) }, log, 0)
    }
}

/// The guest's seeks that the host knows otherwise.
pub const SEEK_DATA: u32 = 3;

pub const SEEK_HOLE: u32 = 4;

/// Seeking in an open file: all of it counts as data, and its end as a hole.
pub open spec fn seeking(fd: i32, offset: u64, whence: u32, log: Seq<Reply>) -> StepView<u64> {
    if whence == SEEK_DATA {
        StepView::Done(offset, 0)
    } else if log.len() == 0 {
        StepView::Call(
            CallView::Do(
                Call::Seek {
                    fd,
                    offset: signed(offset),
                    whence: if whence == SEEK_HOLE {
                        SEEK_END
                    } else {
                        whence
                    },
                },
            ),
        )
    } else {
        match count_of(log[0]) {
            Err(error) => StepView::Fail(error.linux, 1),
            Ok(count) => StepView::Done(count, 1),
        }
    }
}

/// Flushing an open file: what closing one of its descriptors does.
pub open spec fn flushing(fd: i32, log: Seq<Reply>) -> StepView<()> {
    if log.len() == 0 {
        StepView::Call(CallView::Do(Call::Dup { fd }))
    } else {
        match fd_of(log[0]) {
            Err(error) => StepView::Fail(error.linux, 1),
            Ok(copy) => single(Call::Close { fd: copy }, log, 1),
        }
    }
}

/// Reading the target of a symbolic link.
pub open spec fn resolving_link(fs: FsView, inode: u64, log: Seq<Reply>) -> StepView<Seq<u8>> {
    match fs.node_of(inode, true) {
        Err(error) => StepView::Fail(error, 0),
        Ok(at) => if log.len() == 0 {
            StepView::Call(CallView::Do(Call::ReadLink { at }))
        } else {
            match bytes_of(log[0]) {
                Err(error) => StepView::Fail(error.linux, 1),
                Ok(target) => StepView::Done(target, 1),
            }
        },
    }
}

/// What an operation on an open file answers: the handle must be of the inode.
pub open spec fn on_handle<T>(
    fs: FsView,
    inode: u64,
    handle: u64,
    operation: spec_fn(i32) -> StepView<T>,
) -> StepView<T> {
    match fs.handles.fd_for(inode, handle) {
        Err(error) => StepView::Fail(error, 0),
        Ok(fd) => operation(fd),
    }
}

impl PassthroughFs {
    fn open_file(
        &self,
        ctx: Context,
        inode: u64,
        kill_priv: bool,
        flags: u32,
        log: &Vec<Reply>,
    ) -> (r: Step<i32>)
        ensures
            r@ == opening_file(self@, ctx, inode, kill_priv, flags, log@),
    {
        let semantics = self.cfg.semantics;
        let parsed: u32 = parse_open_flags(flags);
        let truncate: bool = parsed & O_TRUNC != 0;
        let sandbox: bool = semantics.is_sandbox();
        let open_flags: u32 = if sandbox && truncate {
            parsed & !O_TRUNC
        } else {
            parsed
        };
        let (fd, next) = match self.open_inode(inode, open_flags, log, 0) {
            Step::Call(call) => return Step::Call(call),
            Step::Fail(error, next) => return Step::Fail(error, next),
            Step::Done(fd, next) => (fd, next),
        };
        let cut = if !truncate {
            Step::Done((), next)
        } else if sandbox {
            empty_file(semantics, kill_priv, fd, log, next)
        } else if kill_priv {
            tolerate(shed_privileges(ctx, semantics, Node::Fd(fd), None, log, next))
        } else {
            Step::Done((), next)
        };
        match close_on_failure(cut, fd, log) {
            Step::Call(call) => Step::Call(call),
            Step::Fail(error, next) => Step::Fail(error, next),
            Step::Done(_, next) => Step::Done(fd, next),
        }
    }

    /// Opens an inode for the guest, as a file or as a directory. The result is its
    /// handle, and the options of the open file.
    fn open_as(
        &mut self,
        ctx: Context,
        inode: u64,
        kill_priv: bool,
        flags: u32,
        directory: bool,
        log: &Vec<Reply>,
    ) -> (r: Step<(u64, u32)>)
        requires
            old(self).wf(),
        ensures
            final(self).wf(),
            opened(old(self)@, ctx, inode, kill_priv, flags, directory, log@, r@, final(self)@),
    {
        let (fd, pos) = match self.open_file(ctx, inode, kill_priv, flags, log) {
            Step::Call(call) => return Step::Call(call),
            Step::Fail(error, pos) => return Step::Fail(error, pos),
            Step::Done(fd, pos) => (fd, pos),
        };
        let handle: u64 = self.handles.open(inode, fd);
        Step::Done((handle, options_for(self.cfg.cache_policy, directory)), pos)
    }

    /// Opens a file.
    pub fn open(
        &mut self,
        ctx: Context,
        inode: u64,
        kill_priv: bool,
        flags: u32,
        log: &Vec<Reply>,
    ) -> (r: Step<(u64, u32)>)
        requires
            old(self).wf(),
        ensures
            final(self).wf(),
            opened(old(self)@, ctx, inode, kill_priv, flags, false, log@, r@, final(self)@),
    {
        self.open_as(ctx, inode, kill_priv, flags, false, log)
    }

    /// Opens a directory. Direct I/O is for files alone.
    pub fn opendir(&mut self, ctx: Context, inode: u64, flags: u32, log: &Vec<Reply>) -> (r: Step<
        (u64, u32),
    >)
        requires
            old(self).wf(),
        ensures
            final(self).wf(),
            opened(old(self)@, ctx, inode, false, flags, true, log@, r@, final(self)@),
    {
        self.open_as(ctx, inode, false, flags, true, log)
    }

    /// Releases an open file. The result is the descriptor to close.
    pub fn do_release(&mut self, inode: u64, handle: u64) -> (r: Result<i32, i32>)
        requires
            old(self).wf(),
        ensures
            final(self).wf(),
            r == old(self)@.handles.fd_for(inode, handle),
            final(self)@ == (FsView {
                handles: old(self)@.handles.released(inode, handle),
                ..old(self)@
            }),
    {
        self.handles.release(inode, handle)
    }

    /// The descriptor of an open file.
    pub fn handle_fd(&self, inode: u64, handle: u64) -> (r: Result<i32, i32>)
        ensures
            r == self@.handles.fd_for(inode, handle),
    {
        self.handles.lookup(inode, handle)
    }

    /// Reads from an open file into the guest's buffer.
    pub fn read(&self, inode: u64, handle: u64, size: u32, offset: u64, log: &Vec<Reply>) -> (r:
        Step<u64>)
        ensures
            r@ == on_handle(
                self@,
                inode,
                handle,
                |fd: i32| reading_file(fd, size, offset, log@),
            ),
    {
        let fd: i32 = match self.handles.lookup(inode, handle) {
            Err(error) => return Step::Fail(error, 0),
            Ok(fd) => fd,
        };
        if log.len() == 0 {
            return Step::Call(HostCall::Do(Call::Read { fd, size, offset }));
        }
        match log[0].count() {
            Err(error) => Step::Fail(error.raw, 1),
            Ok(count) => Step::Done(count, 1),
        }
    }

    fn store_contents(&self, fd: i32, size: u32, offset: u64, log: &Vec<Reply>, pos: usize) -> (r:
        Step<u64>)
        ensures
            r@ == storing_contents(fd, size, offset, log@, pos as int),
    {
        if pos >= log.len() {
            return Step::Call(HostCall::Do(Call::Write { fd, size, offset }));
        }
        match log[pos].count() {
            Err(error) => Step::Fail(error.raw, pos + 1),
            Ok(count) => Step::Done(count, pos + 1),
        }
    }

    /// Writes the guest's buffer to an open file.
    pub fn write(
        &self,
        ctx: Context,
        inode: u64,
        handle: u64,
        size: u32,
        offset: u64,
        kill_priv: bool,
        log: &Vec<Reply>,
    ) -> (r: Step<u64>)
        ensures
            r@ == on_handle(
                self@,
                inode,
                handle,
                |fd: i32| writing_file(self@, ctx, fd, size, offset, kill_priv, log@),
            ),
    {
        let fd: i32 = match self.handles.lookup(inode, handle) {
            Err(error) => return Step::Fail(error, 0),
            Ok(fd) => fd,
        };
        let at = Node::Fd(fd);
        if let PermissionSemantics::Sandbox(config) = self.cfg.semantics {
            return match prepare_sandbox_content_mutation(config, at, kill_priv, log, 0) {
                Step::Call(call) => Step::Call(call),
                Step::Fail(error, next) => Step::Fail(error, next),
                Step::Done(_, next) => self.store_contents(fd, size, offset, log, next),
            };
        }
        let (count, next) = match self.store_contents(fd, size, offset, log, 0) {
            Step::Call(call) => return Step::Call(call),
            Step::Fail(error, next) => return Step::Fail(error, next),
            Step::Done(count, next) => (count, next),
        };
        if !kill_priv {
            return Step::Done(count, next);
        }
        match tolerate(shed_privileges(ctx, self.cfg.semantics, at, None, log, next)) {
            Step::Call(call) => Step::Call(call),
            Step::Fail(error, next) => Step::Fail(error, next),
            Step::Done(_, next) => Step::Done(count, next),
        }
    }

    /// Allocates, or gives back, a part of an open file.
    pub fn fallocate(
        &self,
        inode: u64,
        handle: u64,
        mode: u32,
        offset: u64,
        length: u64,
        log: &Vec<Reply>,
    ) -> (r: Step<()>)
        requires
            self@.handles.fd_for(inode, handle) is Ok && extends(mode) && log@.len() > 0
                && stat_of(log@[0]) is Ok ==> {
                &&& offset + length <= u64::MAX
                &&& mode & LINUX_FALLOC_FL_KEEP_SIZE != 0 ==> countable_blocks(
                    stat_of(log@[0])->Ok_0,
                    signed((offset + length) as u64),
                )
            },
        ensures
            r@ == on_handle(
                self@,
                inode,
                handle,
                |fd: i32| allocating(fd, mode, offset, length, log@),
            ),
    {
        let fd: i32 = match self.handles.lookup(inode, handle) {
            Err(error) => return Step::Fail(error, 0),
            Ok(fd) => fd,
        };
        if mode & !FALLOC_SUPPORTED != 0 {
            return Step::Fail(LINUX_EOPNOTSUPP, 0);
        }
        let keep_size: bool = mode & LINUX_FALLOC_FL_KEEP_SIZE != 0;
        if mode & LINUX_FALLOC_FL_PUNCH_HOLE != 0 {
            if !keep_size {
                return Step::Fail(LINUX_EINVAL, 0);
            }
            let call = Call::PunchHole { fd, offset: to_signed(offset), length: to_signed(length) };
            return run_single(call, log, 0);
        }
        if log.len() == 0 {
            return Step::Call(HostCall::Do(Call::Stat { at: Node::Fd(fd) }));
        }
        let st: Stat = match log[0].stat() {
            Err(error) => return Step::Fail(error.linux, 1),
            Ok(st) => st,
        };
        let end: i64 = to_signed(offset + length);
        if keep_size {
            let disk_size: i64 = st.blocks * 512;
            if disk_size >= end {
                return Step::Done((), 1);
            }
            run_single(Call::Preallocate { fd, length: end - disk_size }, log, 1)
        } else {
            if st.size >= end {
                return Step::Done((), 1);
            }
            run_single(Call::Truncate { fd, size: end }, log, 1)
        }
    }

    /// Seeks in an open file.
    pub fn lseek(&self, inode: u64, handle: u64, offset: u64, whence: u32, log: &Vec<Reply>) -> (r:
        Step<u64>)
        ensures
            r@ == on_handle(
                self@,
                inode,
                handle,
                |fd: i32| seeking(fd, offset, whence, log@),
            ),
    {
        let fd: i32 = match self.handles.lookup(inode, handle) {
            Err(error) => return Step::Fail(error, 0),
            Ok(fd) => fd,
        };
        if whence == SEEK_DATA {
            return Step::Done(offset, 0);
        }
        let host_whence: u32 = if whence == SEEK_HOLE {
            SEEK_END
        } else {
            whence
        };
        if log.len() == 0 {
            return Step::Call(
                HostCall::Do(Call::Seek { fd, offset: to_signed(offset), whence: host_whence }),
            );
        }
        match log[0].count() {
            Err(error) => Step::Fail(error.linux, 1),
            Ok(count) => Step::Done(count, 1),
        }
    }

    /// Flushes an open file.
    pub fn flush(&self, inode: u64, handle: u64, log: &Vec<Reply>) -> (r: Step<()>)
        ensures
            r@ == on_handle(self@, inode, handle, |fd: i32| flushing(fd, log@)),
    {
        let fd: i32 = match self.handles.lookup(inode, handle) {
            Err(error) => return Step::Fail(error, 0),
            Ok(fd) => fd,
        };
        if log.len() == 0 {
            return Step::Call(HostCall::Do(Call::Dup { fd }));
        }
        match log[0].fd() {
            Err(error) => Step::Fail(error.linux, 1),
            Ok(copy) => run_single(Call::Close { fd: copy }, log, 1),
        }
    }

    /// Makes an open file durable.
    pub fn fsync(&self, inode: u64, handle: u64, log: &Vec<Reply>) -> (r: Step<()>)
        ensures
            r@ == on_handle(self@, inode, handle, |fd: i32| single(Call::Sync { fd }, log@, 0)),
    {
        match self.handles.lookup(inode, handle) {
            Err(error) => Step::Fail(error, 0),
            Ok(fd) => run_single(Call::Sync { fd }, log, 0),
        }
    }

    /// Reads the target of a symbolic link.
    pub fn readlink(&self, inode: u64, log: &Vec<Reply>) -> (r: Step<Vec<u8>>)
        ensures
            r@ == resolving_link(self@, inode, log@),
    {
        let at = match self.inode_to_handle(inode, true) {
            Err(error) => return Step::Fail(error, 0),
            Ok(at) => at,
        };
        if log.len() == 0 {
            return Step::Call(HostCall::Do(Call::ReadLink { at }));
        }
        match log[0].bytes() {
            Err(error) => Step::Fail(error.linux, 1),
            Ok(target) => Step::Done(copy_bytes(target.as_slice()), 1),
        }
    }

    /// Prepares a listing of an open directory: says what it needs.
    pub fn begin_readdir(&mut self, inode: u64, handle: u64, size: u32, offset: u64) -> (r: Result<
        ListStart,
        i32,
    >)
        requires
            old(self).wf(),
        ensures
            final(self).wf(),
            r == list_start(old(self)@.handles, inode, handle, size, offset),
            final(self)@ == (FsView {
                handles: match r {
                    Ok(ListStart::Rewind { .. }) => old(self)@.handles.listed(
                        handle,
                        StreamView { entries: Seq::empty(), ready: false },
                    ),
                    _ => old(self)@.handles,
                },
                ..old(self)@
            }),
    {
        self.handles.begin_listing(inode, handle, size, offset)
    }

    /// Takes the reply to the call that a listing waited for.
    pub fn fill_readdir(&mut self, handle: u64, phase: Fill, reply: FillReply) -> (r: Fill)
        requires
            old(self).wf(),
            old(self)@.handles.open.contains_key(handle),
        ensures
            final(self).wf(),
            r == fill_next(phase, reply),
            final(self)@ == (FsView {
                handles: old(self)@.handles.listed(
                    handle,
                    StreamView {
                        entries: fill_entries(
                            phase,
                            reply,
                            old(self)@.handles.open[handle].stream.entries,
                        ),
                        ..old(self)@.handles.open[handle].stream
                    },
                ),
                ..old(self)@
            }),
    {
        self.handles.fill_listing(handle, phase, reply)
    }

    /// Ends a listing: it fails only if an error came before any entry.
    pub fn finish_readdir(&mut self, handle: u64, error: Option<i32>) -> (r: Result<(), i32>)
        requires
            old(self).wf(),
            old(self)@.handles.open.contains_key(handle),
        ensures
            final(self).wf(),
            match r {
                Err(e) => error == Some(e) && old(self)@.handles.open[handle].stream.entries.len()
                    == 0,
                Ok(_) => error is None || old(self)@.handles.open[handle].stream.entries.len() > 0,
            },
            final(self)@ == (FsView {
                handles: if r is Ok {
                    old(self)@.handles.listed(
                        handle,
                        StreamView { ready: true, ..old(self)@.handles.open[handle].stream },
                    )
                } else {
                    old(self)@.handles
                },
                ..old(self)@
            }),
    {
        self.handles.finish_listing(handle, error)
    }

    /// The next entry of a listing.
    pub fn next_dir_entry(&self, handle: u64, offset: u64, last: Delivery) -> (r: Option<
        DirEntry<'_>,
    >)
        requires
            self@.handles.open.contains_key(handle),
        ensures
            entry_view(r) == self@.handles.open[handle].stream.delivery(offset, last),
    {
        self.handles.deliver(handle, offset, last)
    }
}

/// What an open of a file, or of a directory, answers, and the file system after
/// it.
pub open spec fn opened(
    before: FsView,
    ctx: Context,
    inode: u64,
    kill_priv: bool,
    flags: u32,
    directory: bool,
    log: Seq<Reply>,
    step: StepView<(u64, u32)>,
    after: FsView,
) -> bool {
    match opening_file(before, ctx, inode, kill_priv, flags, log) {
        StepView::Call(call) => step == StepView::<(u64, u32)>::Call(call) && after == before,
        StepView::Fail(error, pos) => step == StepView::<(u64, u32)>::Fail(error, pos) && after
            == before,
        StepView::Done(fd, pos) => {
            &&& step == StepView::<(u64, u32)>::Done(
                (
                    before.handles.next,
                    open_options(before.cfg.cache_policy, directory),
                ),
                pos,
            )
            &&& after == (FsView { handles: before.handles.opened(inode, fd), ..before })
        },
    }
}

} // verus!
