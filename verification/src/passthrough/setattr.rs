//! Setting attributes.

use vstd::prelude::*;
use crate::abi::{
    LINUX_EBADF, O_CLOEXEC, O_NONBLOCK, O_RDWR, O_SYMLINK, SETATTR_ATIME, SETATTR_ATIME_NOW,
    SETATTR_GID, SETATTR_KILL_SUIDGID, SETATTR_MODE, SETATTR_MTIME, SETATTR_MTIME_NOW, SETATTR_SIZE,
    SETATTR_UID, UTIME_NOW, UTIME_OMIT,
};
use crate::attributes::{set_stat, setting, shed_privileges, shedding};
use crate::config::{Duration, PermissionSemantics};
use crate::host::{
    and_finally, fd_of, finally, run_single, single, unit_of, Call, CallView, HostCall, Node, Reply,
    Step, StepView, TimeSpec,
};
use crate::sandbox::{update_sandbox_metadata, updating, Change};
use crate::stat::{Context, Stat};
use super::{getting, opening_inode, FsView, PassthroughFs};

verus! {

/// A request to set attributes: which, and to what.
#[derive(Debug, Clone, Copy)]
pub struct SetattrRequest {
    pub inode: u64,
    pub handle: Option<u64>,
    pub attr: Stat,
    pub valid: u32,
}

impl SetattrRequest {
    /// The request sets an attribute.
    pub open spec fn sets(self, bit: u32) -> bool {
        self.valid & bit == bit
    }

    fn has(&self, bit: u32) -> (r: bool)
        ensures
            r == self.sets(bit),
    {
        self.valid & bit == bit
    }

    /// The owner and group to set; all ones for what stays.
    pub open spec fn owner(self) -> Option<(u32, u32)> {
        if self.valid & (SETATTR_UID | SETATTR_GID) != 0 {
            Some(
                (
                    if self.sets(SETATTR_UID) {
                        self.attr.uid
                    } else {
                        u32::MAX
                    },
                    if self.sets(SETATTR_GID) {
                        self.attr.gid
                    } else {
                        u32::MAX
                    },
                ),
            )
        } else {
            None
        }
    }

    fn new_owner(&self) -> (r: Option<(u32, u32)>)
        ensures
            r == self.owner(),
    {
        if self.valid & (SETATTR_UID | SETATTR_GID) != 0 {
            Some(
                (
                    if self.has(SETATTR_UID) {
                        self.attr.uid
                    } else {
                        u32::MAX
                    },
                    if self.has(SETATTR_GID) {
                        self.attr.gid
                    } else {
                        u32::MAX
                    },
                ),
            )
        } else {
            None
        }
    }

    /// The mode to set.
    pub open spec fn mode(self) -> Option<u32> {
        if self.sets(SETATTR_MODE) {
            Some(self.attr.full_mode())
        } else {
            None
        }
    }

    /// The one change of a sandbox record that the request amounts to. A new
    /// owner takes the capability and the privileged mode bits away; a new size
    /// takes the capability away, and the mode bits where that was asked.
    pub open spec fn record_change(self) -> Change {
        Change {
            owner: self.owner(),
            mode: self.mode(),
            clear_capability: self.owner() is Some || self.sets(SETATTR_SIZE),
            clear_mode_privileges: self.owner() is Some || (self.sets(SETATTR_SIZE) && self.sets(
                SETATTR_KILL_SUIDGID,
            )),
            persist_unchanged: self.mode() is Some || self.owner() is Some,
        }
    }

    /// The request changes a sandbox record.
    pub open spec fn changes_record(self) -> bool {
        self.mode() is Some || self.owner() is Some || self.sets(SETATTR_SIZE)
    }

    /// The access time to set.
    pub open spec fn atime(self) -> TimeSpec {
        if self.sets(SETATTR_ATIME_NOW) {
            TimeSpec { secs: 0, nanos: UTIME_NOW }
        } else if self.sets(SETATTR_ATIME) {
            TimeSpec { secs: self.attr.atime, nanos: self.attr.atime_nsec }
        } else {
            TimeSpec { secs: 0, nanos: UTIME_OMIT }
        }
    }

    /// The modification time to set.
    pub open spec fn mtime(self) -> TimeSpec {
        if self.sets(SETATTR_MTIME_NOW) {
            TimeSpec { secs: 0, nanos: UTIME_NOW }
        } else if self.sets(SETATTR_MTIME) {
            TimeSpec { secs: self.attr.mtime, nanos: self.attr.mtime_nsec }
        } else {
            TimeSpec { secs: 0, nanos: UTIME_OMIT }
        }
    }

    fn times(&self) -> (r: (TimeSpec, TimeSpec))
        ensures
            r == (self.atime(), self.mtime()),
    {
        let mut atime = TimeSpec { secs: 0, nanos: UTIME_OMIT };
        let mut mtime = TimeSpec { secs: 0, nanos: UTIME_OMIT };
        if self.has(SETATTR_ATIME_NOW) {
            atime.nanos = UTIME_NOW;
        } else if self.has(SETATTR_ATIME) {
            atime = TimeSpec { secs: self.attr.atime, nanos: self.attr.atime_nsec };
        }
        if self.has(SETATTR_MTIME_NOW) {
            mtime.nanos = UTIME_NOW;
        } else if self.has(SETATTR_MTIME) {
            mtime = TimeSpec { secs: self.attr.mtime, nanos: self.attr.mtime_nsec };
        }
        (atime, mtime)
    }
}

/// The file that a request is about: the open file where it names one.
pub open spec fn setattr_target(fs: FsView, req: SetattrRequest) -> Result<Node, i32> {
    match req.handle {
        Some(handle) => match fs.handles.fd_for(req.inode, handle) {
            Ok(fd) => Ok(Node::Fd(fd)),
            Err(error) => Err(error),
        },
        None => fs.node_of(req.inode, true),
    }
}

/// Setting attributes: the sandbox record first, in one piece; else the mode,
/// then the owner; then the size, then the times; then the file is looked at
/// again.
pub open spec fn setting_attributes(
    fs: FsView,
    ctx: Context,
    req: SetattrRequest,
    log: Seq<Reply>,
) -> StepView<(Stat, Duration)> {
    match setattr_target(fs, req) {
        Err(error) => StepView::Fail(error, 0),
        Ok(at) => match fs.cfg.semantics {
            PermissionSemantics::Sandbox(config) => if req.changes_record() {
                match updating(config, at, None, req.record_change(), log, 0) {
                    StepView::Call(call) => StepView::Call(call),
                    StepView::Fail(error, next) => StepView::Fail(error, next),
                    StepView::Done(_, next) => setting_size(fs, ctx, req, at, log, next),
                }
            } else {
                setting_size(fs, ctx, req, at, log, 0)
            },
            _ => setting_mode(fs, ctx, req, at, log, 0),
        },
    }
}

pub open spec fn setting_mode(
    fs: FsView,
    ctx: Context,
    req: SetattrRequest,
    at: Node,
    log: Seq<Reply>,
    pos: int,
) -> StepView<(Stat, Duration)> {
    if req.mode() is Some {
        match setting(fs.cfg.semantics, at, None, None, req.mode(), log, pos) {
            StepView::Call(call) => StepView::Call(call),
            StepView::Fail(error, next) => StepView::Fail(error, next),
            StepView::Done(_, next) => setting_owner(fs, ctx, req, at, log, next),
        }
    } else {
        setting_owner(fs, ctx, req, at, log, pos)
    }
}

pub open spec fn setting_owner(
    fs: FsView,
    ctx: Context,
    req: SetattrRequest,
    at: Node,
    log: Seq<Reply>,
    pos: int,
) -> StepView<(Stat, Duration)> {
    if req.owner() is Some {
        match shedding(ctx, fs.cfg.semantics, at, req.owner(), log, pos) {
            StepView::Call(call) => StepView::Call(call),
            StepView::Fail(error, next) => StepView::Fail(error, next),
            StepView::Done(_, next) => setting_size(fs, ctx, req, at, log, next),
        }
    } else {
        setting_size(fs, ctx, req, at, log, pos)
    }
}

/// Cutting an open file, and taking its privileges away where a sandbox record
/// did not lose them before.
pub open spec fn truncating(
    ctx: Context,
    semantics: PermissionSemantics,
    fd: i32,
    size: i64,
    log: Seq<Reply>,
    pos: int,
) -> StepView<()> {
    match single(Call::Truncate { fd, size }, log, pos) {
        StepView::Call(call) => StepView::Call(call),
        StepView::Fail(error, next) => StepView::Fail(error, next),
        StepView::Done(_, next) => if semantics.sandboxed() {
            StepView::Done((), next)
        } else {
            shedding(ctx, semantics, Node::Fd(fd), None, log, next)
        },
    }
}

/// Cutting a file, which a path is opened for.
pub open spec fn resizing(
    fs: FsView,
    ctx: Context,
    inode: u64,
    size: i64,
    at: Node,
    log: Seq<Reply>,
    pos: int,
) -> StepView<()> {
    match at {
        Node::Fd(fd) => truncating(ctx, fs.cfg.semantics, fd, size, log, pos),
        _ => match opening_inode(fs, inode, O_NONBLOCK | O_RDWR, log, pos) {
            StepView::Call(call) => StepView::Call(call),
            StepView::Fail(error, next) => StepView::Fail(error, next),
            StepView::Done(fd, next) => finally(
                truncating(ctx, fs.cfg.semantics, fd, size, log, next),
                Call::Close { fd },
                log,
            ),
        },
    }
}

pub open spec fn setting_size(
    fs: FsView,
    ctx: Context,
    req: SetattrRequest,
    at: Node,
    log: Seq<Reply>,
    pos: int,
) -> StepView<(Stat, Duration)> {
    if req.sets(SETATTR_SIZE) {
        match resizing(fs, ctx, req.inode, req.attr.size, at, log, pos) {
            StepView::Call(call) => StepView::Call(call),
            StepView::Fail(error, next) => StepView::Fail(error, next),
            StepView::Done(_, next) => setting_times(fs, ctx, req, at, log, next),
        }
    } else {
        setting_times(fs, ctx, req, at, log, pos)
    }
}

/// Setting the times of an open file. The error number is the host's.
pub open spec fn stamping(fd: i32, req: SetattrRequest, log: Seq<Reply>, pos: int) -> StepView<()> {
    if pos >= log.len() {
        StepView::Call(
            CallView::Do(Call::SetTimes { fd, atime: req.atime(), mtime: req.mtime() }),
        )
    } else {
        match unit_of(log[pos]) {
            Ok(_) => StepView::Done((), pos + 1),
            Err(error) => StepView::Fail(error.raw, pos + 1),
        }
    }
}

/// Setting the times of a file, which a path is opened for, on a symbolic link
/// itself.
pub open spec fn touching(at: Node, req: SetattrRequest, log: Seq<Reply>, pos: int) -> StepView<
    (),
> {
    match at {
        Node::Fd(fd) => stamping(fd, req, log, pos),
        _ => if pos >= log.len() {
            StepView::Call(CallView::Do(Call::Open { at, flags: O_SYMLINK | O_CLOEXEC, mode: 0 }))
        } else {
            match fd_of(log[pos]) {
                Err(_) => StepView::Fail(LINUX_EBADF, pos + 1),
                Ok(fd) => finally(stamping(fd, req, log, pos + 1), Call::Close { fd }, log),
            }
        },
    }
}

pub open spec fn setting_times(
    fs: FsView,
    ctx: Context,
    req: SetattrRequest,
    at: Node,
    log: Seq<Reply>,
    pos: int,
) -> StepView<(Stat, Duration)> {
    if req.valid & (SETATTR_ATIME | SETATTR_MTIME) != 0 {
        match touching(at, req, log, pos) {
            StepView::Call(call) => StepView::Call(call),
            StepView::Fail(error, next) => StepView::Fail(error, next),
            StepView::Done(_, next) => getting(fs, ctx, req.inode, log, next),
        }
    } else {
        getting(fs, ctx, req.inode, log, pos)
    }
}

fn truncate(
    ctx: Context,
    semantics: PermissionSemantics,
    fd: i32,
    size: i64,
    log: &Vec<Reply>,
    pos: usize,
) -> (r: Step<()>)
    ensures
        r@ == truncating(ctx, semantics, fd, size, log@, pos as int),
{
    match run_single(Call::Truncate { fd, size }, log, pos) {
        Step::Call(call) => Step::Call(call),
        Step::Fail(error, next) => Step::Fail(error, next),
        Step::Done(_, next) => if semantics.is_sandbox() {
            Step::Done((), next)
        } else {
            shed_privileges(ctx, semantics, Node::Fd(fd), None, log, next)
        },
    }
}

fn stamp(fd: i32, req: &SetattrRequest, log: &Vec<Reply>, pos: usize) -> (r: Step<()>)
    ensures
        r@ == stamping(fd, *req, log@, pos as int),
{
    let (atime, mtime) = req.times();
    if pos >= log.len() {
        return Step::Call(HostCall::Do(Call::SetTimes { fd, atime, mtime }));
    }
    match log[pos].unit() {
        Ok(_) => Step::Done((), pos + 1),
        Err(error) => Step::Fail(error.raw, pos + 1),
    }
}

fn touch(at: Node, req: &SetattrRequest, log: &Vec<Reply>, pos: usize) -> (r: Step<()>)
    ensures
        r@ == touching(at, *req, log@, pos as int),
{
    match at {
        Node::Fd(fd) => stamp(fd, req, log, pos),
        _ => {
            if pos >= log.len() {
                return Step::Call(
                    HostCall::Do(Call::Open { at, flags: O_SYMLINK | O_CLOEXEC, mode: 0 }),
                );
            }
            match log[pos].fd() {
                Err(_) => Step::Fail(LINUX_EBADF, pos + 1),
                Ok(fd) => and_finally(stamp(fd, req, log, pos + 1), Call::Close { fd }, log),
            }
        },
    }
}

impl PassthroughFs {
    fn resize(
        &self,
        ctx: Context,
        inode: u64,
        size: i64,
        at: Node,
        log: &Vec<Reply>,
        pos: usize,
    ) -> (r: Step<()>)
        ensures
            r@ == resizing(self@, ctx, inode, size, at, log@, pos as int),
    {
        match at {
            Node::Fd(fd) => truncate(ctx, self.cfg.semantics, fd, size, log, pos),
            _ => match self.open_inode(inode, O_NONBLOCK | O_RDWR, log, pos) {
                Step::Call(call) => Step::Call(call),
                Step::Fail(error, next) => Step::Fail(error, next),
                Step::Done(fd, next) => and_finally(
                    truncate(ctx, self.cfg.semantics, fd, size, log, next),
                    Call::Close { fd },
                    log,
                ),
            },
        }
    }

    /// Sets attributes of a file. The result is the file's attributes after
    /// that, and how long they stay good.
    pub fn setattr(&self, ctx: Context, req: SetattrRequest, log: &Vec<Reply>) -> (r: Step<
        (Stat, Duration),
    >)
        ensures
            r@ == setting_attributes(self@, ctx, req, log@),
    {
        let at = match req.handle {
            Some(handle) => match self.handles.lookup(req.inode, handle) {
                Ok(fd) => Node::Fd(fd),
                Err(error) => return Step::Fail(error, 0),
            },
            None => match self.inode_to_handle(req.inode, true) {
                Ok(at) => at,
                Err(error) => return Step::Fail(error, 0),
            },
        };
        let semantics = self.cfg.semantics;
        let owner = req.new_owner();
        let mode: Option<u32> = if req.has(SETATTR_MODE) {
            Some(req.attr.mode as u32)
        } else {
            None
        };
        let mut pos: usize = 0;
        if let PermissionSemantics::Sandbox(config) = semantics {
            let resized: bool = req.has(SETATTR_SIZE);
            if mode.is_some() || owner.is_some() || resized {
                let change = Change {
                    owner,
                    mode,
                    clear_capability: owner.is_some() || resized,
                    clear_mode_privileges: owner.is_some() || (resized && req.has(
                        SETATTR_KILL_SUIDGID,
                    )),
                    persist_unchanged: mode.is_some() || owner.is_some(),
                };
                pos = match update_sandbox_metadata(config, at, None, change, log, 0) {
                    Step::Call(call) => return Step::Call(call),
                    Step::Fail(error, next) => return Step::Fail(error, next),
                    Step::Done(_, next) => next,
                };
            }
        } else {
            if mode.is_some() {
                pos = match set_stat(semantics, at, None, None, mode, log, pos) {
                    Step::Call(call) => return Step::Call(call),
                    Step::Fail(error, next) => return Step::Fail(error, next),
                    Step::Done(_, next) => next,
                };
            }
            if owner.is_some() {
                pos = match shed_privileges(ctx, semantics, at, owner, log, pos) {
                    Step::Call(call) => return Step::Call(call),
                    Step::Fail(error, next) => return Step::Fail(error, next),
                    Step::Done(_, next) => next,
                };
            }
        }
        if req.has(SETATTR_SIZE) {
            pos = match self.resize(ctx, req.inode, req.attr.size, at, log, pos) {
                Step::Call(call) => return Step::Call(call),
                Step::Fail(error, next) => return Step::Fail(error, next),
                Step::Done(_, next) => next,
            };
        }
        if req.valid & (SETATTR_ATIME | SETATTR_MTIME) != 0 {
            pos = match touch(at, &req, log, pos) {
                Step::Call(call) => return Step::Call(call),
                Step::Fail(error, next) => return Step::Fail(error, next),
                Step::Done(_, next) => next,
            };
        }
        self.do_getattr(ctx, req.inode, log, pos)
    }
}

} // verus!
