//! What setting and reading attributes comes to, in terms of the request alone.

use vstd::prelude::*;
use crate::attributes::{setting, shedding, viewing};
use crate::bits::lemma_words;
use crate::config::{Duration, PermissionSemantics};
use crate::host::{Attr, Call, CallView, Node, Reply, StepView, TimeSpec};
use crate::override_stat::{override_of, override_round_trip, Override};
use crate::protocol::{
    beyond, lemma_resizing, lemma_setting, lemma_shedding, lemma_touching, lemma_truncating,
    lemma_updating,
};
use crate::sandbox::updating;
use crate::sandbox_metadata::{record_of, MetadataView};
use crate::stat::{Context, Stat};
use super::effects::{
    changes_contents, changes_names, lemma_looks_change_nothing, lemma_setting_keeps_contents,
    lemma_shedding_changes_no_contents, reached,
};
use super::laws::{lemma_viewing_calls, metadata_changes_touch_only_the_record};
use super::setattr::{
    resizing, setattr_target, setting_attributes, setting_size, setting_times, touching, truncating,
    SetattrRequest,
};
use super::{getting, FsView};

verus! {

/// The file that a request to set attributes is about: the open file of its
/// handle, or else its inode.
pub open spec fn is_target(fs: FsView, req: SetattrRequest, at: Node) -> bool {
    match req.handle {
        Some(handle) => {
            &&& fs.handles.open.contains_key(handle)
            &&& fs.handles.open[handle].inode == req.inode
            &&& at == Node::Fd(fs.handles.open[handle].fd)
        },
        None => fs.inodes.contains_key(req.inode) && at == reached(fs, req.inode),
    }
}

/// A time that is set: the present, the one given, or none.
pub open spec fn time_is(t: TimeSpec, now: bool, given: bool, secs: i64, nanos: i64) -> bool {
    if now {
        t.nanos == -1
    } else if given {
        t.secs == secs && t.nanos == nanos
    } else {
        t.nanos == -2
    }
}

/// The host is asked to set times.
pub open spec fn asks_for_times<T>(step: StepView<T>) -> bool {
    step matches StepView::Call(CallView::Do(Call::SetTimes { .. }))
}

/// The host is asked to set a size.
pub open spec fn asks_for_size<T>(step: StepView<T>) -> bool {
    step matches StepView::Call(CallView::Do(Call::Truncate { .. }))
}

/// The host is asked to open a file that is there to read and write it.
pub open spec fn opens_for_writing<T>(step: StepView<T>, at: Node) -> bool {
    match step {
        StepView::Call(CallView::Do(Call::Open { at: n, flags, .. })) => n == at && flags & 3 == 2
            && flags & 0x600 == 0,
        _ => false,
    }
}

/// A call that sets no time, no size and no name.
spec fn is_quiet(call: CallView) -> bool {
    !changes_names(call) && !changes_contents(call) && !(call matches CallView::Do(
        Call::SetTimes { .. },
    ))
}

/// Setting attributes, as a whole.
#[verifier::opaque]
spec fn whole(fs: FsView, ctx: Context, req: SetattrRequest, log: Seq<Reply>) -> StepView<
    (Stat, Duration),
> {
    setting_attributes(fs, ctx, req, log)
}

/// Where a request's replies have come to when its size is due.
spec fn size_start(
    fs: FsView,
    ctx: Context,
    req: SetattrRequest,
    at: Node,
    log: Seq<Reply>,
) -> Option<int> {
    match fs.cfg.semantics {
        PermissionSemantics::Sandbox(config) => if req.changes_record() {
            match updating(config, at, None, req.record_change(), log, 0) {
                StepView::Done(_, n) => Some(n),
                _ => None,
            }
        } else {
            Some(0)
        },
        semantics => {
            let moded = if req.mode() is Some {
                setting(semantics, at, None, None, req.mode(), log, 0)
            } else {
                StepView::Done((), 0)
            };
            match moded {
                StepView::Done(_, n) => if req.owner() is Some {
                    match shedding(ctx, semantics, at, req.owner(), log, n) {
                        StepView::Done(_, m) => Some(m),
                        _ => None,
                    }
                } else {
                    Some(n)
                },
                _ => None,
            }
        },
    }
}

proof fn lemma_size_start(
    fs: FsView,
    ctx: Context,
    req: SetattrRequest,
    at: Node,
    log: Seq<Reply>,
    k: int,
)
    requires
        setattr_target(fs, req) == Ok::<Node, i32>(at),
        0 <= k <= log.len(),
    ensures
        match size_start(fs, ctx, req, at, log) {
            Some(p) => {
                &&& 0 <= p <= log.len()
                &&& whole(fs, ctx, req, log) == setting_size(
                    fs,
                    ctx,
                    req,
                    at,
                    log,
                    p,
                )
                &&& k >= p ==> whole(fs, ctx, req, log.take(k)) == setting_size(
                    fs,
                    ctx,
                    req,
                    at,
                    log.take(k),
                    p,
                )
            },
            None => match whole(fs, ctx, req, log) {
                StepView::Call(call) => is_quiet(call),
                StepView::Done(_, _) => false,
                StepView::Fail(_, _) => true,
            },
        },
{
    reveal(whole);
    match fs.cfg.semantics {
        PermissionSemantics::Sandbox(config) => {
            let change = req.record_change();
            metadata_changes_touch_only_the_record(config, at, None, change, log, 0);
            lemma_updating(config, at, None, change, log, 0, k);
        },
        semantics => {
            lemma_setting_keeps_contents(semantics, at, None, None, req.mode(), log, 0);
            lemma_setting(semantics, at, None, None, req.mode(), log, 0, k);
            let moded = if req.mode() is Some {
                setting(semantics, at, None, None, req.mode(), log, 0)
            } else {
                StepView::Done((), 0)
            };
            if let StepView::Done(_, n) = moded {
                lemma_shedding_changes_no_contents(ctx, semantics, at, req.owner(), log, n);
                lemma_shedding(
                    ctx,
                    semantics,
                    at,
                    req.owner(),
                    log,
                    n,
                    beyond(k, n, log.len() as int),
                );
            }
        },
    }
}

/// Where a request's replies have come to when its times are due.
spec fn times_start(
    fs: FsView,
    ctx: Context,
    req: SetattrRequest,
    at: Node,
    log: Seq<Reply>,
) -> Option<int> {
    match size_start(fs, ctx, req, at, log) {
        Some(p) => if req.sets(crate::abi::SETATTR_SIZE) {
            match resizing(fs, ctx, req.inode, req.attr.size, at, log, p) {
                StepView::Done(_, n) => Some(n),
                _ => None,
            }
        } else {
            Some(p)
        },
        None => None,
    }
}

/// A cut of an open file asks for the given size, and for nothing else that
/// changes names or contents.
proof fn lemma_truncating_calls(
    ctx: Context,
    semantics: PermissionSemantics,
    fd: i32,
    size: i64,
    log: Seq<Reply>,
    pos: int,
)
    ensures
        match truncating(ctx, semantics, fd, size, log, pos) {
            StepView::Call(CallView::Do(Call::Truncate { fd: f, size: s })) => f == fd && s == size
                && pos >= log.len(),
            StepView::Call(call) => is_quiet(call),
            _ => true,
        },
{
    if pos < log.len() {
        lemma_shedding_changes_no_contents(ctx, semantics, Node::Fd(fd), None, log, pos + 1);
    }
}

proof fn lemma_reopen_flags(writeback: bool)
    ensures
        ({
            let flags = crate::opening::reopen_flags(
                writeback,
                crate::abi::O_NONBLOCK | crate::abi::O_RDWR,
            );
            flags & 0x200 == 0 && flags & 0x400 == 0 && flags & 3 == 2
        }),
{
    assert({
        let f: u32 = 0x4u32 | 2u32;
        let g: u32 = if writeback && f & 3 == 1 { (f & !3u32) | 2 } else { f };
        let h: u32 = if writeback && g & 8 != 0 { g & !8u32 } else { g };
        let r: u32 = (h | 0x100_0000) & !0x100u32 & !0x20u32;
        r & 0x200 == 0 && r & 0x400 == 0 && r & 3 == 2
    }) by (bit_vector);
}

proof fn lemma_resizing_calls(
    fs: FsView,
    ctx: Context,
    inode: u64,
    size: i64,
    at: Node,
    log: Seq<Reply>,
    pos: int,
)
    requires
        0 <= pos <= log.len(),
    ensures
        match resizing(fs, ctx, inode, size, at, log, pos) {
            StepView::Call(CallView::Do(Call::Truncate { fd, size: s })) => {
                &&& s == size
                &&& at is Fd ==> at == Node::Fd(fd)
                &&& !(at is Fd) ==> pos + 1 == log.len() && log[pos] == Reply::Fd(fd)
            },
            StepView::Call(call) => is_quiet(call),
            StepView::Done(_, end) => match at {
                Node::Fd(fd) => pos < log.len() && resizing(
                    fs,
                    ctx,
                    inode,
                    size,
                    at,
                    log.take(pos),
                    pos,
                ) == StepView::<()>::Call(CallView::Do(Call::Truncate { fd, size })) && !(log[pos]
                    is Error),
                _ => pos + 1 < log.len() && log[pos] is Fd && resizing(
                    fs,
                    ctx,
                    inode,
                    size,
                    at,
                    log.take(pos + 1),
                    pos,
                ) == StepView::<()>::Call(
                    CallView::Do(Call::Truncate { fd: log[pos]->Fd_0, size }),
                ) && !(log[pos + 1] is Error),
            },
            StepView::Fail(_, _) => true,
        },
{
    lemma_reopen_flags(fs.writeback);
    match at {
        Node::Fd(fd) => {
            lemma_truncating_calls(ctx, fs.cfg.semantics, fd, size, log, pos);
        },
        _ => {
            if pos < log.len() {
                if let Reply::Fd(fd) = log[pos] {
                    lemma_truncating_calls(ctx, fs.cfg.semantics, fd, size, log, pos + 1);
                    lemma_truncating(
                        ctx,
                        fs.cfg.semantics,
                        fd,
                        size,
                        log,
                        pos + 1,
                        log.len() as int,
                    );
                }
            }
        },
    }
}

proof fn lemma_times_start(
    fs: FsView,
    ctx: Context,
    req: SetattrRequest,
    at: Node,
    log: Seq<Reply>,
    k: int,
)
    requires
        setattr_target(fs, req) == Ok::<Node, i32>(at),
        0 <= k <= log.len(),
    ensures
        match times_start(fs, ctx, req, at, log) {
            Some(p) => {
                &&& 0 <= p <= log.len()
                &&& whole(fs, ctx, req, log) == setting_times(
                    fs,
                    ctx,
                    req,
                    at,
                    log,
                    p,
                )
                &&& k >= p ==> whole(fs, ctx, req, log.take(k)) == setting_times(
                    fs,
                    ctx,
                    req,
                    at,
                    log.take(k),
                    p,
                )
            },
            None => match whole(fs, ctx, req, log) {
                StepView::Call(CallView::Do(Call::SetTimes { .. })) => false,
                StepView::Call(CallView::Do(Call::Truncate { .. })) => size_start(
                    fs,
                    ctx,
                    req,
                    at,
                    log,
                ) is Some && req.sets(crate::abi::SETATTR_SIZE),
                StepView::Call(call) => is_quiet(call),
                StepView::Done(_, _) => false,
                StepView::Fail(_, _) => true,
            },
        },
{
    lemma_size_start(fs, ctx, req, at, log, k);
    if let Some(p) = size_start(fs, ctx, req, at, log) {
        lemma_resizing_calls(fs, ctx, req.inode, req.attr.size, at, log, p);
        lemma_resizing(
            fs,
            ctx,
            req.inode,
            req.attr.size,
            at,
            log,
            p,
            beyond(k, p, log.len() as int),
        );
    }
}

proof fn lemma_getting_is_quiet(
    fs: FsView,
    ctx: Context,
    inode: u64,
    log: Seq<Reply>,
    pos: int,
)
    ensures
        match getting(fs, ctx, inode, log, pos) {
            StepView::Call(call) => is_quiet(call),
            _ => true,
        },
{
    if let Ok(at) = fs.node_of(inode, true) {
        lemma_viewing_calls(ctx, fs.cfg.semantics, at, log, pos);
        if let StepView::Call(call) = viewing(ctx, fs.cfg.semantics, at, log, pos) {
            lemma_looks_change_nothing(call);
        }
    }
}

/// Setting times.
proof fn lemma_setting_times(
    fs: FsView,
    ctx: Context,
    req: SetattrRequest,
    at: Node,
    log: Seq<Reply>,
    p: int,
)
    requires
        0 <= p <= log.len(),
    ensures
        match setting_times(fs, ctx, req, at, log, p) {
            StepView::Call(CallView::Do(Call::SetTimes { fd, atime, mtime })) => {
                &&& req.valid & 0x30 != 0
                &&& atime == req.atime() && mtime == req.mtime()
                &&& at is Fd ==> at == Node::Fd(fd)
                &&& !(at is Fd) ==> p + 1 == log.len() && log[p] == Reply::Fd(fd) && setting_times(
                    fs,
                    ctx,
                    req,
                    at,
                    log.take(p),
                    p,
                ) == StepView::<(Stat, Duration)>::Call(
                    CallView::Do(Call::Open { at, flags: 0x120_0000, mode: 0 }),
                )
            },
            StepView::Call(call) => is_quiet(call),
            StepView::Done(_, _) => req.valid & 0x30 != 0 ==> {
                let asked = if at is Fd {
                    p
                } else {
                    p + 1
                };
                &&& asked < log.len()
                &&& !(log[asked] is Error)
                &&& asks_for_times(setting_times(fs, ctx, req, at, log.take(asked), p))
            },
            StepView::Fail(_, _) => true,
        },
{
    lemma_words();
    lemma_getting_is_quiet(fs, ctx, req.inode, log, p);
    lemma_touching(at, req, log, p, log.len() as int);
    if let StepView::Done(_, n) = touching(at, req, log, p) {
        lemma_getting_is_quiet(fs, ctx, req.inode, log, n);
    }
}

/// Setting a size, and then times.
proof fn lemma_setting_size(
    fs: FsView,
    ctx: Context,
    req: SetattrRequest,
    at: Node,
    log: Seq<Reply>,
    p: int,
)
    requires
        0 <= p <= log.len(),
        !(at is Fd) ==> fs.inodes.contains_key(req.inode) && at == reached(fs, req.inode),
    ensures
        match setting_size(fs, ctx, req, at, log, p) {
            StepView::Call(CallView::Do(Call::Truncate { fd, size })) => {
                &&& req.valid & 8 == 8
                &&& size == req.attr.size
                &&& at is Fd ==> at == Node::Fd(fd)
                &&& !(at is Fd) ==> p + 1 == log.len() && log[p] == Reply::Fd(fd)
                    && opens_for_writing(setting_size(fs, ctx, req, at, log.take(p), p), at)
            },
            StepView::Call(call) => !changes_names(call) && !changes_contents(call),
            StepView::Done(_, _) => req.valid & 8 == 8 ==> {
                let asked = if at is Fd {
                    p
                } else {
                    p + 1
                };
                &&& asked < log.len()
                &&& !(log[asked] is Error)
                &&& asks_for_size(setting_size(fs, ctx, req, at, log.take(asked), p))
            },
            StepView::Fail(_, _) => true,
        },
{
    lemma_reopen_flags(fs.writeback);
    let flags = crate::opening::reopen_flags(
        fs.writeback,
        crate::abi::O_NONBLOCK | crate::abi::O_RDWR,
    );
    assert(flags & 0x200 == 0 && flags & 0x400 == 0 ==> flags & 0x600 == 0) by (bit_vector);
    lemma_resizing_calls(fs, ctx, req.inode, req.attr.size, at, log, p);
    lemma_resizing(fs, ctx, req.inode, req.attr.size, at, log, p, log.len() as int);
    lemma_setting_times(fs, ctx, req, at, log, p);
    if let StepView::Done(_, n) = resizing(fs, ctx, req.inode, req.attr.size, at, log, p) {
        lemma_setting_times(fs, ctx, req, at, log, n);
    }
}

/// The request's own words for its target are those of the operation.
proof fn lemma_target(fs: FsView, req: SetattrRequest, at: Node)
    requires
        is_target(fs, req, at),
    ensures
        setattr_target(fs, req) == Ok::<Node, i32>(at),
        !(at is Fd) ==> fs.inodes.contains_key(req.inode) && at == reached(fs, req.inode),
{
}

proof fn lemma_times(
    fs: FsView,
    ctx: Context,
    req: SetattrRequest,
    at: Node,
    log: Seq<Reply>,
)
    requires
        is_target(fs, req, at),
    ensures
        match whole(fs, ctx, req, log) {
            StepView::Call(CallView::Do(Call::SetTimes { fd, atime, mtime })) => {
                &&& req.valid & 0x30 != 0
                &&& time_is(
                    atime,
                    req.valid & 0x80 == 0x80,
                    req.valid & 0x10 == 0x10,
                    req.attr.atime,
                    req.attr.atime_nsec,
                )
                &&& time_is(
                    mtime,
                    req.valid & 0x100 == 0x100,
                    req.valid & 0x20 == 0x20,
                    req.attr.mtime,
                    req.attr.mtime_nsec,
                )
                &&& at is Fd ==> at == Node::Fd(fd)
                &&& !(at is Fd) ==> log.len() > 0 && log.last() == Reply::Fd(fd)
                    && whole(fs, ctx, req, log.drop_last()) == StepView::<
                    (Stat, crate::config::Duration),
                >::Call(CallView::Do(Call::Open { at, flags: 0x120_0000, mode: 0 }))
            },
            StepView::Done(_, _) => req.valid & 0x30 != 0 ==> exists|k: int|
                0 <= k < log.len() && !(log[k] is Error) && asks_for_times(
                    #[trigger] whole(fs, ctx, req, log.take(k)),
                ),
            _ => true,
        },
{
    lemma_target(fs, req, at);
    lemma_times_start(fs, ctx, req, at, log, log.len() as int);
    if let Some(p) = times_start(fs, ctx, req, at, log) {
        lemma_setting_times(fs, ctx, req, at, log, p);
        lemma_times_start(fs, ctx, req, at, log, p);
        if p + 1 <= log.len() {
            lemma_times_start(fs, ctx, req, at, log, p + 1);
        }
        if p + 1 == log.len() {
            assert(log.drop_last() =~= log.take(p));
        }
        let asked = if at is Fd {
            p
        } else {
            p + 1
        };
        if asked < log.len() {
            assert(whole(fs, ctx, req, log.take(asked)) == setting_times(
                fs,
                ctx,
                req,
                at,
                log.take(asked),
                p,
            ));
        }
    }
}

/// The times that a request sets are those that it holds: the present where it
/// says so, the given time where it gives one, and none where it does not. They
/// are set of the file that the request is about, which is opened for it, on a
/// link itself, where it is not open. A request with times succeeds only if the
/// host has set them.
pub proof fn times_are_those_of_the_request(
    fs: FsView,
    ctx: Context,
    req: SetattrRequest,
    at: Node,
    log: Seq<Reply>,
)
    requires
        is_target(fs, req, at),
    ensures
        match setting_attributes(fs, ctx, req, log) {
            StepView::Call(CallView::Do(Call::SetTimes { fd, atime, mtime })) => {
                &&& req.valid & 0x30 != 0
                &&& time_is(
                    atime,
                    req.valid & 0x80 == 0x80,
                    req.valid & 0x10 == 0x10,
                    req.attr.atime,
                    req.attr.atime_nsec,
                )
                &&& time_is(
                    mtime,
                    req.valid & 0x100 == 0x100,
                    req.valid & 0x20 == 0x20,
                    req.attr.mtime,
                    req.attr.mtime_nsec,
                )
                &&& at is Fd ==> at == Node::Fd(fd)
                &&& !(at is Fd) ==> log.len() > 0 && log.last() == Reply::Fd(fd)
                    && setting_attributes(fs, ctx, req, log.drop_last()) == StepView::<
                    (Stat, crate::config::Duration),
                >::Call(CallView::Do(Call::Open { at, flags: 0x120_0000, mode: 0 }))
            },
            StepView::Done(_, _) => req.valid & 0x30 != 0 ==> exists|k: int|
                0 <= k < log.len() && !(log[k] is Error) && asks_for_times(
                    #[trigger] setting_attributes(fs, ctx, req, log.take(k)),
                ),
            _ => true,
        },
{
    reveal(whole);
    lemma_times(fs, ctx, req, at, log);
}

proof fn lemma_size(
    fs: FsView,
    ctx: Context,
    req: SetattrRequest,
    at: Node,
    log: Seq<Reply>,
)
    requires
        is_target(fs, req, at),
    ensures
        match whole(fs, ctx, req, log) {
            StepView::Call(CallView::Do(Call::Truncate { fd, size })) => {
                &&& req.valid & 8 == 8
                &&& size == req.attr.size
                &&& at is Fd ==> at == Node::Fd(fd)
                &&& !(at is Fd) ==> log.len() > 0 && log.last() == Reply::Fd(fd) && opens_for_writing(
                    whole(fs, ctx, req, log.drop_last()),
                    at,
                )
            },
            StepView::Call(call) => !changes_names(call) && !changes_contents(call),
            StepView::Done(_, _) => req.valid & 8 == 8 ==> exists|k: int|
                0 <= k < log.len() && !(log[k] is Error) && asks_for_size(
                    #[trigger] whole(fs, ctx, req, log.take(k)),
                ),
            StepView::Fail(_, _) => true,
        },
{
    lemma_target(fs, req, at);
    lemma_times_start(fs, ctx, req, at, log, log.len() as int);
    lemma_size_start(fs, ctx, req, at, log, log.len() as int);
    if let Some(p) = size_start(fs, ctx, req, at, log) {
        lemma_setting_size(fs, ctx, req, at, log, p);
        lemma_size_start(fs, ctx, req, at, log, p);
        if p + 1 <= log.len() {
            lemma_size_start(fs, ctx, req, at, log, p + 1);
        }
        if p + 1 == log.len() {
            assert(log.drop_last() =~= log.take(p));
        }
        let asked = if at is Fd {
            p
        } else {
            p + 1
        };
        if asked < log.len() {
            assert(whole(fs, ctx, req, log.take(asked)) == setting_size(
                fs,
                ctx,
                req,
                at,
                log.take(asked),
                p,
            ));
        }
    }
}

/// The size that a request sets is the one that it holds, of the file that it is
/// about, and no other call of the request changes contents or names. A request
/// with a size succeeds only if the host has set it.
pub proof fn size_is_that_of_the_request(
    fs: FsView,
    ctx: Context,
    req: SetattrRequest,
    at: Node,
    log: Seq<Reply>,
)
    requires
        is_target(fs, req, at),
    ensures
        match setting_attributes(fs, ctx, req, log) {
            StepView::Call(CallView::Do(Call::Truncate { fd, size })) => {
                &&& req.valid & 8 == 8
                &&& size == req.attr.size
                &&& at is Fd ==> at == Node::Fd(fd)
                &&& !(at is Fd) ==> log.len() > 0 && log.last() == Reply::Fd(fd) && opens_for_writing(
                    setting_attributes(fs, ctx, req, log.drop_last()),
                    at,
                )
            },
            StepView::Call(call) => !changes_names(call) && !changes_contents(call),
            StepView::Done(_, _) => req.valid & 8 == 8 ==> exists|k: int|
                0 <= k < log.len() && !(log[k] is Error) && asks_for_size(
                    #[trigger] setting_attributes(fs, ctx, req, log.take(k)),
                ),
            StepView::Fail(_, _) => true,
        },
{
    reveal(whole);
    lemma_size(fs, ctx, req, at, log);
}

/// A mode without the bits that lend authority: the set-user bit, and the
/// set-group bit where the group may execute.
pub open spec fn plain_mode(mode: u32) -> u32 {
    if mode & 0o010 != 0 {
        mode & !0o6000u32
    } else {
        mode & !0o4000u32
    }
}

/// Under simplified semantics a mode is set on the host's file, as it is in the
/// request, before anything else happens; if the host refuses, so does the
/// request.
pub proof fn simplified_modes_are_the_hosts(
    fs: FsView,
    ctx: Context,
    req: SetattrRequest,
    at: Node,
    log: Seq<Reply>,
)
    requires
        fs.cfg.semantics == PermissionSemantics::LinuxSimplified,
        is_target(fs, req, at),
        req.valid & 1 == 1,
    ensures
        setting_attributes(fs, ctx, req, Seq::empty()) == StepView::<(Stat, Duration)>::Call(
            CallView::Do(Call::Chmod { at, mode: req.attr.mode }),
        ),
        log.len() > 0 && log[0] is Error ==> setting_attributes(fs, ctx, req, log) == StepView::<
            (Stat, Duration),
        >::Fail(log[0]->Error_0.linux, 1),
{
}

/// What an attribute's reply says is set so far.
pub open spec fn said(reply: Reply) -> Override {
    match reply {
        Reply::Bytes(value) => override_of(value@),
        _ => Override { uid: None, gid: None, mode: None },
    }
}

/// What is stored in the attribute that holds the Linux owner and mode of a file.
pub open spec fn stores_override<T>(step: StepView<T>, at: Node, o: Override) -> bool {
    match step {
        StepView::Call(CallView::Store { at: n, attr, value, options: _ }) => n == at && attr
            == Attr::Override && override_of(value) == o,
        _ => false,
    }
}

/// Under complete semantics a new mode is stored beside the file, together with
/// the owner and group that were stored before.
pub proof fn complete_modes_are_stored(
    fs: FsView,
    ctx: Context,
    req: SetattrRequest,
    at: Node,
    st: Stat,
    before: Reply,
)
    requires
        fs.cfg.semantics == PermissionSemantics::LinuxComplete,
        is_target(fs, req, at),
        req.valid & 1 == 1,
    ensures
        setting_attributes(fs, ctx, req, Seq::empty()) == StepView::<(Stat, Duration)>::Call(
            CallView::Do(Call::Stat { at }),
        ),
        setting_attributes(fs, ctx, req, seq![Reply::Stat(st)]) matches StepView::Call(
            CallView::Do(Call::GetAttr { at: n, attr: Attr::Override, .. }),
        ) && n == at,
        stores_override(
            setting_attributes(fs, ctx, req, seq![Reply::Stat(st), before]),
            at,
            Override {
                uid: said(before).uid,
                gid: said(before).gid,
                mode: Some(req.attr.mode as u32),
            },
        ),
{
    let two = seq![Reply::Stat(st), before];
    assert(two[0] == Reply::Stat(st) && two[1] == before);
    let one = seq![Reply::Stat(st)];
    assert(one[0] == Reply::Stat(st));
    override_round_trip(
        Override { uid: said(before).uid, gid: said(before).gid, mode: Some(req.attr.mode as u32) },
    );
    lemma_target(fs, req, at);
}

/// An owner or group that a request sets, if it can be set.
pub open spec fn set_id(given: bool, id: u32, before: Option<u32>) -> Option<u32> {
    if given && id < 0xffff_fffe {
        Some(id)
    } else {
        before
    }
}

/// The mode that the guest sees of a file.
pub open spec fn seen_mode(st: Stat, o: Override) -> u16 {
    match o.mode {
        Some(mode) => if (mode % 0x1_0000) as u16 & 0o170000u16 == 0 {
            (st.mode & 0o170000u16) | (mode % 0x1_0000) as u16
        } else {
            (mode % 0x1_0000) as u16
        },
        None => st.mode,
    }
}

/// Under complete semantics a new owner first costs the file its capability. Then
/// the owner and the group of the request are stored, what it does not set stays
/// as it was stored, and the mode loses the bits that would lend the new owner's
/// authority.
pub proof fn complete_owners_are_stored(
    fs: FsView,
    ctx: Context,
    req: SetattrRequest,
    at: Node,
    first: Reply,
    st: Stat,
    before: Reply,
    again: Stat,
    before2: Reply,
)
    requires
        fs.cfg.semantics == PermissionSemantics::LinuxComplete,
        is_target(fs, req, at),
        req.valid & 1 == 0,
        req.valid & 6 != 0,
    ensures
        ({
            let uid = req.valid & 2 == 2;
            let gid = req.valid & 4 == 4;
            let seen = seen_mode(st, said(before)) as u32;
            let all_set = uid && req.attr.uid < 0xffff_fffe && gid && req.attr.gid < 0xffff_fffe
                && plain_mode(seen) != seen;
            let log = seq![first, Reply::Stat(st), before, Reply::Stat(again), before2];
            let stored = if all_set {
                setting_attributes(fs, ctx, req, log.take(4))
            } else {
                setting_attributes(fs, ctx, req, log)
            };
            &&& setting_attributes(fs, ctx, req, log.take(0)) == StepView::<(Stat, Duration)>::Call(
                CallView::Do(Call::RemoveAttr { at, attr: Attr::Capability, options: 0 }),
            )
            &&& stores_override(
                stored,
                at,
                Override {
                    uid: set_id(uid, req.attr.uid, said(before2).uid),
                    gid: set_id(gid, req.attr.gid, said(before2).gid),
                    mode: if plain_mode(seen) != seen {
                        Some(plain_mode(seen))
                    } else {
                        said(before2).mode
                    },
                },
            )
        }),
{
    let valid = req.valid;
    lemma_words();
    let seen = seen_mode(st, said(before)) as u32;
    lemma_plain(seen);
    lemma_target(fs, req, at);
    let log = seq![first, Reply::Stat(st), before, Reply::Stat(again), before2];
    assert(log[0] == first && log[1] == Reply::Stat(st) && log[2] == before && log[3]
        == Reply::Stat(again) && log[4] == before2);
    let four = log.take(4);
    assert(four.len() == 4 && four[0] == first && four[1] == Reply::Stat(st) && four[2] == before
        && four[3] == Reply::Stat(again));
    let uid = req.valid & 2 == 2;
    let gid = req.valid & 4 == 4;
    let o = Override {
        uid: set_id(uid, req.attr.uid, said(before2).uid),
        gid: set_id(gid, req.attr.gid, said(before2).gid),
        mode: if plain_mode(seen) != seen {
            Some(plain_mode(seen))
        } else {
            said(before2).mode
        },
    };
    override_round_trip(o);
    assert(shedding(ctx, fs.cfg.semantics, at, req.owner(), log.take(0), 0) is Call);
    assert(0o170000u32 as u16 == 0o170000u16);
    let view = crate::override_stat::overridden(st, said(before));
    assert(view.full_mode() == seen);
    assert(viewing(ctx, fs.cfg.semantics, at, log, 1) == StepView::Done(view, 3));
    assert(viewing(ctx, fs.cfg.semantics, at, four, 1) == StepView::Done(view, 3));
}

pub(crate) proof fn lemma_plain(mode: u32)
    ensures
        plain_mode(mode) == crate::stat::unprivileged(mode),
{
    assert(mode & !0o4000u32 & !0o2000u32 == mode & !0o6000u32) by (bit_vector);
}

/// The guest metadata of a file after a request to set its attributes: the owner
/// and the group that it sets, its permission bits, and neither a capability nor
/// bits that lend authority where the owner or the contents change.
pub open spec fn changed_by(o: MetadataView, req: SetattrRequest) -> MetadataView {
    let owned = req.valid & 6 != 0;
    let sized = req.valid & 8 == 8;
    let mode = if req.valid & 1 == 1 {
        (o.mode & 0o170000) | (req.attr.mode as u32 & 0o7777)
    } else {
        o.mode
    };
    MetadataView {
        uid: if req.valid & 2 == 2 && req.attr.uid != 0xffff_ffff {
            req.attr.uid
        } else {
            o.uid
        },
        gid: if req.valid & 4 == 4 && req.attr.gid != 0xffff_ffff {
            req.attr.gid
        } else {
            o.gid
        },
        mode: if owned || (sized && req.valid & 0x800 == 0x800) {
            plain_mode(mode)
        } else {
            mode
        },
        capability: if owned || sized {
            None
        } else {
            o.capability
        },
    }
}

/// The record is stored of a file.
pub open spec fn stores_record<T>(step: StepView<T>, at: Node, m: MetadataView) -> bool {
    match step {
        StepView::Call(CallView::Store { at: n, attr, value, options: _ }) => n == at && attr
            == Attr::Record && value == m.text(),
        _ => false,
    }
}

/// The request does not ask for another file type.
pub open spec fn keeps_type(o: MetadataView, req: SetattrRequest) -> bool {
    req.valid & 1 == 1 ==> req.attr.mode as u32 & 0o170000 == 0 || req.attr.mode as u32 & 0o170000
        == o.mode & 0o170000
}

proof fn lemma_changed_by(o: MetadataView, req: SetattrRequest)
    requires
        keeps_type(o, req),
    ensures
        crate::sandbox::changed(o, req.record_change()) == Some(changed_by(o, req)),
{
    let valid = req.valid;
    let asked = req.attr.mode;
    let old_mode = o.mode;
    lemma_words();
    lemma_plain(old_mode);
    lemma_plain((old_mode & 0o170000) | (asked as u32 & 0o7777));
    assert((asked as u32) & !0o170000u32 == (asked as u32) & 0o7777 && (valid & 2 == 2 ==> valid & 6
        != 0) && (valid & 4 == 4 ==> valid & 6 != 0)) by (bit_vector);
}

/// Changing a sandbox record, as a whole.
#[verifier::opaque]
spec fn update(
    config: crate::config::SandboxConfig,
    at: Node,
    change: crate::sandbox::Change,
    log: Seq<Reply>,
) -> StepView<()> {
    updating(config, at, None, change, log, 0)
}

/// A change of a sandbox record asks for what `updating` asks for.
proof fn lemma_sandbox_call(
    fs: FsView,
    ctx: Context,
    req: SetattrRequest,
    at: Node,
    log: Seq<Reply>,
    call: CallView,
)
    requires
        fs.cfg.semantics is Sandbox,
        setattr_target(fs, req) == Ok::<Node, i32>(at),
        req.changes_record(),
        update(fs.cfg.semantics->Sandbox_0, at, req.record_change(), log) == StepView::<()>::Call(
            call,
        ),
    ensures
        whole(fs, ctx, req, log) == StepView::<(Stat, Duration)>::Call(call),
{
    reveal(whole);
    reveal(update);
}

/// A change of a file with a record.
proof fn lemma_updating_record(
    config: crate::config::SandboxConfig,
    at: Node,
    change: crate::sandbox::Change,
    st: Stat,
    size: u64,
    value: Vec<u8>,
    o: MetadataView,
    m: MetadataView,
)
    requires
        record_of(value@) == Some(o),
        o.mode & 0o170000 == st.mode as u32 & 0o170000,
        m.mode & 0o170000 == st.mode as u32 & 0o170000,
        crate::sandbox::changed(o, change) == Some(m),
    ensures
        update(
            config,
            at,
            change,
            seq![Reply::Stat(st), Reply::Count(size), Reply::Bytes(value)],
        ) == StepView::<()>::Call(
            CallView::Store {
                at,
                attr: Attr::Record,
                value: m.text(),
                options: crate::sandbox::record_options(at, st),
            },
        ),
{
    reveal(update);
    let log = seq![Reply::Stat(st), Reply::Count(size), Reply::Bytes(value)];
    assert(log[0] == Reply::Stat(st) && log[1] == Reply::Count(size) && log[2] == Reply::Bytes(
        value,
    ));
    assert(crate::sandbox::reading(at, st, log, 1) == StepView::Done(Some(o), 3));
}

/// A change of a file without a record.
proof fn lemma_updating_native(
    config: crate::config::SandboxConfig,
    at: Node,
    change: crate::sandbox::Change,
    st: Stat,
    error: crate::host::HostError,
    m: MetadataView,
)
    requires
        config.xattrs_enabled,
        change.persist_unchanged,
        error.raw == 93,
        m.mode & 0o170000 == st.mode as u32 & 0o170000,
        crate::sandbox::changed(mapped(config.identity, st), change) == Some(m),
    ensures
        update(config, at, change, seq![Reply::Stat(st), Reply::Error(error)]) == StepView::<()>::Call(
            CallView::Store {
                at,
                attr: Attr::Record,
                value: m.text(),
                options: crate::sandbox::record_options(at, st),
            },
        ),
{
    reveal(update);
    let log = seq![Reply::Stat(st), Reply::Error(error)];
    assert(log[0] == Reply::Stat(st) && log[1] == Reply::Error(error));
    assert(crate::sandbox::reading(at, st, log, 1) == StepView::<Option<MetadataView>>::Done(
        None,
        2,
    ));
}

proof fn lemma_recorded(
    fs: FsView,
    ctx: Context,
    req: SetattrRequest,
    at: Node,
    st: Stat,
    size: u64,
    value: Vec<u8>,
    o: MetadataView,
)
    requires
        fs.cfg.semantics is Sandbox,
        is_target(fs, req, at),
        req.valid & 0xf != 0,
        record_of(value@) == Some(o),
        o.mode & 0o170000 == st.mode as u32 & 0o170000,
        keeps_type(o, req),
    ensures
        ({
            let log = seq![Reply::Stat(st), Reply::Count(size), Reply::Bytes(value)];
            stores_record(whole(fs, ctx, req, log), at, changed_by(o, req))
        }),
{
    let config = fs.cfg.semantics->Sandbox_0;
    let m = changed_by(o, req);
    let log = seq![Reply::Stat(st), Reply::Count(size), Reply::Bytes(value)];
    lemma_target(fs, req, at);
    lemma_changed_by(o, req);
    lemma_valid_bits(req.valid);
    lemma_words();
    lemma_changed_kind(o, req);
    lemma_updating_record(config, at, req.record_change(), st, size, value, o, m);
    let options = crate::sandbox::record_options(at, st);
    let call = CallView::Store { at, attr: Attr::Record, value: m.text(), options };
    lemma_sandbox_call(fs, ctx, req, at, log, call);
}

/// In a sandbox a request that sets a mode, an owner or a size of a file with a
/// record replaces the record by one that differs in just what the request sets.
pub proof fn sandbox_changes_are_recorded(
    fs: FsView,
    ctx: Context,
    req: SetattrRequest,
    at: Node,
    st: Stat,
    size: u64,
    value: Vec<u8>,
    o: MetadataView,
)
    requires
        fs.cfg.semantics is Sandbox,
        is_target(fs, req, at),
        req.valid & 0xf != 0,
        record_of(value@) == Some(o),
        o.mode & 0o170000 == st.mode as u32 & 0o170000,
        keeps_type(o, req),
    ensures
        ({
            let log = seq![Reply::Stat(st), Reply::Count(size), Reply::Bytes(value)];
            stores_record(setting_attributes(fs, ctx, req, log), at, changed_by(o, req))
        }),
{
    reveal(whole);
    lemma_recorded(fs, ctx, req, at, st, size, value, o);
}

proof fn lemma_valid_bits(valid: u32)
    ensures
        valid & 0xf != 0 <==> valid & 1 == 1 || valid & 6 != 0 || valid & 8 == 8,
{
    assert(valid & 0xf != 0 <==> valid & 1 == 1 || valid & 6 != 0 || valid & 8 == 8)
        by (bit_vector);
}

proof fn lemma_changed_kind(o: MetadataView, req: SetattrRequest)
    ensures
        changed_by(o, req).mode & 0o170000 == o.mode & 0o170000,
{
    let old_mode = o.mode;
    let asked = req.attr.mode;
    assert(((old_mode & 0o170000) | (asked as u32 & 0o7777)) & 0o170000 == old_mode & 0o170000)
        by (bit_vector);
    let merged = (old_mode & 0o170000) | (asked as u32 & 0o7777);
    assert(forall|m: u32| (m & !0o6000u32) & 0o170000 == m & 0o170000 && (m & !0o4000u32)
        & 0o170000 == m & 0o170000) by (bit_vector);
}

/// The same of a file without a record: it starts from the host's mode and the
/// mapped owner.
pub proof fn sandbox_changes_start_from_the_host(
    fs: FsView,
    ctx: Context,
    req: SetattrRequest,
    at: Node,
    st: Stat,
    error: crate::host::HostError,
)
    requires
        fs.cfg.semantics is Sandbox,
        fs.cfg.semantics->Sandbox_0.xattrs_enabled,
        is_target(fs, req, at),
        req.valid & 7 != 0,
        error.raw == 93,
        ({
            let identity = fs.cfg.semantics->Sandbox_0.identity;
            keeps_type(mapped(identity, st), req)
        }),
    ensures
        ({
            let log = seq![Reply::Stat(st), Reply::Error(error)];
            let identity = fs.cfg.semantics->Sandbox_0.identity;
            stores_record(
                setting_attributes(fs, ctx, req, log),
                at,
                changed_by(mapped(identity, st), req),
            )
        }),
{
    let valid = req.valid;
    let config = fs.cfg.semantics->Sandbox_0;
    let o = mapped(config.identity, st);
    let m = changed_by(o, req);
    assert(valid & 7 != 0 ==> valid & 1 == 1 || valid & 6 != 0) by (bit_vector);
    lemma_target(fs, req, at);
    lemma_changed_by(o, req);
    lemma_changed_kind(o, req);
    lemma_words();
    lemma_updating_native(config, at, req.record_change(), st, error, m);
    let options = crate::sandbox::record_options(at, st);
    let call = CallView::Store { at, attr: Attr::Record, value: m.text(), options };
    let log = seq![Reply::Stat(st), Reply::Error(error)];
    lemma_sandbox_call(fs, ctx, req, at, log, call);
    assert(setting_attributes(fs, ctx, req, log) == StepView::<(Stat, Duration)>::Call(call)) by {
        reveal(whole);
    }
}

/// The metadata of a host file without a record: the guest's principal where the
/// host's is the mapped one, and else the overflow identity, each of user and
/// group.
pub open spec fn mapped(
    identity: crate::sandbox_metadata::IdentityMapping,
    st: Stat,
) -> MetadataView {
    MetadataView {
        uid: if st.uid == identity.host_uid {
            identity.guest_uid
        } else {
            65534
        },
        gid: if st.gid == identity.host_gid {
            identity.guest_gid
        } else {
            65534
        },
        mode: st.mode as u32,
        capability: None,
    }
}

} // verus!
