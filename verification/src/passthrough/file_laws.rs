//! What requests on open files and on mapped files ask of the host, call by call.

use vstd::prelude::*;
use crate::attributes::shedding;
use crate::bits::lemma_words;
use crate::config::{CachePolicy, PermissionSemantics};
use crate::host::{single, Attr, Call, CallView, HostError, Node, Reply, StepView};
use crate::opening::{host_flags, reopen_flags};
use crate::stat::{Context, Stat};
use super::effects::{file_of, reached};
use super::io::{
    allocating, flushing, opened, opening_file, reading_file, resolving_link, seeking, uncut,
    writing_file,
};
use super::mapping::{mapping, unmapping, withdrawing, MapRequest, SharedRegion, UnmapRequest};
use super::{opening_inode, FsView};

verus! {

/// The host's flags `f` are what a guest asked for by `flags`: the access mode and
/// each flag that both sides have, and nothing else but that the descriptor is not
/// inherited. Under `writeback` the guest reads what it writes to and appends by
/// itself; where `uncut`, the host does not cut the file.
pub open spec fn opens_as(f: u32, flags: u32, writeback: bool, uncut: bool) -> bool {
    &&& f & 3 == if writeback && flags & 3 == 1 {
        2
    } else {
        flags & 3
    }
    &&& f & 0x4 != 0 <==> flags & 0x800 != 0
    &&& f & 0x8 != 0 <==> flags & 0x400 != 0 && !writeback
    &&& f & 0x200 != 0 <==> flags & 0x40 != 0
    &&& f & 0x400 != 0 <==> flags & 0x200 != 0 && !uncut
    &&& f & 0x800 != 0 <==> flags & 0x80 != 0
    &&& f & 0x100_0000 != 0
    &&& f & !0x100_0e0fu32 == 0
}

proof fn lemma_open_bits(flags: u32, writeback: bool, sandboxed: bool)
    ensures
        ({
            let parsed = host_flags(flags);
            let cut = if sandboxed && parsed & 0x400 != 0 {
                parsed & !0x400
            } else {
                parsed
            };
            &&& opens_as(reopen_flags(writeback, cut), flags, writeback, sandboxed)
            &&& parsed & 0x400 != 0 <==> flags & 0x200 != 0
        }),
{
    let parsed = host_flags(flags);
    assert({
        let a: u32 = flags & 3;
        let b: u32 = if flags & 0x800 != 0 { a | 0x4 } else { a };
        let c: u32 = if flags & 0x400 != 0 { b | 0x8 } else { b };
        let d: u32 = if flags & 0x40 != 0 { c | 0x200 } else { c };
        let e: u32 = if flags & 0x200 != 0 { d | 0x400 } else { d };
        let g: u32 = if flags & 0x80 != 0 { e | 0x800 } else { e };
        let h: u32 = if flags & 0x8000 != 0 { g | 0x100 } else { g };
        let i: u32 = if flags & 0x8_0000 != 0 { h | 0x100_0000 } else { h };
        let cut: u32 = if sandboxed && i & 0x400 != 0 { i & !0x400u32 } else { i };
        let w: u32 = if writeback && cut & 3 == 1 { (cut & !3u32) | 2 } else { cut };
        let x: u32 = if writeback && w & 0x8 != 0 { w & !0x8u32 } else { w };
        let f: u32 = (x | 0x100_0000) & !0x100u32 & !0x20u32;
        &&& (writeback && flags & 3 == 1 ==> f & 3 == 2)
        &&& (!(writeback && flags & 3 == 1) ==> f & 3 == flags & 3)
        &&& (f & 0x4 != 0 <==> flags & 0x800 != 0)
        &&& (f & 0x8 != 0 <==> flags & 0x400 != 0 && !writeback)
        &&& (f & 0x200 != 0 <==> flags & 0x40 != 0)
        &&& (f & 0x400 != 0 <==> flags & 0x200 != 0 && !sandboxed)
        &&& (f & 0x800 != 0 <==> flags & 0x80 != 0)
        &&& f & 0x100_0000 != 0
        &&& f & !0x100_0e0fu32 == 0
        &&& (i & 0x400 != 0 <==> flags & 0x200 != 0)
    }) by (bit_vector);
}

/// An open opens the inode's host file, or duplicates the descriptor that the
/// inode kept, with the guest's flags; what the host refuses is refused. A file
/// that is not to be cut is open then, and so is one that the host has cut.
pub proof fn open_opens_the_inode(
    fs: FsView,
    ctx: Context,
    inode: u64,
    kill_priv: bool,
    flags: u32,
    fd: i32,
    error: HostError,
)
    requires
        fs.inodes.contains_key(inode),
    ensures
        ({
            let open = |log: Seq<Reply>| opening_file(fs, ctx, inode, kill_priv, flags, log);
            let kept = fs.inodes[inode].unlinked_fd;
            let sandboxed = fs.cfg.semantics is Sandbox;
            &&& kept >= 0 ==> open(Seq::empty()) == StepView::<i32>::Call(
                CallView::Do(Call::Dup { fd: kept }),
            )
            &&& kept < 0 ==> exists|f: u32| #[trigger]
                opens_as(f, flags, fs.writeback, sandboxed) && open(Seq::empty()) == StepView::<
                    i32,
                >::Call(CallView::Do(Call::Open { at: file_of(fs, inode), flags: f, mode: 0 }))
            &&& open(seq![Reply::Error(error)]) == StepView::<i32>::Fail(error.linux, 1)
            &&& flags & 0x200 == 0 ==> open(seq![Reply::Fd(fd)]) == StepView::Done(fd, 1)
            &&& !sandboxed && !kill_priv ==> open(seq![Reply::Fd(fd)]) == StepView::Done(fd, 1)
        }),
{
    let sandboxed = fs.cfg.semantics is Sandbox;
    lemma_open_bits(flags, fs.writeback, sandboxed);
    let f = reopen_flags(fs.writeback, uncut(fs.cfg.semantics, host_flags(flags)));
    assert(opens_as(f, flags, fs.writeback, sandboxed));
}

/// An inode that is not known is not opened, read or mapped.
pub proof fn unknown_inodes_are_not_opened(
    fs: FsView,
    ctx: Context,
    inode: u64,
    kill_priv: bool,
    flags: u32,
    log: Seq<Reply>,
)
    requires
        !fs.inodes.contains_key(inode),
    ensures
        opening_file(fs, ctx, inode, kill_priv, flags, log) == StepView::<i32>::Fail(9, 0),
        opening_inode(fs, inode, flags, log, 0) == StepView::<i32>::Fail(9, 0),
        resolving_link(fs, inode, log) == StepView::<Seq<u8>>::Fail(9, 0),
{
}

/// An open that succeeds hands out the next handle, under which the descriptor
/// that the host opened is found for that inode, and changes nothing else. The
/// guest is told of direct I/O for a file of which nothing may be cached, and of
/// what it may keep where everything may.
pub proof fn opened_files_are_the_hosts(
    before: FsView,
    ctx: Context,
    inode: u64,
    kill_priv: bool,
    flags: u32,
    directory: bool,
    log: Seq<Reply>,
    handle: u64,
    options: u32,
    n: int,
    after: FsView,
)
    requires
        opened(
            before,
            ctx,
            inode,
            kill_priv,
            flags,
            directory,
            log,
            StepView::Done((handle, options), n),
            after,
        ),
    ensures
        log.len() > 0,
        log[0] is Fd,
        handle == before.handles.next,
        after.handles.open.dom() == before.handles.open.dom().insert(handle),
        after.handles.open[handle].inode == inode,
        after.handles.open[handle].fd == log[0]->Fd_0,
        after.handles.open[handle].stream.entries.len() == 0,
        !after.handles.open[handle].stream.ready,
        forall|other: u64|
            other != handle ==> #[trigger] after.handles.open[other] == before.handles.open[other],
        handle < u64::MAX ==> after.handles.next == handle + 1,
        after.inodes == before.inodes,
        after.cfg == before.cfg,
        after.windows == before.windows,
        after.writeback == before.writeback,
        after.submounts == before.submounts,
        options == match (before.cfg.cache_policy, directory) {
            (CachePolicy::Never, false) => 1u32,
            (CachePolicy::Always, false) => 2,
            (CachePolicy::Always, true) => 8,
            _ => 0,
        },
{
    assert(after.handles.open.dom() =~= before.handles.open.dom().insert(handle));
}

/// An open that does not succeed hands out nothing.
pub proof fn failed_opens_change_nothing(
    before: FsView,
    ctx: Context,
    inode: u64,
    kill_priv: bool,
    flags: u32,
    directory: bool,
    log: Seq<Reply>,
    step: StepView<(u64, u32)>,
    after: FsView,
)
    requires
        opened(before, ctx, inode, kill_priv, flags, directory, log, step, after),
        !(step is Done),
    ensures
        after == before,
{
}

/// What the host refuses of a read or of a write is answered with its own number.
pub proof fn refused_transfers_keep_the_hosts_number(
    fs: FsView,
    ctx: Context,
    fd: i32,
    size: u32,
    offset: u64,
    kill_priv: bool,
    error: HostError,
)
    ensures
        reading_file(fd, size, offset, seq![Reply::Error(error)]) == StepView::<u64>::Fail(
            error.raw,
            1,
        ),
        !(fs.cfg.semantics is Sandbox) ==> writing_file(
            fs,
            ctx,
            fd,
            size,
            offset,
            kill_priv,
            seq![Reply::Error(error)],
        ) == StepView::<u64>::Fail(error.raw, 1),
{
}

/// A number with a sign and one without that have the same bits.
pub open spec fn same_bits(s: i64, n: u64) -> bool {
    if n < 0x8000_0000_0000_0000 {
        s == n
    } else {
        s == n - 0x1_0000_0000_0000_0000
    }
}

/// All of a file counts as data, and its end as a hole: a search for data stays
/// where it is, one for a hole goes to the offset from the end. Any other seek is
/// the host's, and so is its answer.
pub proof fn seeks_are_the_hosts(
    fd: i32,
    offset: u64,
    whence: u32,
    log: Seq<Reply>,
    count: u64,
    error: HostError,
)
    ensures
        seeking(fd, offset, 3, log) == StepView::Done(offset, 0),
        whence != 3 ==> {
            &&& exists|s: i64| #[trigger]
                same_bits(s, offset) && seeking(fd, offset, whence, Seq::empty()) == StepView::<
                    u64,
                >::Call(
                    CallView::Do(
                        Call::Seek {
                            fd,
                            offset: s,
                            whence: if whence == 4 {
                                2
                            } else {
                                whence
                            },
                        },
                    ),
                )
            &&& seeking(fd, offset, whence, seq![Reply::Count(count)]) == StepView::Done(count, 1)
            &&& seeking(fd, offset, whence, seq![Reply::Error(error)]) == StepView::<u64>::Fail(
                error.linux,
                1,
            )
        },
{
    assert(same_bits(super::io::signed(offset), offset));
}

/// A part of a file is given back only where the guest says that the size stays,
/// and then exactly that part.
pub proof fn holes_are_punched_as_asked(
    fd: i32,
    mode: u32,
    offset: u64,
    length: u64,
    log: Seq<Reply>,
    granted: Reply,
    error: HostError,
)
    ensures
        mode & !3u32 != 0 ==> allocating(fd, mode, offset, length, log) == StepView::<()>::Fail(
            95,
            0,
        ),
        mode & !3u32 == 0 && mode & 2 != 0 && mode & 1 == 0 ==> allocating(
            fd,
            mode,
            offset,
            length,
            log,
        ) == StepView::<()>::Fail(22, 0),
        mode & !3u32 == 0 && mode & 2 != 0 && mode & 1 != 0 ==> {
            &&& exists|o: i64, l: i64| #[trigger]
                same_bits(o, offset) && #[trigger] same_bits(l, length) && allocating(
                    fd,
                    mode,
                    offset,
                    length,
                    Seq::empty(),
                ) == StepView::<()>::Call(CallView::Do(Call::PunchHole { fd, offset: o, length: l }))
            &&& !(granted is Error) ==> allocating(fd, mode, offset, length, seq![granted])
                == StepView::Done((), 1)
            &&& allocating(fd, mode, offset, length, seq![Reply::Error(error)]) == StepView::<
                (),
            >::Fail(error.linux, 1)
        },
{
    lemma_words();
    assert(same_bits(super::io::signed(offset), offset));
    assert(same_bits(super::io::signed(length), length));
}

/// A file is extended up to the end of the part that the guest asks for: its
/// size, or where that stays its blocks. A file that reaches as far is left alone.
pub proof fn files_are_extended_as_asked(
    fd: i32,
    mode: u32,
    offset: u64,
    length: u64,
    st: Stat,
    granted: Reply,
    error: HostError,
)
    requires
        mode & !3u32 == 0,
        mode & 2 == 0,
        offset + length < 0x8000_0000_0000_0000,
        -0x8000_0000_0000_0000 <= st.blocks * 512 < 0x8000_0000_0000_0000,
        offset + length - st.blocks * 512 < 0x8000_0000_0000_0000,
        !(granted is Error),
    ensures
        ({
            let run = |log: Seq<Reply>| allocating(fd, mode, offset, length, log);
            let end = offset + length;
            let reaches = if mode & 1 != 0 {
                st.blocks * 512 >= end
            } else {
                st.size >= end
            };
            let seen = seq![Reply::Stat(st)];
            &&& run(Seq::empty()) == StepView::<()>::Call(
                CallView::Do(Call::Stat { at: Node::Fd(fd) }),
            )
            &&& run(seq![Reply::Error(error)]) == StepView::<()>::Fail(error.linux, 1)
            &&& reaches ==> run(seen) == StepView::Done((), 1)
            &&& !reaches && mode & 1 != 0 ==> run(seen) == StepView::<()>::Call(
                CallView::Do(Call::Preallocate { fd, length: (end - st.blocks * 512) as i64 }),
            )
            &&& !reaches && mode & 1 == 0 ==> run(seen) == StepView::<()>::Call(
                CallView::Do(Call::Truncate { fd, size: end as i64 }),
            )
            &&& !reaches ==> run(seen.push(granted)) == StepView::Done((), 2)
            &&& !reaches ==> run(seen.push(Reply::Error(error))) == StepView::<()>::Fail(
                error.linux,
                2,
            )
        }),
{
    lemma_words();
    let seen = seq![Reply::Stat(st)];
    assert(seen.push(granted)[1] == granted && seen.push(granted)[0] == Reply::Stat(st));
    assert(seen.push(Reply::Error(error))[0] == Reply::Stat(st));
}

/// A flush closes a duplicate of the descriptor, and never the descriptor; a sync
/// syncs the descriptor. Each answers what the host does.
pub proof fn flushes_leave_the_descriptor(fd: i32, copy: i32, granted: Reply, error: HostError)
    requires
        !(granted is Error),
    ensures
        flushing(fd, Seq::empty()) == StepView::<()>::Call(CallView::Do(Call::Dup { fd })),
        flushing(fd, seq![Reply::Error(error)]) == StepView::<()>::Fail(error.linux, 1),
        flushing(fd, seq![Reply::Fd(copy)]) == StepView::<()>::Call(
            CallView::Do(Call::Close { fd: copy }),
        ),
        flushing(fd, seq![Reply::Fd(copy), granted]) == StepView::Done((), 2),
        flushing(fd, seq![Reply::Fd(copy), Reply::Error(error)]) == StepView::<()>::Fail(
            error.linux,
            2,
        ),
        single(Call::Sync { fd }, Seq::empty(), 0) == StepView::<()>::Call(
            CallView::Do(Call::Sync { fd }),
        ),
        single(Call::Sync { fd }, seq![granted], 0) == StepView::Done((), 1),
        single(Call::Sync { fd }, seq![Reply::Error(error)], 0) == StepView::<()>::Fail(
            error.linux,
            1,
        ),
{
}

/// The target of a link is read from the inode itself, and answered as the host
/// has it.
pub proof fn links_are_read_as_they_are(
    fs: FsView,
    inode: u64,
    target: Vec<u8>,
    error: HostError,
)
    requires
        fs.inodes.contains_key(inode),
    ensures
        resolving_link(fs, inode, Seq::empty()) == StepView::<Seq<u8>>::Call(
            CallView::Do(Call::ReadLink { at: reached(fs, inode) }),
        ),
        resolving_link(fs, inode, seq![Reply::Bytes(target)]) == StepView::Done(target@, 1),
        resolving_link(fs, inode, seq![Reply::Error(error)]) == StepView::<Seq<u8>>::Fail(
            error.linux,
            1,
        ),
{
}

/// A mapping maps the part of the inode's file that was asked for, writable only
/// if that was asked for, closes the file again, and shows the guest that memory
/// at the place it asked for. What the guest could not be shown is unmapped, and
/// what lies outside the shared memory is refused.
pub proof fn mappings_are_as_asked(
    fs: FsView,
    region: SharedRegion,
    req: MapRequest,
    log: Seq<Reply>,
    fd: i32,
    addr: u64,
    closed: Reply,
    shown: u64,
    unmapped: Reply,
    error: HostError,
)
    requires
        fs.inodes.contains_key(req.inode),
        region.guest_base + req.offset <= u64::MAX,
        shown != 0,
    ensures
        ({
            let run = |log: Seq<Reply>| mapping(fs, region, req, log);
            let writable = req.flags & 1 != 0;
            let guest = (region.guest_base + req.offset) as u64;
            let kept = fs.inodes[req.inode].unlinked_fd;
            let opened = Reply::Fd(fd);
            let mapped = Reply::Count(addr);
            &&& !region.connected ==> run(log) == StepView::<(u64, u64)>::Fail(38, 0)
            &&& region.connected && req.offset + req.len > region.size ==> run(log) == StepView::<
                (u64, u64),
            >::Fail(22, 0)
            &&& region.connected && req.offset + req.len <= region.size ==> {
                &&& run(Seq::empty()) == StepView::<(u64, u64)>::Call(
                    CallView::Do(
                        if kept >= 0 {
                            Call::Dup { fd: kept }
                        } else {
                            Call::Open {
                                at: file_of(fs, req.inode),
                                flags: if writable {
                                    0x100_0002
                                } else {
                                    0x100_0000
                                },
                                mode: 0,
                            }
                        },
                    ),
                )
                &&& run(seq![Reply::Error(error)]) == StepView::<(u64, u64)>::Fail(error.linux, 1)
                &&& run(seq![opened]) == StepView::<(u64, u64)>::Call(
                    CallView::Do(
                        Call::MapFile {
                            fd,
                            len: req.len,
                            prot: if writable {
                                3
                            } else {
                                1
                            },
                            offset: req.file_offset,
                        },
                    ),
                )
                &&& run(seq![opened, Reply::Error(error)]) == StepView::<(u64, u64)>::Call(
                    CallView::Do(Call::Close { fd }),
                )
                &&& run(seq![opened, Reply::Error(error), closed]) == StepView::<(u64, u64)>::Fail(
                    error.linux,
                    3,
                )
                &&& run(seq![opened, mapped]) == StepView::<(u64, u64)>::Call(
                    CallView::Do(Call::Close { fd }),
                )
                &&& run(seq![opened, mapped, closed]) == StepView::<(u64, u64)>::Call(
                    CallView::Do(Call::AddMapping { host: addr, guest, len: req.len }),
                )
                &&& run(seq![opened, mapped, closed, Reply::Count(shown)]) == StepView::Done(
                    (guest, addr),
                    4,
                )
                &&& run(seq![opened, mapped, closed, Reply::Count(0)]) == StepView::<
                    (u64, u64),
                >::Call(CallView::Do(Call::UnmapFile { addr, len: req.len }))
                &&& run(seq![opened, mapped, closed, Reply::Count(0), unmapped]) == StepView::<
                    (u64, u64),
                >::Fail(22, 5)
                &&& run(seq![opened, mapped, closed, Reply::Error(error)]) == StepView::<
                    (u64, u64),
                >::Call(CallView::Do(Call::UnmapFile { addr, len: req.len }))
                &&& run(seq![opened, mapped, closed, Reply::Error(error), unmapped]) == StepView::<
                    (u64, u64),
                >::Fail(22, 5)
            }
        }),
{
    lemma_words();
}

/// One mapping is taken away from the guest first and then from the host: the
/// memory that is behind the guest's address, all of it.
pub proof fn unmappings_are_as_asked(
    windows: Map<u64, u64>,
    region: SharedRegion,
    req: UnmapRequest,
    log: Seq<Reply>,
    taken: u64,
    granted: Reply,
    error: HostError,
)
    requires
        region.guest_base + req.offset <= u64::MAX,
        taken != 0,
        !(granted is Error),
    ensures
        ({
            let run = |log: Seq<Reply>| unmapping(windows, region, seq![req], 0, log, 0);
            let guest = (region.guest_base + req.offset) as u64;
            let addr = windows[guest];
            let refused = req.offset + req.len > region.size || !windows.contains_key(guest);
            &&& refused ==> run(log).step == StepView::<()>::Fail(22, 0) && run(log).windows
                == windows
            &&& !refused ==> {
                &&& run(log).windows == windows.remove(guest)
                &&& run(Seq::empty()).step == StepView::<()>::Call(
                    CallView::Do(Call::RemoveMapping { guest, len: req.len }),
                )
                &&& run(seq![Reply::Count(0)]).step == StepView::<()>::Fail(22, 1)
                &&& run(seq![Reply::Count(taken)]).step == StepView::<()>::Call(
                    CallView::Do(Call::UnmapFile { addr, len: req.len }),
                )
                &&& run(seq![Reply::Count(taken), granted]).step == StepView::Done((), 2)
                &&& run(seq![Reply::Count(taken), Reply::Error(error)]).step == StepView::<
                    (),
                >::Fail(error.linux, 2)
            }
        }),
{
    reveal_with_fuel(unmapping, 3);
    assert(seq![req][0] == req);
}

/// Several mappings are taken away one after the other: when all are, none of
/// them is known any more, and every other one still is.
pub proof fn unmappings_take_all_away(
    windows: Map<u64, u64>,
    region: SharedRegion,
    requests: Seq<UnmapRequest>,
    index: int,
    log: Seq<Reply>,
    pos: int,
    guest: u64,
)
    requires
        0 <= index <= requests.len(),
        unmapping(windows, region, requests, index, log, pos).step is Done,
        forall|i: int|
            0 <= i < requests.len() ==> region.guest_base + (#[trigger] requests[i]).offset
                <= u64::MAX,
    ensures
        ({
            let after = unmapping(windows, region, requests, index, log, pos).windows;
            let asked = exists|i: int|
                index <= i < requests.len() && region.guest_base + (#[trigger] requests[i]).offset
                    == guest;
            &&& asked ==> windows.contains_key(guest) && !after.contains_key(guest)
            &&& !asked ==> (after.contains_key(guest) <==> windows.contains_key(guest))
            &&& !asked && windows.contains_key(guest) ==> after[guest] == windows[guest]
        }),
    decreases requests.len() - index,
{
    if index < requests.len() {
        let req = requests[index];
        let first = (region.guest_base + req.offset) as u64;
        let rest = windows.remove(first);
        if let StepView::Done(_, next) = withdrawing(windows[first], first, req.len, log, pos) {
            unmappings_take_all_away(rest, region, requests, index + 1, log, next, guest);
            let after = unmapping(rest, region, requests, index + 1, log, next).windows;
            assert(unmapping(windows, region, requests, index, log, pos).windows == after);
            if exists|i: int|
                index <= i < requests.len() && region.guest_base + (#[trigger] requests[i]).offset
                    == guest {
                let i = choose|i: int|
                    index <= i < requests.len() && region.guest_base + (
                    #[trigger] requests[i]).offset == guest;
                if first == guest {
                    assert(!rest.contains_key(guest));
                }
            }
            assert(requests[index] == req);
        }
    }
}

/// How far taking privileges away comes: to the capability, to a look at the file,
/// and no further where the file cannot be looked at.
proof fn lemma_shedding_starts(
    ctx: Context,
    semantics: PermissionSemantics,
    fd: i32,
    log: Seq<Reply>,
    pos: int,
)
    requires
        !(semantics is Sandbox),
        0 <= pos,
    ensures
        ({
            let step = shedding(ctx, semantics, Node::Fd(fd), None, log, pos);
            &&& log.len() == pos ==> step == StepView::<()>::Call(
                CallView::Do(
                    Call::RemoveAttr { at: Node::Fd(fd), attr: Attr::Capability, options: 0 },
                ),
            )
            &&& log.len() == pos + 1 ==> step == StepView::<()>::Call(
                CallView::Do(Call::Stat { at: Node::Fd(fd) }),
            )
            &&& log.len() == pos + 2 && log[pos + 1] is Error ==> step == StepView::<()>::Fail(
                log[pos + 1]->Error_0.linux,
                pos + 2,
            )
        }),
{
}

/// A write, or an open that cuts the file, takes the file's privileges away where
/// that was asked for, and succeeds although it could not.
pub proof fn privileges_go_as_far_as_they_can(
    fs: FsView,
    ctx: Context,
    inode: u64,
    flags: u32,
    fd: i32,
    size: u32,
    offset: u64,
    count: u64,
    removed: Reply,
    error: HostError,
)
    requires
        !(fs.cfg.semantics is Sandbox),
        fs.inodes.contains_key(inode),
        flags & 0x200 != 0,
    ensures
        ({
            let open = |log: Seq<Reply>| opening_file(fs, ctx, inode, true, flags, log);
            let write = |log: Seq<Reply>| writing_file(fs, ctx, fd, size, offset, true, log);
            let strip = CallView::Do(
                Call::RemoveAttr { at: Node::Fd(fd), attr: Attr::Capability, options: 0 },
            );
            let look = CallView::Do(Call::Stat { at: Node::Fd(fd) });
            let (opened, written) = (Reply::Fd(fd), Reply::Count(count));
            &&& open(seq![opened]) == StepView::<i32>::Call(strip)
            &&& open(seq![opened, removed]) == StepView::<i32>::Call(look)
            &&& open(seq![opened, removed, Reply::Error(error)]) == StepView::Done(fd, 3)
            &&& write(seq![written]) == StepView::<u64>::Call(strip)
            &&& write(seq![written, removed]) == StepView::<u64>::Call(look)
            &&& write(seq![written, removed, Reply::Error(error)]) == StepView::Done(count, 3)
        }),
{
    crate::opening::flags_are_kept(flags);
    let semantics = fs.cfg.semantics;
    let (opened, written, no) = (Reply::Fd(fd), Reply::Count(count), Reply::Error(error));
    lemma_shedding_starts(ctx, semantics, fd, seq![opened], 1);
    lemma_shedding_starts(ctx, semantics, fd, seq![opened, removed], 1);
    lemma_shedding_starts(ctx, semantics, fd, seq![opened, removed, no], 1);
    lemma_shedding_starts(ctx, semantics, fd, seq![written], 1);
    lemma_shedding_starts(ctx, semantics, fd, seq![written, removed], 1);
    lemma_shedding_starts(ctx, semantics, fd, seq![written, removed, no], 1);
}

} // verus!
