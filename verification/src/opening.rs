//! Flags of an open request, and how a file is created.

use vstd::prelude::*;
use crate::abi::{
    EEXIST, ENOENT, LINUX_O_APPEND, LINUX_O_CLOEXEC, LINUX_O_CREAT, LINUX_O_EXCL, LINUX_O_NOFOLLOW,
    LINUX_O_NONBLOCK, LINUX_O_TRUNC, O_ACCMODE, O_APPEND, O_CLOEXEC, O_CREAT, O_EXCL, O_EXLOCK,
    O_NOFOLLOW, O_NONBLOCK, O_RDWR, O_TRUNC, O_WRONLY,
};
use crate::config::CachePolicy;
use crate::host::{fd_of, Call, CallView, HostCall, HostError, Node, Reply, Step, StepView};

verus! {

/// Options of an opened file that the guest is told of.
pub const OPEN_DIRECT_IO: u32 = 1;

pub const OPEN_KEEP_CACHE: u32 = 2;

pub const OPEN_CACHE_DIR: u32 = 8;

/// `flags` with `bit` where `set`.
pub open spec fn with_flag(flags: u32, set: bool, bit: u32) -> u32 {
    if set {
        flags | bit
    } else {
        flags
    }
}

/// The host's flags for the guest's: the access mode as it is, and each flag
/// that both sides have.
pub open spec fn host_flags(flags: u32) -> u32 {
    let f = flags & 3;
    let f = with_flag(f, flags & LINUX_O_NONBLOCK != 0, O_NONBLOCK);
    let f = with_flag(f, flags & LINUX_O_APPEND != 0, O_APPEND);
    let f = with_flag(f, flags & LINUX_O_CREAT != 0, O_CREAT);
    let f = with_flag(f, flags & LINUX_O_TRUNC != 0, O_TRUNC);
    let f = with_flag(f, flags & LINUX_O_EXCL != 0, O_EXCL);
    let f = with_flag(f, flags & LINUX_O_NOFOLLOW != 0, O_NOFOLLOW);
    with_flag(f, flags & LINUX_O_CLOEXEC != 0, O_CLOEXEC)
}

/// Translates the guest's flags.
pub fn parse_open_flags(flags: u32) -> (r: u32)
    ensures
        r == host_flags(flags),
{
    let mut mflags: u32 = flags & 3;
    if flags & LINUX_O_NONBLOCK != 0 {
        mflags = mflags | O_NONBLOCK;
    }
    if flags & LINUX_O_APPEND != 0 {
        mflags = mflags | O_APPEND;
    }
    if flags & LINUX_O_CREAT != 0 {
        mflags = mflags | O_CREAT;
    }
    if flags & LINUX_O_TRUNC != 0 {
        mflags = mflags | O_TRUNC;
    }
    if flags & LINUX_O_EXCL != 0 {
        mflags = mflags | O_EXCL;
    }
    if flags & LINUX_O_NOFOLLOW != 0 {
        mflags = mflags | O_NOFOLLOW;
    }
    if flags & LINUX_O_CLOEXEC != 0 {
        mflags = mflags | O_CLOEXEC;
    }
    mflags
}

/// The host sees each flag exactly where the guest set it, the guest's access
/// mode, and no other flag.
pub proof fn flags_are_kept(flags: u32)
    ensures
        host_flags(flags) & 3 == flags & 3,
        host_flags(flags) & 0x4 != 0 <==> flags & 0x800 != 0,
        host_flags(flags) & 0x8 != 0 <==> flags & 0x400 != 0,
        host_flags(flags) & 0x200 != 0 <==> flags & 0x40 != 0,
        host_flags(flags) & 0x400 != 0 <==> flags & 0x200 != 0,
        host_flags(flags) & 0x800 != 0 <==> flags & 0x80 != 0,
        host_flags(flags) & 0x100 != 0 <==> flags & 0x8000 != 0,
        host_flags(flags) & 0x100_0000 != 0 <==> flags & 0x8_0000 != 0,
        host_flags(flags) & 0x10_0000 == 0,
        host_flags(flags) & !0x100_0f0fu32 == 0,
{
    assert({
        let a: u32 = flags & 3;
        let b: u32 = if flags & 0x800 != 0 { a | 0x4 } else { a };
        let c: u32 = if flags & 0x400 != 0 { b | 0x8 } else { b };
        let d: u32 = if flags & 0x40 != 0 { c | 0x200 } else { c };
        let e: u32 = if flags & 0x200 != 0 { d | 0x400 } else { d };
        let f: u32 = if flags & 0x80 != 0 { e | 0x800 } else { e };
        let g: u32 = if flags & 0x8000 != 0 { f | 0x100 } else { f };
        let h: u32 = if flags & 0x8_0000 != 0 { g | 0x100_0000 } else { g };
        &&& h & 3 == flags & 3
        &&& (h & 0x4 != 0 <==> flags & 0x800 != 0)
        &&& (h & 0x8 != 0 <==> flags & 0x400 != 0)
        &&& (h & 0x200 != 0 <==> flags & 0x40 != 0)
        &&& (h & 0x400 != 0 <==> flags & 0x200 != 0)
        &&& (h & 0x800 != 0 <==> flags & 0x80 != 0)
        &&& (h & 0x100 != 0 <==> flags & 0x8000 != 0)
        &&& (h & 0x100_0000 != 0 <==> flags & 0x8_0000 != 0)
        &&& h & 0x10_0000 == 0
        &&& h & !0x100_0f0fu32 == 0
    }) by (bit_vector);
}

/// The flags with which a file is opened for a guest that may cache writes: it
/// also reads what it opened for writing, and appends by itself.
pub open spec fn cached_flags(writeback: bool, flags: u32) -> u32 {
    let f = if writeback && flags & O_ACCMODE == O_WRONLY {
        (flags & !O_ACCMODE) | O_RDWR
    } else {
        flags
    };
    if writeback && f & O_APPEND != 0 {
        f & !O_APPEND
    } else {
        f
    }
}

/// How an inode is opened: never by following its last name's link again, never
/// with a lock, and never inherited.
pub open spec fn reopen_flags(writeback: bool, flags: u32) -> u32 {
    (cached_flags(writeback, flags) | O_CLOEXEC) & !O_NOFOLLOW & !O_EXLOCK
}

/// Opening an inode: by its path, or a duplicate of the descriptor that was kept
/// when its last name went.
pub open spec fn reopening(
    at: Node,
    writeback: bool,
    flags: u32,
    log: Seq<Reply>,
    pos: int,
) -> StepView<i32> {
    if pos >= log.len() {
        StepView::Call(
            CallView::Do(
                match at {
                    Node::Fd(fd) => Call::Dup { fd },
                    _ => Call::Open { at, flags: reopen_flags(writeback, flags), mode: 0 },
                },
            ),
        )
    } else {
        match fd_of(log[pos]) {
            Ok(fd) => StepView::Done(fd, pos + 1),
            Err(error) => StepView::Fail(error.linux, pos + 1),
        }
    }
}

/// Opens an inode.
pub fn open_node(
    at: Node,
    writeback: bool,
    flags: u32,
    log: &Vec<Reply>,
    pos: usize,
) -> (r: Step<i32>)
    ensures
        r@ == reopening(at, writeback, flags, log@, pos as int),
{
    let mut flags: u32 = flags;
    if writeback && flags & O_ACCMODE == O_WRONLY {
        flags = (flags & !O_ACCMODE) | O_RDWR;
    }
    if writeback && flags & O_APPEND != 0 {
        flags = flags & !O_APPEND;
    }
    if pos >= log.len() {
        return Step::Call(
            HostCall::Do(
                match at {
                    Node::Fd(fd) => Call::Dup { fd },
                    _ => Call::Open {
                        at,
                        flags: (flags | O_CLOEXEC) & !O_NOFOLLOW & !O_EXLOCK,
                        mode: 0,
                    },
                },
            ),
        );
    }
    match log[pos].fd() {
        Ok(fd) => Step::Done(fd, pos + 1),
        Err(error) => Step::Fail(error.linux, pos + 1),
    }
}

/// The flags of an open that does not create.
pub open spec fn existing_flags(flags: u32) -> u32 {
    (flags & !(O_CREAT | O_EXCL)) | O_CLOEXEC | O_NOFOLLOW
}

/// The flags of an open that creates or fails.
pub open spec fn exclusive_flags(flags: u32) -> u32 {
    existing_flags(flags) | O_CREAT | O_EXCL
}

/// Creating a file, and learning whether it is new. The file is created
/// exclusively; where the caller did not ask for that and the file exists, it is
/// opened as it is, and if it is gone by then, everything is tried again.
pub open spec fn creating(at: Node, flags: u32, mode: u32, log: Seq<Reply>, pos: int) -> StepView<
    (i32, bool),
>
    decreases log.len() - pos,
{
    if pos >= log.len() {
        StepView::Call(CallView::Do(Call::Open { at, flags: exclusive_flags(flags), mode }))
    } else {
        match fd_of(log[pos]) {
            Ok(fd) => StepView::Done((fd, true), pos + 1),
            Err(error) => if flags & O_EXCL != 0 || error.raw != EEXIST {
                StepView::Fail(error.linux, pos + 1)
            } else if pos + 1 >= log.len() {
                StepView::Call(CallView::Do(Call::Open { at, flags: existing_flags(flags), mode }))
            } else {
                match fd_of(log[pos + 1]) {
                    Ok(fd) => StepView::Done((fd, false), pos + 2),
                    Err(error) => if error.raw != ENOENT {
                        StepView::Fail(error.linux, pos + 2)
                    } else {
                        creating(at, flags, mode, log, pos + 2)
                    },
                }
            },
        }
    }
}

/// Creates a file, or opens it where it exists and the caller lets it.
pub fn open_sandbox_create(at: Node, flags: u32, mode: u32, log: &Vec<Reply>, from: usize) -> (r:
    Step<(i32, bool)>)
    ensures
        r@ == creating(at, flags, mode, log@, from as int),
{
    let exclusive: bool = flags & O_EXCL != 0;
    let base: u32 = (flags & !(O_CREAT | O_EXCL)) | O_CLOEXEC | O_NOFOLLOW;
    let mut pos: usize = from;
    loop
        invariant
            exclusive == (flags & O_EXCL != 0),
            base == existing_flags(flags),
            creating(at, flags, mode, log@, from as int) == creating(
                at,
                flags,
                mode,
                log@,
                pos as int,
            ),
        decreases log.len() - pos,
    {
        if pos >= log.len() {
            return Step::Call(
                HostCall::Do(Call::Open { at, flags: base | O_CREAT | O_EXCL, mode }),
            );
        }
        match log[pos].fd() {
            Ok(fd) => return Step::Done((fd, true), pos + 1),
            Err(error) => if exclusive || error.raw != EEXIST {
                return Step::Fail(error.linux, pos + 1);
            },
        }
        if pos + 1 >= log.len() {
            return Step::Call(HostCall::Do(Call::Open { at, flags: base, mode }));
        }
        match log[pos + 1].fd() {
            Ok(fd) => return Step::Done((fd, false), pos + 2),
            Err(error) => if error.raw != ENOENT {
                return Step::Fail(error.linux, pos + 2);
            },
        }
        pos = pos + 2;
    }
}

/// A caller that asks for a new file gets a new file or an error: no file that
/// was there before is opened for it.
pub proof fn exclusive_creation_is_exclusive(
    at: Node,
    flags: u32,
    mode: u32,
    log: Seq<Reply>,
    pos: int,
)
    requires
        flags & O_EXCL != 0,
    ensures
        match creating(at, flags, mode, log, pos) {
            StepView::Done((_, created), _) => created,
            StepView::Call(CallView::Do(Call::Open { flags: used, .. })) => used & O_EXCL != 0
                && used & O_CREAT != 0,
            StepView::Call(_) => false,
            StepView::Fail(_, _) => true,
        },
{
    let existing = existing_flags(flags);
    assert((existing | 0x200 | 0x800) & 0x800 != 0 && (existing | 0x200 | 0x800) & 0x200 != 0)
        by (bit_vector);
}

/// A file is created exclusively first. Where it exists, and the caller lets it,
/// it is opened as it is, and where it is gone by then it is created once more; any
/// other failure is the caller's.
pub proof fn creation_is_tried_in_turn(
    at: Node,
    flags: u32,
    mode: u32,
    fd: i32,
    exists: HostError,
    gone: HostError,
    error: HostError,
)
    requires
        exists.raw == 17,
        gone.raw == 2,
        error.raw != 17 && error.raw != 2,
    ensures
        ({
            let run = |log: Seq<Reply>| creating(at, flags, mode, log, 0);
            let base = (flags & !(0x200u32 | 0x800)) | 0x100_0000 | 0x100;
            let first = StepView::<(i32, bool)>::Call(
                CallView::Do(Call::Open { at, flags: base | 0x200 | 0x800, mode }),
            );
            let there = Reply::Error(exists);
            &&& run(Seq::empty()) == first
            &&& run(seq![Reply::Fd(fd)]) == StepView::Done((fd, true), 1)
            &&& run(seq![Reply::Error(error)]) == StepView::<(i32, bool)>::Fail(error.linux, 1)
            &&& flags & 0x800 != 0 ==> run(seq![there]) == StepView::<(i32, bool)>::Fail(
                exists.linux,
                1,
            )
            &&& flags & 0x800 == 0 ==> {
                &&& run(seq![there]) == StepView::<(i32, bool)>::Call(
                    CallView::Do(Call::Open { at, flags: base, mode }),
                )
                &&& run(seq![there, Reply::Fd(fd)]) == StepView::Done((fd, false), 2)
                &&& run(seq![there, Reply::Error(error)]) == StepView::<(i32, bool)>::Fail(
                    error.linux,
                    2,
                )
                &&& run(seq![there, Reply::Error(gone)]) == first
            }
        }),
{
    reveal_with_fuel(creating, 3);
}

/// What the guest is told of an opened file: direct I/O where nothing may be
/// cached, or that the cache stays good. A directory has no contents to read
/// directly or to keep: it is never opened for direct I/O, and what the client may
/// keep of it under `Always` is its listing. Whether it is a directory is said by
/// the request that opens it, not by its flags.
pub open spec fn open_options(policy: CachePolicy, directory: bool) -> u32 {
    match policy {
        CachePolicy::Never => if directory {
            0
        } else {
            OPEN_DIRECT_IO
        },
        CachePolicy::Always => if directory {
            OPEN_CACHE_DIR
        } else {
            OPEN_KEEP_CACHE
        },
        CachePolicy::Auto => 0,
    }
}

/// Direct I/O is for files alone, and where nothing may be cached; what a client
/// caches of a directory is not taken for file contents.
pub proof fn direct_io_is_for_files(policy: CachePolicy, directory: bool)
    ensures
        open_options(policy, directory) & 1 != 0 <==> policy == CachePolicy::Never && !directory,
        open_options(policy, directory) & 8 != 0 <==> policy == CachePolicy::Always && directory,
        open_options(policy, directory) & 2 != 0 <==> policy == CachePolicy::Always && !directory,
{
    assert(0u32 & 1 == 0 && 0u32 & 2 == 0 && 0u32 & 8 == 0 && 1u32 & 1 == 1 && 1u32 & 2 == 0 && 1u32
        & 8 == 0 && 2u32 & 1 == 0 && 2u32 & 2 == 2 && 2u32 & 8 == 0 && 8u32 & 1 == 0 && 8u32 & 2
        == 0 && 8u32 & 8 == 8) by (bit_vector);
}

/// The options of an open file or directory.
pub fn options_for(policy: CachePolicy, directory: bool) -> (r: u32)
    ensures
        r == open_options(policy, directory),
{
    match policy {
        CachePolicy::Never => if directory {
            0
        } else {
            OPEN_DIRECT_IO
        },
        CachePolicy::Always => if directory {
            OPEN_CACHE_DIR
        } else {
            OPEN_KEEP_CACHE
        },
        CachePolicy::Auto => 0,
    }
}

/// The guest's flags come to the host's, flag by flag, and the guest is told of an
/// open file what the policy says.
pub proof fn flags_and_options_are_translated(
    flags: u32,
    r: u32,
    policy: CachePolicy,
    directory: bool,
    options: u32,
)
    requires
        call_ensures(parse_open_flags, (flags,), r),
        call_ensures(options_for, (policy, directory), options),
    ensures
        r & 3 == flags & 3,
        r & 0x4 != 0 <==> flags & 0x800 != 0,
        r & 0x8 != 0 <==> flags & 0x400 != 0,
        r & 0x200 != 0 <==> flags & 0x40 != 0,
        r & 0x400 != 0 <==> flags & 0x200 != 0,
        r & 0x800 != 0 <==> flags & 0x80 != 0,
        r & 0x100 != 0 <==> flags & 0x8000 != 0,
        r & 0x100_0000 != 0 <==> flags & 0x8_0000 != 0,
        r & !0x100_0f0fu32 == 0,
        options == match (policy, directory) {
            (CachePolicy::Never, false) => 1u32,
            (CachePolicy::Always, false) => 2,
            (CachePolicy::Always, true) => 8,
            _ => 0,
        },
{
    flags_are_kept(flags);
}

} // verus!
