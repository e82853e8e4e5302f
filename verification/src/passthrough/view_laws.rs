//! What the guest is told of files, call by call: which file is looked at, what
//! is made of the host's replies, and what is remembered of it.

use vstd::prelude::*;
use crate::attributes::{labelling, shedding, stating, viewing};
use crate::bits::lemma_words;
use crate::config::{Config, Duration, PermissionSemantics, SandboxConfig};
use crate::host::{Attr, Call, CallView, HostError, Node, Reply, Slot, StepView};
use crate::inodes::{denotes, forgotten, lemma_inode_of, released, well_numbered, InodeData};
use crate::override_stat::{override_of, override_round_trip, Override};
use crate::sandbox_metadata::{record_of, MetadataView};
use crate::stat::{Context, Stat};
use super::effects::{name_in, reached};
use super::{
    checking, constructing, entering, entering_file, finding_root, getting, initialised,
    looking_up, negotiated, Entry, FsView,
};

verus! {

proof fn lemma_view_bits(a: u16, low: u16, mode: u32)
    ensures
        low & 0o170000 == 0 ==> ((a & 0o170000) | low) & 0o170000 == a & 0o170000 && ((a & 0o170000)
            | low) & 0o7777 == low,
        mode & 0o010 == 0 ==> is_plain(mode & !0o4000u32, mode),
        mode & 0o010 != 0 ==> is_plain(mode & !0o4000u32 & !0o2000u32, mode),
        (mode & !0o4000u32) & 0o170000 == mode & 0o170000,
        (mode & !0o4000u32 & !0o2000u32) & 0o170000 == mode & 0o170000,
{
    assert((low & 0o170000 == 0 ==> ((a & 0o170000) | low) & 0o170000 == a & 0o170000 && ((a
        & 0o170000) | low) & 0o7777 == low) && (mode & 0o010 == 0 ==> (mode
        & !0o4000u32) & 0o4000 == 0 && (mode & !0o4000u32) | 0o4000 == mode | 0o4000) && (mode
        & 0o010 != 0 ==> (mode & !0o4000u32 & !0o2000u32) & 0o6000 == 0 && (mode & !0o4000u32
        & !0o2000u32) | 0o6000 == mode | 0o6000) && (mode & !0o4000u32) & 0o170000 == mode & 0o170000
        && (mode & !0o4000u32 & !0o2000u32) & 0o170000 == mode & 0o170000) by (bit_vector);
}

/// A mode without the bits that lend a file's authority, and with all others: the
/// set-user bit goes, and the set-group bit where the group may execute.
pub open spec fn is_plain(m: u32, mode: u32) -> bool {
    if mode & 0o010 == 0 {
        m & 0o4000 == 0 && m | 0o4000 == mode | 0o4000
    } else {
        m & 0o6000 == 0 && m | 0o6000 == mode | 0o6000
    }
}

/// What the guest sees of a file with the host attributes `st` where an attribute
/// sets `o`: each part that is set in place of the host's, a mode without a file
/// type behind the file's own type, and all else as the host has it.
pub open spec fn is_overridden(seen: Stat, st: Stat, o: Override) -> bool {
    &&& seen.uid == match o.uid {
        Some(uid) => uid,
        None => st.uid,
    }
    &&& seen.gid == match o.gid {
        Some(gid) => gid,
        None => st.gid,
    }
    &&& match o.mode {
        None => seen.mode == st.mode,
        Some(mode) => {
            let low = (mode % 0x1_0000) as u16;
            if low & 0o170000 == 0 {
                seen.mode & 0o170000 == st.mode & 0o170000 && seen.mode & 0o7777 == low
            } else {
                seen.mode == low
            }
        },
    }
    &&& seen == (Stat { uid: seen.uid, gid: seen.gid, mode: seen.mode, ..st })
}

/// Under simplified semantics a file is the guest's own, and all else is as the
/// host has it.
pub proof fn simplified_views_are_the_hosts(
    ctx: Context,
    at: Node,
    st: Stat,
    error: HostError,
)
    ensures
        ({
            let run = |log: Seq<Reply>|
                viewing(ctx, PermissionSemantics::LinuxSimplified, at, log, 0);
            &&& run(Seq::empty()) == StepView::<Stat>::Call(CallView::Do(Call::Stat { at }))
            &&& run(seq![Reply::Stat(st)]) == StepView::Done(
                Stat { uid: ctx.uid, gid: ctx.gid, ..st },
                1,
            )
            &&& run(seq![Reply::Error(error)]) == StepView::<Stat>::Fail(error.linux, 1)
        }),
{
}

/// Under complete semantics what the file's attribute sets is seen in place of
/// what the host has. An attribute that cannot be read sets nothing.
pub proof fn complete_views_are_overridden(
    ctx: Context,
    at: Node,
    st: Stat,
    value: Vec<u8>,
    error: HostError,
)
    ensures
        ({
            let run = |log: Seq<Reply>| viewing(ctx, PermissionSemantics::LinuxComplete, at, log, 0);
            &&& run(Seq::empty()) == StepView::<Stat>::Call(CallView::Do(Call::Stat { at }))
            &&& run(seq![Reply::Error(error)]) == StepView::<Stat>::Fail(error.linux, 1)
            &&& run(seq![Reply::Stat(st)]) == StepView::<Stat>::Call(
                CallView::Do(
                    Call::GetAttr {
                        at,
                        attr: Attr::Override,
                        size: 32,
                        options: if st.mode as u32 & 0o170000 == 0o120000 {
                            1
                        } else {
                            0
                        },
                    },
                ),
            )
            &&& match run(seq![Reply::Stat(st), Reply::Bytes(value)]) {
                StepView::Done(seen, n) => n == 2 && is_overridden(seen, st, override_of(value@)),
                _ => false,
            }
            &&& run(seq![Reply::Stat(st), Reply::Error(error)]) == StepView::Done(st, 2)
        }),
{
    let o = override_of(value@);
    if let Some(mode) = o.mode {
        lemma_view_bits(st.mode, (mode % 0x1_0000) as u16, 0);
    }
}

/// In a sandbox a file is looked at through one descriptor, which is opened on
/// the file itself and closed again whatever is found.
pub proof fn sandbox_views_open_the_file(
    ctx: Context,
    config: SandboxConfig,
    at: Node,
    fd: i32,
    log: Seq<Reply>,
    error: HostError,
    closed: Reply,
)
    requires
        !(at is Fd),
    ensures
        ({
            let semantics = PermissionSemantics::Sandbox(config);
            let run = |log: Seq<Reply>| viewing(ctx, semantics, at, log, 0);
            let inner = stating(ctx, semantics, Node::Fd(fd), seq![Reply::Fd(fd)] + log, 1);
            &&& run(Seq::empty()) == StepView::<Stat>::Call(
                CallView::Do(Call::Open { at, flags: 0x120_8004, mode: 0 }),
            )
            &&& run(seq![Reply::Error(error)]) == StepView::<Stat>::Fail(error.linux, 1)
            &&& match inner {
                StepView::Call(call) => run(seq![Reply::Fd(fd)] + log) == StepView::<Stat>::Call(
                    call,
                ),
                StepView::Done(seen, n) => n == log.len() + 1 ==> run(seq![Reply::Fd(fd)] + log)
                    == StepView::<Stat>::Call(CallView::Do(Call::Close { fd })),
                StepView::Fail(error, n) => n == log.len() + 1 ==> run(seq![Reply::Fd(fd)] + log)
                    == StepView::<Stat>::Call(CallView::Do(Call::Close { fd })),
            }
        }),
{
    lemma_words();
    let whole = seq![Reply::Fd(fd)] + log;
    assert(whole[0] == Reply::Fd(fd));
}

/// In a sandbox the guest sees what the file's record says, if it is of a file of
/// the same type, and all else as the host has it. A file without a record has the
/// mapped owner, and only files, directories and links may lack one.
pub proof fn sandbox_views_are_the_records(
    ctx: Context,
    config: SandboxConfig,
    fd: i32,
    st: Stat,
    size: u64,
    value: Vec<u8>,
    absent: HostError,
    error: HostError,
)
    requires
        absent.raw == 93,
        error.raw != 93,
        config.xattrs_enabled,
    ensures
        ({
            let run = |log: Seq<Reply>|
                viewing(ctx, PermissionSemantics::Sandbox(config), Node::Fd(fd), log, 0);
            let kind = st.mode as u32 & 0o170000;
            let looked = Reply::Stat(st);
            let native = Stat {
                uid: if st.uid == config.identity.host_uid {
                    config.identity.guest_uid
                } else {
                    65534
                },
                gid: if st.gid == config.identity.host_gid {
                    config.identity.guest_gid
                } else {
                    65534
                },
                ..st
            };
            let plain = kind == 0o100000 || kind == 0o040000 || kind == 0o120000;
            &&& run(Seq::empty()) == StepView::<Stat>::Call(
                CallView::Do(Call::Stat { at: Node::Fd(fd) }),
            )
            &&& run(seq![looked]) == StepView::<Stat>::Call(
                CallView::Do(
                    Call::AttrSize { at: Node::Fd(fd), attr: Attr::Record, options: 0 },
                ),
            )
            &&& run(seq![looked, Reply::Count(size)]) == StepView::<Stat>::Call(
                CallView::Do(
                    Call::GetAttr { at: Node::Fd(fd), attr: Attr::Record, size, options: 0 },
                ),
            )
            &&& plain ==> run(seq![looked, Reply::Error(absent)]) == StepView::Done(native, 2)
            &&& !plain ==> run(seq![looked, Reply::Error(absent)]) == StepView::<Stat>::Fail(95, 2)
            &&& run(seq![looked, Reply::Error(error)]) == StepView::<Stat>::Fail(error.linux, 2)
            &&& match record_of(value@) {
                Some(m) => if m.mode & 0o170000 == kind {
                    run(seq![looked, Reply::Count(size), Reply::Bytes(value)]) == StepView::Done(
                        Stat {
                            uid: m.uid,
                            gid: m.gid,
                            mode: (m.mode % 0x1_0000) as u16,
                            ..st
                        },
                        3,
                    )
                } else {
                    run(seq![looked, Reply::Count(size), Reply::Bytes(value)]) == StepView::<
                        Stat,
                    >::Fail(22, 3)
                },
                None => run(seq![looked, Reply::Count(size), Reply::Bytes(value)]) == StepView::<
                    Stat,
                >::Fail(22, 3),
            }
        }),
{
    reveal_with_fuel(crate::sandbox::reading, 2);
}

/// A volume without attributes has no records: there, and only there, that error
/// means that a file has none.
pub proof fn volumes_without_attributes_have_no_records(
    ctx: Context,
    config: SandboxConfig,
    fd: i32,
    st: Stat,
    error: HostError,
)
    requires
        error.raw != 93,
        error.linux == 95,
        st.mode as u32 & 0o170000 == 0o100000,
    ensures
        ({
            let seen = viewing(
                ctx,
                PermissionSemantics::Sandbox(config),
                Node::Fd(fd),
                seq![Reply::Stat(st), Reply::Error(error)],
                0,
            );
            &&& config.xattrs_enabled ==> seen == StepView::<Stat>::Fail(95, 2)
            &&& !config.xattrs_enabled ==> seen is Done
        }),
{
    reveal_with_fuel(crate::sandbox::reading, 2);
}

/// The attributes of an inode are those of the file that it is reached by, and
/// good for as long as was configured; the rights on it are checked against them.
pub proof fn getattr_shows_the_inode(
    fs: FsView,
    ctx: Context,
    inode: u64,
    mask: u32,
    log: Seq<Reply>,
)
    ensures
        !fs.inodes.contains_key(inode) ==> {
            &&& getting(fs, ctx, inode, log, 0) == StepView::<(Stat, Duration)>::Fail(9, 0)
            &&& checking(fs, ctx, inode, mask, log, 0) == StepView::<()>::Fail(9, 0)
        },
        fs.inodes.contains_key(inode) ==> match viewing(
            ctx,
            fs.cfg.semantics,
            reached(fs, inode),
            log,
            0,
        ) {
            StepView::Call(call) => {
                &&& getting(fs, ctx, inode, log, 0) == StepView::<(Stat, Duration)>::Call(call)
                &&& checking(fs, ctx, inode, mask, log, 0) == StepView::<()>::Call(call)
            },
            StepView::Fail(error, n) => {
                &&& getting(fs, ctx, inode, log, 0) == StepView::<(Stat, Duration)>::Fail(error, n)
                &&& checking(fs, ctx, inode, mask, log, 0) == StepView::<()>::Fail(error, n)
            },
            StepView::Done(st, n) => {
                &&& getting(fs, ctx, inode, log, 0) == StepView::Done(
                    (st, fs.cfg.attr_timeout),
                    n,
                )
                &&& has_rights(ctx, st, mask) ==> checking(fs, ctx, inode, mask, log, 0)
                    == StepView::Done((), n)
                &&& !has_rights(ctx, st, mask) ==> checking(fs, ctx, inode, mask, log, 0)
                    == StepView::<()>::Fail(13, n)
            },
        },
{
}

/// A right is had by root, or through the permission bits of a class that the
/// process is in: the owner's, the group's, or everyone's.
pub open spec fn has_right(ctx: Context, st: Stat, bit: u32, user: u32, group: u32) -> bool {
    ||| st.uid == ctx.uid && st.mode as u32 & user != 0
    ||| st.gid == ctx.gid && st.mode as u32 & group != 0
    ||| st.mode as u32 & bit != 0
}

/// Every right that is asked for is had. Root has the right to read and write
/// anything, and to execute what anyone may.
pub open spec fn has_rights(ctx: Context, st: Stat, mask: u32) -> bool {
    &&& mask & 4 != 0 ==> ctx.uid == 0 || has_right(ctx, st, 0o4, 0o400, 0o40)
    &&& mask & 2 != 0 ==> ctx.uid == 0 || has_right(ctx, st, 0o2, 0o200, 0o20)
    &&& mask & 1 != 0 ==> (ctx.uid == 0 && st.mode as u32 & 0o111 != 0) || has_right(
        ctx,
        st,
        0o1,
        0o100,
        0o10,
    )
}

/// A name is looked at in the host directory of its parent, a file that was opened
/// through its descriptor.
pub proof fn lookups_look_at_the_name(
    fs: FsView,
    ctx: Context,
    parent: u64,
    slot: Slot,
    fd: i32,
    log: Seq<Reply>,
)
    ensures
        !fs.inodes.contains_key(parent) ==> looking_up(fs, ctx, parent, slot, log, 0) == StepView::<
            Entry,
        >::Fail(9, 0),
        fs.inodes.contains_key(parent) ==> looking_up(fs, ctx, parent, slot, log, 0) == match viewing(
            ctx,
            fs.cfg.semantics,
            name_in(fs, parent, slot),
            log,
            0,
        ) {
            StepView::Call(call) => StepView::Call(call),
            StepView::Fail(error, n) => StepView::Fail(error, n),
            StepView::Done(st, n) => entering(fs, parent, st, log, n),
        },
        entering_file(fs, ctx, parent, fd, log, 0) == match stating(
            ctx,
            fs.cfg.semantics,
            Node::Fd(fd),
            log,
            0,
        ) {
            StepView::Call(call) => StepView::Call(call),
            StepView::Fail(error, n) => StepView::Fail(error, n),
            StepView::Done(st, n) => entering(fs, parent, st, log, n),
        },
{
}

/// The guest knows the host file under this number.
pub open spec fn knows(fs: FsView, inode: u64, st: Stat) -> bool {
    fs.inodes.contains_key(inode) && fs.inodes[inode].ino == st.ino && fs.inodes[inode].dev
        == st.dev
}

/// What the guest is told of a file: its number, its attributes, and how long they
/// stay good. A directory on another volume than its parent is announced as a
/// mount to a guest that understands that.
pub open spec fn tells(fs: FsView, parent: u64, inode: u64, st: Stat, entry: Entry) -> bool {
    &&& entry.inode == inode
    &&& entry.generation == 0
    &&& entry.attr == st
    &&& entry.attr_timeout == fs.cfg.attr_timeout
    &&& entry.entry_timeout == fs.cfg.entry_timeout
    &&& entry.attr_flags == if st.mode as u32 & 0o170000 == 0o040000 && fs.submounts && st.dev
        != fs.inodes[parent].dev {
        1
    } else {
        0u32
    }
}

/// A file that the guest knows is entered under the number that it has, one that
/// it does not know under a number that is allocated for it.
pub proof fn files_are_entered_under_one_number(
    fs: FsView,
    parent: u64,
    st: Stat,
    inode: u64,
    log: Seq<Reply>,
    fresh: u64,
    error: HostError,
)
    requires
        well_numbered(fs.inodes),
        fs.inodes.contains_key(parent),
    ensures
        knows(fs, inode, st) ==> match entering(fs, parent, st, log, 0) {
            StepView::Done(entry, n) => n == 0 && tells(fs, parent, inode, st, entry),
            _ => false,
        },
        (forall|i: u64| !#[trigger] knows(fs, i, st)) ==> {
            &&& entering(fs, parent, st, Seq::empty(), 0) == StepView::<Entry>::Call(
                CallView::Do(Call::AllocateInode),
            )
            &&& match entering(fs, parent, st, seq![Reply::Count(fresh)], 0) {
                StepView::Done(entry, n) => n == 1 && tells(fs, parent, fresh, st, entry),
                _ => false,
            }
            &&& entering(fs, parent, st, seq![Reply::Error(error)], 0) == StepView::<Entry>::Fail(
                error.linux,
                1,
            )
        },
{
    if knows(fs, inode, st) {
        lemma_inode_of(fs.inodes, inode);
    }
    if forall|i: u64| !#[trigger] knows(fs, i, st) {
        assert forall|i: u64| !denotes(fs.inodes, i, st.ino, st.dev) by {
            assert(!knows(fs, i, st));
        }
    }
}

/// A guest that was told of a file holds one more reference to it: one that is
/// counted where it knew the file, and the first one where it did not. Nothing
/// else changes.
pub proof fn entries_are_referenced(fs: FsView, entry: Entry, known: u64, other: u64)
    requires
        well_numbered(fs.inodes),
    ensures
        ({
            let after = fs.with_entry(entry);
            &&& knows(fs, known, entry.attr) && fs.inodes[known].refcount < u64::MAX ==> {
                &&& after.inodes[known] == (InodeData {
                    refcount: (fs.inodes[known].refcount + 1) as u64,
                    ..fs.inodes[known]
                })
                &&& after.inodes.dom() == fs.inodes.dom()
                &&& other != known ==> after.inodes[other] == fs.inodes[other]
            }
            &&& (forall|i: u64| !#[trigger] knows(fs, i, entry.attr)) ==> {
                let data = after.inodes[entry.inode];
                &&& after.inodes.dom() == fs.inodes.dom().insert(entry.inode)
                &&& data.inode == entry.inode
                &&& data.ino == entry.attr.ino
                &&& data.dev == entry.attr.dev
                &&& data.refcount == 1
                &&& data.unlinked_fd < 0
                &&& other != entry.inode ==> after.inodes[other] == fs.inodes[other]
            }
            &&& after == (FsView { inodes: after.inodes, ..fs })
        }),
{
    let after = fs.with_entry(entry);
    if knows(fs, known, entry.attr) {
        lemma_inode_of(fs.inodes, known);
        assert(after.inodes.dom() =~= fs.inodes.dom());
    }
    if forall|i: u64| !#[trigger] knows(fs, i, entry.attr) {
        assert forall|i: u64| !denotes(fs.inodes, i, entry.attr.ino, entry.attr.dev) by {
            assert(!knows(fs, i, entry.attr));
        }
        assert(after.inodes.dom() =~= fs.inodes.dom().insert(entry.inode));
    }
}

/// References that are dropped are counted, and a file goes with its last one: a
/// descriptor that it kept is closed then, and only then.
pub proof fn forgets_are_counted(m: Map<u64, InodeData>, inode: u64, count: u64)
    requires
        m.contains_key(inode),
    ensures
        m[inode].refcount <= count ==> forgotten(m, inode, count) == m.remove(inode),
        m[inode].refcount > count ==> {
            &&& forgotten(m, inode, count).dom() == m.dom()
            &&& forgotten(m, inode, count)[inode].refcount == m[inode].refcount - count
            &&& forgotten(m, inode, count)[inode] == (InodeData {
                refcount: forgotten(m, inode, count)[inode].refcount,
                ..m[inode]
            })
        },
        released(m, inode, count) == if m[inode].refcount <= count && m[inode].unlinked_fd >= 0 {
            Some(m[inode].unlinked_fd)
        } else {
            None
        },
{
    if m[inode].refcount > count {
        assert(forgotten(m, inode, count).dom() =~= m.dom());
    }
}

/// Serving starts with the root directory, which is opened without following a
/// link and closed again; from then on creation modes are let through.
pub proof fn init_finds_the_root(
    fd: i32,
    st: Stat,
    error: HostError,
    cleared: Reply,
    closed: Reply,
)
    ensures
        finding_root(Seq::empty()) == StepView::<Stat>::Call(
            CallView::Do(Call::OpenRoot { flags: 0x100_0100 }),
        ),
        finding_root(seq![Reply::Error(error)]) == StepView::<Stat>::Fail(error.raw, 1),
        finding_root(seq![Reply::Fd(fd)]) == StepView::<Stat>::Call(
            CallView::Do(Call::Stat { at: Node::Fd(fd) }),
        ),
        finding_root(seq![Reply::Fd(fd), Reply::Error(error)]) == StepView::<Stat>::Call(
            CallView::Do(Call::Close { fd }),
        ),
        finding_root(seq![Reply::Fd(fd), Reply::Error(error), closed]) == StepView::<Stat>::Fail(
            error.linux,
            3,
        ),
        finding_root(seq![Reply::Fd(fd), Reply::Stat(st)]) == StepView::<Stat>::Call(
            CallView::Do(Call::ClearUmask),
        ),
        finding_root(seq![Reply::Fd(fd), Reply::Stat(st), cleared]) == StepView::<Stat>::Call(
            CallView::Do(Call::Close { fd }),
        ),
        finding_root(seq![Reply::Fd(fd), Reply::Stat(st), cleared, closed]) == StepView::Done(
            st,
            4,
        ),
{
    lemma_words();
}

/// A file system that starts serving knows its root under the first number, with
/// the two references that the guest has of it, and caches writes or announces
/// mounts only for a guest that can do so.
pub proof fn init_knows_the_root(cfg: Config, capable: u64, st: Stat, inode: u64)
    ensures
        ({
            let before = FsView::fresh(cfg);
            let after = initialised(before, capable, st);
            &&& before.cfg == cfg
            &&& !before.inodes.contains_key(inode)
            &&& !before.handles.open.contains_key(inode)
            &&& !before.windows.contains_key(inode)
            &&& before.handles.next == 1
            &&& !before.writeback && !before.submounts
            &&& after.cfg == cfg
            &&& after.handles == before.handles
            &&& after.windows == before.windows
            &&& after.inodes.contains_key(inode) <==> inode == 1
            &&& after.inodes[1].inode == 1
            &&& after.inodes[1].ino == st.ino
            &&& after.inodes[1].dev == st.dev
            &&& after.inodes[1].refcount == 2
            &&& after.inodes[1].unlinked_fd < 0
            &&& after.writeback <==> cfg.writeback && capable & 0x1_0000 == 0x1_0000
            &&& after.submounts <==> capable & 0x800_0000 == 0x800_0000
        }),
{
    let before = FsView::fresh(cfg);
    assert(!denotes(before.inodes, 1, st.ino, st.dev));
}

/// A file system is made only of a directory that can be opened, and only for a
/// guest whose own user and group are not those that stand for all others.
pub proof fn construction_tries_the_root(
    cfg: Config,
    log: Seq<Reply>,
    fd: i32,
    error: HostError,
    closed: Reply,
)
    ensures
        match cfg.semantics {
            PermissionSemantics::Sandbox(config) => config.identity.guest_uid == 65534
                || config.identity.guest_gid == 65534,
            _ => false,
        } <==> constructing(cfg, log) == StepView::<FsView>::Fail(22, 0),
        constructing(cfg, log) != StepView::<FsView>::Fail(22, 0) ==> {
            &&& constructing(cfg, Seq::empty()) == StepView::<FsView>::Call(
                CallView::Do(Call::OpenRoot { flags: 0x100_0100 }),
            )
            &&& constructing(cfg, seq![Reply::Error(error)]) == StepView::<FsView>::Fail(
                error.linux,
                1,
            )
            &&& constructing(cfg, seq![Reply::Fd(fd)]) == StepView::<FsView>::Call(
                CallView::Do(Call::Close { fd }),
            )
            &&& constructing(cfg, seq![Reply::Fd(fd), closed]) == StepView::Done(
                FsView::fresh(cfg),
                2,
            )
        },
{
    lemma_words();
}

/// Each feature is offered exactly to a guest that has it: cached writes where
/// they are configured, security contexts outside a sandbox, and the removal of
/// privileges in one. No other feature is.
pub proof fn features_are_offered_as_configured(cfg: Config, capable: u64)
    ensures
        ({
            let offered = negotiated(cfg, capable);
            let sandboxed = cfg.semantics is Sandbox;
            &&& offered & 0x1_0000 != 0 <==> cfg.writeback && capable & 0x1_0000 != 0
            &&& offered & 0x800_0000 != 0 <==> capable & 0x800_0000 != 0
            &&& offered & 0x1_0000_0000 != 0 <==> !sandboxed && capable & 0x1_0000_0000 != 0
            &&& offered & 0x1000_0000 != 0 <==> sandboxed && capable & 0x1000_0000 != 0
            &&& offered & !0x1_1801_0000u64 == 0
        }),
{
    let writeback = cfg.writeback;
    let sandboxed = cfg.semantics.sandboxed();
    assert({
        let a: u64 = if writeback && capable & 0x1_0000 == 0x1_0000 {
            0u64 | 0x1_0000
        } else {
            0u64
        };
        let b: u64 = if capable & 0x800_0000 == 0x800_0000 { a | 0x800_0000 } else { a };
        let c: u64 = if !sandboxed && capable & 0x1_0000_0000 == 0x1_0000_0000 {
            b | 0x1_0000_0000
        } else {
            b
        };
        let d: u64 = if sandboxed && capable & 0x1000_0000 == 0x1000_0000 { c | 0x1000_0000 } else {
            c
        };
        &&& (d & 0x1_0000 != 0 <==> writeback && capable & 0x1_0000 != 0)
        &&& (d & 0x800_0000 != 0 <==> capable & 0x800_0000 != 0)
        &&& (d & 0x1_0000_0000 != 0 <==> !sandboxed && capable & 0x1_0000_0000 != 0)
        &&& (d & 0x1000_0000 != 0 <==> sandboxed && capable & 0x1000_0000 != 0)
        &&& d & !0x1_1801_0000u64 == 0
    }) by (bit_vector);
}

/// A security context is stored on the file itself. Where the file does not let
/// its owner write, its owner may for as long as it takes.
pub proof fn labels_are_stored_on_the_file(
    at: Node,
    symlink: bool,
    st: Stat,
    granted: Reply,
    denied: HostError,
    error: HostError,
    last: Reply,
)
    requires
        !(granted is Error),
        denied.raw == 13 || denied.raw == 1,
        error.raw != 13 && error.raw != 1,
    ensures
        ({
            let run = |log: Seq<Reply>| labelling(at, symlink, log, 0);
            let store = StepView::<()>::Call(
                CallView::Do(
                    Call::SetAttr {
                        at,
                        attr: Attr::Label,
                        options: if symlink {
                            1
                        } else {
                            0
                        },
                    },
                ),
            );
            let no = Reply::Error(denied);
            let looked = Reply::Stat(st);
            &&& run(Seq::empty()) == store
            &&& run(seq![granted]) == StepView::Done((), 1)
            &&& run(seq![Reply::Error(error)]) == StepView::<()>::Fail(error.linux, 1)
            &&& run(seq![no]) == StepView::<()>::Call(CallView::Do(Call::Stat { at }))
            &&& run(seq![no, looked]) == StepView::<()>::Call(
                CallView::Do(Call::Chmod { at, mode: st.mode | 0o200 }),
            )
            &&& run(seq![no, looked, granted]) == store
            &&& run(seq![no, looked, granted, granted]) == StepView::<()>::Call(
                CallView::Do(Call::Chmod { at, mode: st.mode }),
            )
            &&& run(seq![no, looked, granted, granted, last]) == StepView::Done((), 5)
            &&& run(seq![no, looked, granted, Reply::Error(error), last]) == StepView::<
                (),
            >::Fail(error.linux, 5)
        }),
{
}

/// A file whose contents or whose owner changed loses its capability and the bits
/// that lend its authority, and keeps all others. This is how under simplified
/// semantics, where the host has the mode.
pub proof fn changed_files_lose_privileges(
    ctx: Context,
    at: Node,
    owner: Option<(u32, u32)>,
    removed: Reply,
    st: Stat,
)
    ensures
        ({
            let run = |log: Seq<Reply>|
                shedding(ctx, PermissionSemantics::LinuxSimplified, at, owner, log, 0);
            let looked = Reply::Stat(st);
            &&& run(Seq::empty()) == StepView::<()>::Call(
                CallView::Do(Call::RemoveAttr { at, attr: Attr::Capability, options: 0 }),
            )
            &&& run(seq![removed]) == StepView::<()>::Call(CallView::Do(Call::Stat { at }))
            &&& is_plain(st.mode as u32, st.mode as u32) ==> run(seq![removed, looked])
                == StepView::Done((), 2)
            &&& !is_plain(st.mode as u32, st.mode as u32) ==> exists|m: u32| #[trigger]
                is_plain(m, st.mode as u32) && run(seq![removed, looked]) == StepView::<()>::Call(
                    CallView::Do(Call::Chmod { at, mode: (m % 0x1_0000) as u16 }),
                )
        }),
{
    let mode = st.mode as u32;
    let m = crate::stat::unprivileged(mode);
    lemma_unprivileged(mode);
    lemma_plain_is_unchanged(mode, m);
}

/// Taking privileges away leaves a mode without them.
pub(crate) proof fn lemma_unprivileged(mode: u32)
    ensures
        is_plain(crate::stat::unprivileged(mode), mode),
        crate::stat::unprivileged(mode) & 0o170000 == mode & 0o170000,
{
    lemma_view_bits(0, 0, mode);
}

pub(crate) proof fn lemma_plain_is_unchanged(mode: u32, m: u32)
    requires
        is_plain(m, mode),
    ensures
        is_plain(mode, mode) <==> m == mode,
{
    assert((mode & 0o010 == 0 && m & 0o4000 == 0 && m | 0o4000 == mode | 0o4000 ==> (mode & 0o4000
        == 0 <==> m == mode)) && (mode & 0o010 != 0 && m & 0o6000 == 0 && m | 0o6000 == mode
        | 0o6000 ==> (mode & 0o6000 == 0 <==> m == mode))) by (bit_vector);
}

/// A record that has grown since its size was asked for is read again from the
/// start, and one that is gone by then is none.
pub proof fn changed_records_are_read_again(
    ctx: Context,
    config: SandboxConfig,
    fd: i32,
    st: Stat,
    size: u64,
    grown: HostError,
    absent: HostError,
    error: HostError,
)
    requires
        grown.raw == 34,
        absent.raw == 93,
        error.raw != 34 && error.raw != 93,
        config.xattrs_enabled,
        st.mode as u32 & 0o170000 == 0o100000,
    ensures
        ({
            let run = |log: Seq<Reply>|
                viewing(ctx, PermissionSemantics::Sandbox(config), Node::Fd(fd), log, 0);
            let (looked, sized) = (Reply::Stat(st), Reply::Count(size));
            &&& run(seq![looked, sized, Reply::Error(grown)]) == run(seq![looked])
            &&& run(seq![looked]) == StepView::<Stat>::Call(
                CallView::Do(
                    Call::AttrSize { at: Node::Fd(fd), attr: Attr::Record, options: 0 },
                ),
            )
            &&& run(seq![looked, sized, Reply::Error(absent)]) is Done
            &&& run(seq![looked, sized, Reply::Error(error)]) == StepView::<Stat>::Fail(
                error.linux,
                3,
            )
        }),
{
    reveal_with_fuel(crate::sandbox::reading, 3);
}

/// What is stored of a link is stored on the link itself: a call by path says so,
/// and one by descriptor has no need to for a record. What the host refuses is
/// refused.
pub proof fn attributes_of_links_stay_on_them(
    at: Node,
    st: Stat,
    m: MetadataView,
    uid: u32,
    gid: u32,
    mode: u32,
    granted: Reply,
    error: HostError,
)
    requires
        m.mode & 0o170000 == st.mode as u32 & 0o170000,
        uid < 0xffff_fffe,
        gid < 0xffff_fffe,
        !(granted is Error),
    ensures
        ({
            let link = st.mode as u32 & 0o170000 == 0o120000;
            let record = |log: Seq<Reply>| crate::sandbox::writing(at, st, m, log, 0);
            let looked = Reply::Stat(st);
            let set = |log: Seq<Reply>|
                crate::override_stat::setting_override(
                    at,
                    None,
                    Some((uid, gid)),
                    Some(mode),
                    log,
                    0,
                );
            &&& record(Seq::empty()) == StepView::<()>::Call(
                CallView::Store {
                    at,
                    attr: Attr::Record,
                    value: m.text(),
                    options: if link && !(at is Fd) {
                        1
                    } else {
                        0
                    },
                },
            )
            &&& record(seq![granted]) == StepView::Done((), 1)
            &&& record(seq![Reply::Error(error)]) == StepView::<()>::Fail(error.linux, 1)
            &&& match set(seq![looked]) {
                StepView::Call(CallView::Store { at: n, attr, value, options }) => {
                    &&& n == at && attr == Attr::Override
                    &&& override_of(value) == (Override {
                        uid: Some(uid),
                        gid: Some(gid),
                        mode: Some(mode),
                    })
                    &&& options == if link {
                        1u32
                    } else {
                        0
                    }
                },
                _ => false,
            }
            &&& set(seq![looked, granted]) == StepView::Done((), 2)
            &&& set(seq![looked, Reply::Error(error)]) == StepView::<()>::Fail(error.linux, 2)
        }),
{
    let o = Override { uid: Some(uid), gid: Some(gid), mode: Some(mode) };
    override_round_trip(o);
    let unset = Override { uid: None, gid: None, mode: None };
    assert(crate::override_stat::merged(unset, Some((uid, gid)), Some(mode)) == o);
}

} // verus!
