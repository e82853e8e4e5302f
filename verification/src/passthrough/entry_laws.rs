//! What is answered to requests that made or changed a file: what the guest is
//! told is what the host then has under the name, or behind the descriptor.

use vstd::prelude::*;
use crate::bits::lemma_words;
use crate::config::{Duration, PermissionSemantics};
use crate::host::{Attr, Call, CallView, HostError, Node, Reply, Slot, StepView};
use crate::inodes::{denotes, inode_of};
use crate::sandbox_metadata::{record_of, MetadataView};
use crate::stat::{Context, Stat};
use super::attribute_laws::{is_target, stores_record};
use super::create::{
    creating_file, linking, making_directory, making_node, making_symlink, CreateRequest,
    NodeRequest,
};
use super::effects::{name_in, reached};
use super::io::{opening_file, writing_file};
use super::setattr::{setting_attributes, setting_size, setting_times, touching, SetattrRequest};
use super::view_laws::{is_plain, knows, tells};
use super::{getting, Entry, FsView};

verus! {

/// A step that asks for the attributes of a file.
pub open spec fn looks_at<T>(step: StepView<T>, at: Node) -> bool {
    step == StepView::<T>::Call(CallView::Do(Call::Stat { at }))
}

/// A step that stores the request's security context on a file.
pub open spec fn labels<T>(step: StepView<T>, at: Node, symlink: bool) -> bool {
    step == StepView::<T>::Call(
        CallView::Do(
            Call::SetAttr {
                at,
                attr: Attr::Label,
                options: if symlink {
                    1
                } else {
                    0
                },
            },
        ),
    )
}

/// A step that asks for a number for a file.
pub open spec fn allocates<T>(step: StepView<T>) -> bool {
    step == StepView::<T>::Call(CallView::Do(Call::AllocateInode))
}

/// A step that tells the guest of a file.
pub open spec fn is_told(
    step: StepView<Entry>,
    fs: FsView,
    parent: u64,
    inode: u64,
    st: Stat,
) -> bool {
    match step {
        StepView::Done(entry, _) => tells(fs, parent, inode, st, entry),
        _ => false,
    }
}

/// The guest does not know the host file.
pub open spec fn is_new(fs: FsView, st: Stat) -> bool {
    forall|i: u64| !#[trigger] knows(fs, i, st)
}

proof fn lemma_new(fs: FsView, st: Stat)
    requires
        is_new(fs, st),
    ensures
        inode_of(fs.inodes, st.ino, st.dev) is None,
{
    assert forall|i: u64| !denotes(fs.inodes, i, st.ino, st.dev) by {
        assert(!knows(fs, i, st));
    }
}

/// Under simplified semantics what was made is looked up under the name that it
/// was made under, and the guest is told of it as its own.
pub proof fn made_names_are_looked_up(
    fs: FsView,
    ctx: Context,
    req: NodeRequest,
    inode: u64,
    made: Reply,
    st: Stat,
    fresh: u64,
    error: HostError,
)
    requires
        fs.cfg.semantics == PermissionSemantics::LinuxSimplified,
        fs.inodes.contains_key(req.parent),
        fs.inodes.contains_key(inode),
        !(made is Error),
        is_new(fs, st),
    ensures
        ({
            let dir = |log: Seq<Reply>| making_directory(fs, ctx, req, log);
            let node = |log: Seq<Reply>| making_node(fs, ctx, req, log);
            let sym = |log: Seq<Reply>| making_symlink(fs, ctx, req.parent, req.labelled, log);
            let link = |log: Seq<Reply>| linking(fs, ctx, inode, req.parent, log);
            let name = name_in(fs, req.parent, Slot::Name);
            let seen = Stat { uid: ctx.uid, gid: ctx.gid, ..st };
            let refused = seq![Reply::Error(error)];
            let one = seq![made];
            let two = seq![made, Reply::Stat(st)];
            let all = seq![made, Reply::Stat(st), Reply::Count(fresh)];
            let socket = low_bits_are_socket(req.mode);
            &&& dir(refused) == StepView::<Entry>::Fail(error.linux, 1)
            &&& sym(refused) == StepView::<Entry>::Fail(error.linux, 1)
            &&& link(refused) == StepView::<Entry>::Fail(error.linux, 1)
            &&& !socket ==> node(refused) == StepView::<Entry>::Fail(error.linux, 1)
            &&& socket ==> node(refused) == StepView::<Entry>::Fail(22, 1)
            &&& req.labelled ==> labels(dir(one), name, false) && labels(node(one), name, false)
                && labels(sym(one), name, true)
            &&& !req.labelled ==> {
                &&& looks_at(dir(one), name) && looks_at(node(one), name) && looks_at(
                    sym(one),
                    name,
                )
                &&& allocates(dir(two)) && allocates(node(two)) && allocates(sym(two))
                &&& is_told(dir(all), fs, req.parent, fresh, seen)
                &&& is_told(node(all), fs, req.parent, fresh, seen)
                &&& is_told(sym(all), fs, req.parent, fresh, seen)
            }
            &&& looks_at(link(one), name)
            &&& allocates(link(two))
            &&& is_told(link(all), fs, req.parent, fresh, seen)
        }),
{
    lemma_new(fs, st);
    let seen = Stat { uid: ctx.uid, gid: ctx.gid, ..st };
    assert(inode_of(fs.inodes, seen.ino, seen.dev) is None);
}

/// The low half of a mode has the type of a socket.
pub open spec fn low_bits_are_socket(mode: u32) -> bool {
    (mode % 0x1_0000) as u16 & 0o170000u16 == 0o140000
}

/// Under complete semantics, once the owner and the mode were stored, what was
/// made is looked up under the name that it was made under; the file that stands
/// for a special one is closed before.
pub proof fn stored_names_are_looked_up(
    fs: FsView,
    ctx: Context,
    req: NodeRequest,
    inode: u64,
    made: Reply,
    fd: i32,
    st: Stat,
    granted: Reply,
    closed: Reply,
)
    requires
        fs.cfg.semantics == PermissionSemantics::LinuxComplete,
        fs.inodes.contains_key(req.parent),
        fs.inodes.contains_key(inode),
        !req.labelled,
        !(made is Error),
        !(granted is Error),
        ctx.uid < 0xffff_fffe,
        ctx.gid < 0xffff_fffe,
    ensures
        ({
            let name = name_in(fs, req.parent, Slot::Name);
            let log = seq![made, Reply::Stat(st), granted];
            let opened = seq![Reply::Fd(fd), Reply::Stat(st), granted];
            &&& looks_at(making_directory(fs, ctx, req, log), name)
            &&& looks_at(making_symlink(fs, ctx, req.parent, false, log), name)
            &&& looks_at(linking(fs, ctx, inode, req.parent, seq![made]), name)
            &&& making_node(fs, ctx, req, opened) == StepView::<Entry>::Call(
                CallView::Do(Call::Close { fd }),
            )
            &&& looks_at(making_node(fs, ctx, req, opened.push(closed)), name)
        }),
{
    let opened = seq![Reply::Fd(fd), Reply::Stat(st), granted];
    let all = opened.push(closed);
    assert(all[0] == Reply::Fd(fd) && all[1] == Reply::Stat(st) && all[2] == granted && all.len()
        == 4);
}

/// The same in a sandbox, once the record was written.
pub proof fn recorded_names_are_looked_up(
    fs: FsView,
    ctx: Context,
    req: NodeRequest,
    inode: u64,
    made: Reply,
    fd: i32,
    st: Stat,
    absent: HostError,
    granted: Reply,
    closed: Reply,
)
    requires
        fs.cfg.semantics is Sandbox,
        fs.cfg.semantics->Sandbox_0.xattrs_enabled,
        fs.inodes.contains_key(req.parent),
        fs.inodes.contains_key(inode),
        !req.labelled,
        req.mode & 0o170000 == 0,
        !(made is Error),
        !(granted is Error),
        absent.raw == 93,
    ensures
        ({
            let name = name_in(fs, req.parent, Slot::Name);
            let look = StepView::<Entry>::Call(
                CallView::Do(Call::Open { at: name, flags: 0x120_8004, mode: 0 }),
            );
            let log = seq![made, Reply::Stat(st), Reply::Error(absent), granted];
            let opened = seq![Reply::Fd(fd), Reply::Stat(st), Reply::Error(absent), granted];
            let kind = st.mode as u32 & 0o170000;
            &&& kind == 0o040000 ==> making_directory(fs, ctx, req, log) == look
            &&& kind == 0o120000 ==> making_symlink(fs, ctx, req.parent, false, log) == look
            &&& linking(fs, ctx, inode, req.parent, seq![made]) == look
            &&& kind == 0o100000 ==> {
                &&& making_node(fs, ctx, req, opened) == StepView::<Entry>::Call(
                    CallView::Do(Call::Close { fd }),
                )
                &&& making_node(fs, ctx, req, opened.push(closed)) == look
            }
        }),
{
    lemma_words();
    reveal_with_fuel(crate::sandbox::reading, 2);
    let opened = seq![Reply::Fd(fd), Reply::Stat(st), Reply::Error(absent), granted];
    let all = opened.push(closed);
    assert(all[0] == Reply::Fd(fd) && all[1] == Reply::Stat(st) && all[2] == Reply::Error(absent)
        && all[3] == granted && all.len() == 5);
    let (m, u) = (req.mode, req.umask);
    let old_mode = st.mode as u32;
    assert((m & 0o170000 == 0 ==> (m & !u) & 0o170000 == 0) && ((old_mode & 0o170000) | ((m & !u)
        & !0o170000u32)) & 0o170000 == old_mode & 0o170000 && ((old_mode & 0o170000) | (0o120777u32
        & !0o170000u32)) & 0o170000 == old_mode & 0o170000 && 0o120777u32 & 0o170000 == 0o120000
        && (m & 0o170000 == 0 ==> (0o100000u32 | (m & !(u & 0o777))) & 0o170000 == 0o100000)
        && ((old_mode & 0o170000) | ((0o100000u32 | (m & !(u & 0o777))) & !0o170000u32)) & 0o170000
        == old_mode & 0o170000) by (bit_vector);
}

/// A sandbox makes regular files, directories and links alone, and no file with a
/// security context; and nothing is made in a directory that is not known.
pub proof fn makings_are_refused(
    fs: FsView,
    ctx: Context,
    req: NodeRequest,
    create: CreateRequest,
    inode: u64,
    log: Seq<Reply>,
)
    ensures
        fs.cfg.semantics is Sandbox ==> {
            &&& req.labelled ==> {
                &&& making_directory(fs, ctx, req, log) == StepView::<Entry>::Fail(95, 0)
                &&& making_symlink(fs, ctx, req.parent, true, log) == StepView::<Entry>::Fail(95, 0)
                &&& making_node(fs, ctx, req, log) == StepView::<Entry>::Fail(95, 0)
            }
            &&& create.labelled ==> creating_file(fs, ctx, create, log) == StepView::<
                (Entry, i32),
            >::Fail(95, 0)
            &&& req.mode & 0o170000 != 0 && req.mode & 0o170000 != 0o100000 ==> making_node(
                fs,
                ctx,
                req,
                log,
            ) == StepView::<Entry>::Fail(95, 0)
        },
        !fs.inodes.contains_key(req.parent) && !(fs.cfg.semantics is Sandbox) ==> {
            &&& making_directory(fs, ctx, req, log) == StepView::<Entry>::Fail(9, 0)
            &&& making_symlink(fs, ctx, req.parent, req.labelled, log) == StepView::<Entry>::Fail(
                9,
                0,
            )
            &&& making_node(fs, ctx, req, log) == StepView::<Entry>::Fail(9, 0)
        },
        !fs.inodes.contains_key(create.parent) && !create.labelled ==> creating_file(
            fs,
            ctx,
            create,
            log,
        ) == StepView::<(Entry, i32)>::Fail(9, 0),
        !fs.inodes.contains_key(inode) || !fs.inodes.contains_key(req.parent) ==> linking(
            fs,
            ctx,
            inode,
            req.parent,
            log,
        ) == StepView::<Entry>::Fail(9, 0),
{
}

/// A created file is told of by its descriptor, as the guest's own, and handed out
/// open. This is how under simplified semantics; a context is stored, and a
/// capability taken away, through the same descriptor.
pub proof fn created_files_are_told_of(
    fs: FsView,
    ctx: Context,
    req: CreateRequest,
    fd: i32,
    st: Stat,
    fresh: u64,
    error: HostError,
    closed: Reply,
)
    requires
        fs.cfg.semantics == PermissionSemantics::LinuxSimplified,
        fs.inodes.contains_key(req.parent),
        is_new(fs, st),
    ensures
        ({
            let run = |log: Seq<Reply>| creating_file(fs, ctx, req, log);
            let opened = Reply::Fd(fd);
            let seen = Stat { uid: ctx.uid, gid: ctx.gid, ..st };
            &&& run(seq![Reply::Error(error)]) == StepView::<(Entry, i32)>::Fail(error.linux, 1)
            &&& req.labelled ==> labels(run(seq![opened]), Node::Fd(fd), false)
            &&& !req.labelled && req.kill_priv && req.flags & 0x200 != 0 ==> run(seq![opened])
                == StepView::<(Entry, i32)>::Call(
                CallView::Do(
                    Call::RemoveAttr { at: Node::Fd(fd), attr: Attr::Capability, options: 0 },
                ),
            )
            &&& !req.labelled && !(req.kill_priv && req.flags & 0x200 != 0) ==> {
                &&& looks_at(run(seq![opened]), Node::Fd(fd))
                &&& run(seq![opened, Reply::Error(error)]) == StepView::<(Entry, i32)>::Call(
                    CallView::Do(Call::Close { fd }),
                )
                &&& run(seq![opened, Reply::Error(error), closed]) == StepView::<
                    (Entry, i32),
                >::Fail(error.linux, 3)
                &&& allocates(run(seq![opened, Reply::Stat(st)]))
                &&& match run(seq![opened, Reply::Stat(st), Reply::Count(fresh)]) {
                    StepView::Done((entry, open), n) => n == 3 && open == fd && tells(
                        fs,
                        req.parent,
                        fresh,
                        seen,
                        entry,
                    ),
                    _ => false,
                }
            }
        }),
{
    lemma_new(fs, st);
    crate::opening::flags_are_kept(req.flags);
    let seen = Stat { uid: ctx.uid, gid: ctx.gid, ..st };
    assert(inode_of(fs.inodes, seen.ino, seen.dev) is None);
}

/// A request that set attributes answers what the file has then: it ends as a
/// request for the attributes of the inode does.
pub proof fn set_attributes_are_answered(
    fs: FsView,
    ctx: Context,
    req: SetattrRequest,
    log: Seq<Reply>,
)
    ensures
        match setting_attributes(fs, ctx, req, log) {
            StepView::Done(answer, n) => exists|p: int| #[trigger]
                getting(fs, ctx, req.inode, log, p) == StepView::Done(answer, n),
            _ => true,
        },
        req.valid == 0 && (exists|at: Node| is_target(fs, req, at)) ==> setting_attributes(
            fs,
            ctx,
            req,
            log,
        ) == getting(fs, ctx, req.inode, log, 0),
        (forall|at: Node| !is_target(fs, req, at)) ==> setting_attributes(fs, ctx, req, log)
            == StepView::<(Stat, Duration)>::Fail(9, 0),
{
    let valid = req.valid;
    assert(valid == 0 ==> valid & 1 == 0 && valid & (2u32 | 4) == 0 && valid & 8 == 0 && valid & (
    0x10u32 | 0x20) == 0) by (bit_vector);
    if forall|at: Node| !is_target(fs, req, at) {
        match req.handle {
            Some(handle) => {
                assert(!is_target(fs, req, Node::Fd(fs.handles.open[handle].fd)));
            },
            None => {
                assert(!is_target(fs, req, reached(fs, req.inode)));
            },
        }
    }
    lemma_ends_in_getting(fs, ctx, req, log);
}

proof fn lemma_ends_in_getting(fs: FsView, ctx: Context, req: SetattrRequest, log: Seq<Reply>)
    ensures
        match setting_attributes(fs, ctx, req, log) {
            StepView::Done(answer, n) => exists|p: int| #[trigger]
                getting(fs, ctx, req.inode, log, p) == StepView::Done(answer, n),
            _ => true,
        },
{
    if let Ok(at) = super::setattr::setattr_target(fs, req) {
        assert forall|pos: int| match #[trigger] setting_size(fs, ctx, req, at, log, pos) {
            StepView::Done(answer, n) => exists|p: int| #[trigger]
                getting(fs, ctx, req.inode, log, p) == StepView::Done(answer, n),
            _ => true,
        } by {
            lemma_size_ends_in_getting(fs, ctx, req, at, log, pos);
        }
    }
}

proof fn lemma_size_ends_in_getting(
    fs: FsView,
    ctx: Context,
    req: SetattrRequest,
    at: Node,
    log: Seq<Reply>,
    pos: int,
)
    ensures
        match setting_size(fs, ctx, req, at, log, pos) {
            StepView::Done(answer, n) => exists|p: int| #[trigger]
                getting(fs, ctx, req.inode, log, p) == StepView::Done(answer, n),
            _ => true,
        },
{
    assert forall|q: int| match #[trigger] setting_times(fs, ctx, req, at, log, q) {
        StepView::Done(answer, n) => exists|p: int| #[trigger]
            getting(fs, ctx, req.inode, log, p) == StepView::Done(answer, n),
        _ => true,
    } by {
        let touched = touching(at, req, log, q);
        if let StepView::Done(_, m) = touched {
            assert(getting(fs, ctx, req.inode, log, m) == getting(fs, ctx, req.inode, log, m));
        }
        assert(getting(fs, ctx, req.inode, log, q) == getting(fs, ctx, req.inode, log, q));
    }
}

/// Times that the host refuses to set are refused with its own number; a file
/// that cannot be opened to set them is answered as a bad descriptor. It is opened
/// on a link itself, and closed again.
pub proof fn refused_times_keep_the_hosts_number(
    at: Node,
    req: SetattrRequest,
    fd: i32,
    error: HostError,
    granted: Reply,
    closed: Reply,
)
    requires
        !(at is Fd),
        !(granted is Error),
    ensures
        touching(Node::Fd(fd), req, seq![Reply::Error(error)], 0) == StepView::<()>::Fail(
            error.raw,
            1,
        ),
        touching(Node::Fd(fd), req, seq![granted], 0) == StepView::Done((), 1),
        touching(at, req, Seq::empty(), 0) == StepView::<()>::Call(
            CallView::Do(Call::Open { at, flags: 0x120_0000, mode: 0 }),
        ),
        touching(at, req, seq![Reply::Error(error)], 0) == StepView::<()>::Fail(9, 1),
        touching(at, req, seq![Reply::Fd(fd), granted], 0) == StepView::<()>::Call(
            CallView::Do(Call::Close { fd }),
        ),
        touching(at, req, seq![Reply::Fd(fd), granted, closed], 0) == StepView::Done((), 3),
        touching(at, req, seq![Reply::Fd(fd), Reply::Error(error), closed], 0) == StepView::<
            (),
        >::Fail(error.raw, 3),
{
    lemma_words();
}

/// In a sandbox a write takes the capability out of the file's record first, and
/// the bits that lend its authority where that was asked. A file that has neither
/// is written to at once, and one whose record cannot be written is not.
pub proof fn sandbox_writes_drop_privileges(
    fs: FsView,
    ctx: Context,
    fd: i32,
    size: u32,
    offset: u64,
    kill_priv: bool,
    st: Stat,
    absent: HostError,
    error: HostError,
    record_size: u64,
    bytes: Vec<u8>,
    m: MetadataView,
    granted: Reply,
    count: u64,
)
    requires
        fs.cfg.semantics is Sandbox,
        fs.cfg.semantics->Sandbox_0.xattrs_enabled,
        absent.raw == 93,
        record_of(bytes@) == Some(m),
        m.mode & 0o170000 == st.mode as u32 & 0o170000,
        !(granted is Error),
    ensures
        ({
            let run = |log: Seq<Reply>| writing_file(fs, ctx, fd, size, offset, kill_priv, log);
            let at = Node::Fd(fd);
            let write = StepView::<u64>::Call(CallView::Do(Call::Write { fd, size, offset }));
            let looked = Reply::Stat(st);
            let native = seq![looked, Reply::Error(absent)];
            let recorded = seq![looked, Reply::Count(record_size), Reply::Bytes(bytes)];
            let bare = st.mode as u32;
            &&& looks_at(run(Seq::empty()), at)
            &&& !kill_priv || is_plain(bare, bare) ==> run(native) == write
            &&& !kill_priv ==> stores_record(
                run(recorded),
                at,
                MetadataView { capability: None, ..m },
            )
            &&& kill_priv ==> exists|p: u32| #[trigger]
                is_plain(p, m.mode) && stores_record(
                    run(recorded),
                    at,
                    MetadataView { capability: None, mode: p, ..m },
                )
            &&& run(recorded.push(granted)) == write
            &&& run(recorded.push(Reply::Error(error))) == StepView::<u64>::Fail(error.linux, 4)
            &&& run(recorded.push(granted).push(Reply::Count(count))) == StepView::Done(count, 5)
        }),
{
    reveal_with_fuel(crate::sandbox::reading, 2);
    let recorded = seq![Reply::Stat(st), Reply::Count(record_size), Reply::Bytes(bytes)];
    let four = recorded.push(granted);
    let bad = recorded.push(Reply::Error(error));
    let five = four.push(Reply::Count(count));
    assert(four[0] == recorded[0] && four[1] == recorded[1] && four[2] == recorded[2] && four[3]
        == granted);
    assert(bad[0] == recorded[0] && bad[1] == recorded[1] && bad[2] == recorded[2] && bad[3]
        == Reply::Error(error));
    assert(five[0] == recorded[0] && five[1] == recorded[1] && five[2] == recorded[2] && five[3]
        == granted && five[4] == Reply::Count(count));
    super::view_laws::lemma_unprivileged(m.mode);
    super::view_laws::lemma_unprivileged(st.mode as u32);
    super::view_laws::lemma_plain_is_unchanged(
        st.mode as u32,
        crate::stat::unprivileged(st.mode as u32),
    );
}

/// Where a file has no record and no privileges, there is nothing to take away.
proof fn lemma_nothing_to_drop(
    config: crate::config::SandboxConfig,
    fd: i32,
    kill_priv: bool,
    log: Seq<Reply>,
    pos: int,
    st: Stat,
    absent: HostError,
)
    requires
        0 <= pos,
        pos + 1 < log.len(),
        log[pos] == Reply::Stat(st),
        log[pos + 1] == Reply::Error(absent),
        absent.raw == 93,
        is_plain(st.mode as u32, st.mode as u32) || !kill_priv,
    ensures
        crate::sandbox::updating(
            config,
            Node::Fd(fd),
            None,
            crate::sandbox::content_change(kill_priv),
            log,
            pos,
        ) == StepView::Done((), pos + 2),
{
    super::view_laws::lemma_unprivileged(st.mode as u32);
    super::view_laws::lemma_plain_is_unchanged(
        st.mode as u32,
        crate::stat::unprivileged(st.mode as u32),
    );
    assert(crate::sandbox::reading(Node::Fd(fd), st, log, pos + 1) == StepView::Done(
        None::<MetadataView>,
        pos + 2,
    ));
}

/// In a sandbox a file that is opened to be cut loses its privileges first and its
/// contents then, through the descriptor that the guest gets.
pub proof fn sandbox_opens_cut_the_file(
    fs: FsView,
    ctx: Context,
    inode: u64,
    kill_priv: bool,
    flags: u32,
    fd: i32,
    st: Stat,
    absent: HostError,
    error: HostError,
    granted: Reply,
    closed: Reply,
)
    requires
        fs.cfg.semantics is Sandbox,
        fs.cfg.semantics->Sandbox_0.xattrs_enabled,
        fs.inodes.contains_key(inode),
        flags & 0x200 != 0,
        absent.raw == 93,
        is_plain(st.mode as u32, st.mode as u32) || !kill_priv,
        !(granted is Error),
    ensures
        ({
            let run = |log: Seq<Reply>| opening_file(fs, ctx, inode, kill_priv, flags, log);
            let opened = Reply::Fd(fd);
            let (looked, none) = (Reply::Stat(st), Reply::Error(absent));
            &&& looks_at(run(seq![opened]), Node::Fd(fd))
            &&& run(seq![opened, looked, none]) == StepView::<i32>::Call(
                CallView::Do(Call::Truncate { fd, size: 0 }),
            )
            &&& run(seq![opened, looked, none, granted]) == StepView::Done(fd, 4)
            &&& run(seq![opened, looked, none, Reply::Error(error)]) == StepView::<i32>::Call(
                CallView::Do(Call::Close { fd }),
            )
            &&& run(seq![opened, looked, none, Reply::Error(error), closed]) == StepView::<
                i32,
            >::Fail(error.linux, 5)
        }),
{
    crate::opening::flags_are_kept(flags);
    let config = fs.cfg.semantics->Sandbox_0;
    let (opened, looked, none) = (Reply::Fd(fd), Reply::Stat(st), Reply::Error(absent));
    let three = seq![opened, looked, none];
    let four = seq![opened, looked, none, granted];
    let bad = seq![opened, looked, none, Reply::Error(error)];
    let all = seq![opened, looked, none, Reply::Error(error), closed];
    lemma_nothing_to_drop(config, fd, kill_priv, three, 1, st, absent);
    lemma_nothing_to_drop(config, fd, kill_priv, four, 1, st, absent);
    lemma_nothing_to_drop(config, fd, kill_priv, bad, 1, st, absent);
    lemma_nothing_to_drop(config, fd, kill_priv, all, 1, st, absent);
}

/// A file that was cut through an open handle loses its privileges, as one that was
/// written to does: its capability is taken away next.
pub proof fn cut_files_lose_privileges(
    fs: FsView,
    ctx: Context,
    req: SetattrRequest,
    handle: u64,
    granted: Reply,
    error: HostError,
)
    requires
        fs.cfg.semantics == PermissionSemantics::LinuxSimplified || fs.cfg.semantics
            == PermissionSemantics::LinuxComplete,
        req.handle == Some(handle),
        fs.handles.open.contains_key(handle),
        fs.handles.open[handle].inode == req.inode,
        req.valid == 8,
        !(granted is Error),
    ensures
        ({
            let fd = fs.handles.open[handle].fd;
            let run = |log: Seq<Reply>| setting_attributes(fs, ctx, req, log);
            &&& run(Seq::empty()) == StepView::<(Stat, Duration)>::Call(
                CallView::Do(Call::Truncate { fd, size: req.attr.size }),
            )
            &&& run(seq![Reply::Error(error)]) == StepView::<(Stat, Duration)>::Fail(
                error.linux,
                1,
            )
            &&& run(seq![granted]) == StepView::<(Stat, Duration)>::Call(
                CallView::Do(
                    Call::RemoveAttr { at: Node::Fd(fd), attr: Attr::Capability, options: 0 },
                ),
            )
        }),
{
    let valid = req.valid;
    assert(valid == 8 ==> valid & 1 == 0 && valid & (2u32 | 4) == 0 && valid & 8 == 8)
        by (bit_vector);
}

} // verus!
