//! What each request comes to as it is served: what it asks of the host first,
//! what it answers, and what the file system knows afterwards. These laws are of
//! the functions that serve the requests themselves.

use vstd::prelude::*;
use crate::bits::lemma_words;
use crate::config::{CachePolicy, Config, Duration, PermissionSemantics};
use crate::handles::{Fill, HandleData, ListStart};
use crate::host::{Attr, Call, CallView, HostError, Node, Reply, Slot, Step, StepView};
use crate::stat::{Context, Stat};
use super::create::{CreateRequest, NodeRequest};
use super::effects::{file_of, name_in, reached};
use super::entry_laws::looks_at;
use super::file_laws::{opens_as, same_bits};
use super::mapping::{MapRequest, SharedRegion, UnmapRequest};
use super::setattr::SetattrRequest;
use super::xattr::XattrReply;
use super::{Entry, FsView, PassthroughFs};

verus! {

/// The handle is of the inode, and its descriptor is `fd`.
pub open spec fn is_open(fs: FsView, inode: u64, handle: u64, fd: i32) -> bool {
    fs.handles.open.contains_key(handle) && fs.handles.open[handle].inode == inode
        && fs.handles.open[handle].fd == fd
}

/// A step that asks for one call.
pub open spec fn asks<T>(step: StepView<T>, call: Call) -> bool {
    step == StepView::<T>::Call(CallView::Do(call))
}

/// A request is refused at once.
pub open spec fn refuses<T>(step: StepView<T>, error: i32) -> bool {
    step == StepView::<T>::Fail(error, 0)
}

/// A read asks for the bytes that the guest asked for, of the open file.
pub proof fn read_reads(
    fs: &PassthroughFs,
    inode: u64,
    handle: u64,
    size: u32,
    offset: u64,
    log: &Vec<Reply>,
    r: Step<u64>,
    fd: i32,
    count: u64,
)
    requires
        call_ensures(PassthroughFs::read, (fs, inode, handle, size, offset, log), r),
    ensures
        is_open(fs@, inode, handle, fd) && log@.len() == 0 ==> asks(
            r@,
            Call::Read { fd, size, offset },
        ),
        is_open(fs@, inode, handle, fd) && log@ == seq![Reply::Count(count)] ==> r@
            == StepView::Done(count, 1),
        (forall|f: i32| !is_open(fs@, inode, handle, f)) ==> refuses(r@, 9),
{
    assert(is_open(fs@, inode, handle, fs@.handles.open[handle].fd) || !(
    fs@.handles.open.contains_key(handle) && fs@.handles.open[handle].inode == inode));
}

/// A write asks for the guest's bytes to be put where the guest says, into the
/// open file. In a sandbox the file is looked at before.
pub proof fn write_writes(
    fs: &PassthroughFs,
    ctx: Context,
    inode: u64,
    handle: u64,
    size: u32,
    offset: u64,
    kill_priv: bool,
    log: &Vec<Reply>,
    r: Step<u64>,
    fd: i32,
    count: u64,
)
    requires
        call_ensures(
            PassthroughFs::write,
            (fs, ctx, inode, handle, size, offset, kill_priv, log),
            r,
        ),
    ensures
        is_open(fs@, inode, handle, fd) && log@.len() == 0 && !(fs@.cfg.semantics is Sandbox)
            ==> asks(r@, Call::Write { fd, size, offset }),
        is_open(fs@, inode, handle, fd) && log@.len() == 0 && fs@.cfg.semantics is Sandbox
            ==> looks_at(r@, Node::Fd(fd)),
        is_open(fs@, inode, handle, fd) && log@ == seq![Reply::Count(count)] && !(
        fs@.cfg.semantics is Sandbox) && !kill_priv ==> r@ == StepView::Done(count, 1),
        is_open(fs@, inode, handle, fd) && log@ == seq![Reply::Count(count)] && !(
        fs@.cfg.semantics is Sandbox) && kill_priv ==> asks(
            r@,
            Call::RemoveAttr { at: Node::Fd(fd), attr: Attr::Capability, options: 0 },
        ),
        match r@ {
            StepView::Call(CallView::Do(Call::Write { fd: f, size: s, offset: o })) => is_open(
                fs@,
                inode,
                handle,
                f,
            ) && s == size && o == offset,
            _ => true,
        },
        (forall|f: i32| !is_open(fs@, inode, handle, f)) ==> refuses(r@, 9),
{
    let open = fs@.handles.open[handle].fd;
    assert(is_open(fs@, inode, handle, open) || !(fs@.handles.open.contains_key(handle)
        && fs@.handles.open[handle].inode == inode));
    super::effects::writes_go_where_the_guest_says(
        fs@,
        ctx,
        open,
        size,
        offset,
        kill_priv,
        log@,
    );
}

/// Requests on an open file are on its descriptor: a seek by the guest's offset,
/// an allocation of the guest's part, a flush through a duplicate, and a sync.
pub proof fn handles_are_served_by_their_descriptor(
    fs: &PassthroughFs,
    inode: u64,
    handle: u64,
    offset: u64,
    length: u64,
    whence: u32,
    mode: u32,
    log: &Vec<Reply>,
    sought: Step<u64>,
    allocated: Step<()>,
    flushed: Step<()>,
    synced: Step<()>,
    fd: i32,
)
    requires
        log@.len() == 0,
        call_ensures(PassthroughFs::lseek, (fs, inode, handle, offset, whence, log), sought),
        call_ensures(
            PassthroughFs::fallocate,
            (fs, inode, handle, mode, offset, length, log),
            allocated,
        ),
        call_ensures(PassthroughFs::flush, (fs, inode, handle, log), flushed),
        call_ensures(PassthroughFs::fsync, (fs, inode, handle, log), synced),
    ensures
        is_open(fs@, inode, handle, fd) ==> {
            &&& whence == 3 ==> sought@ == StepView::Done(offset, 0)
            &&& whence != 3 ==> exists|s: i64| #[trigger]
                same_bits(s, offset) && asks(
                    sought@,
                    Call::Seek {
                        fd,
                        offset: s,
                        whence: if whence == 4 {
                            2
                        } else {
                            whence
                        },
                    },
                )
            &&& mode == 0 || mode == 1 ==> looks_at(allocated@, Node::Fd(fd))
            &&& mode == 2 ==> refuses(allocated@, 22)
            &&& mode == 3 ==> exists|o: i64, l: i64| #[trigger]
                same_bits(o, offset) && #[trigger] same_bits(l, length) && asks(
                    allocated@,
                    Call::PunchHole { fd, offset: o, length: l },
                )
            &&& asks(flushed@, Call::Dup { fd })
            &&& asks(synced@, Call::Sync { fd })
        },
        (forall|f: i32| !is_open(fs@, inode, handle, f)) ==> {
            &&& refuses(sought@, 9)
            &&& refuses(allocated@, 9)
            &&& refuses(flushed@, 9)
            &&& refuses(synced@, 9)
        },
{
    lemma_words();
    assert(same_bits(super::io::signed(offset), offset));
    assert(same_bits(super::io::signed(length), length));
    assert(is_open(fs@, inode, handle, fs@.handles.open[handle].fd) || !(
    fs@.handles.open.contains_key(handle) && fs@.handles.open[handle].inode == inode));
    assert((mode == 0 ==> mode & !3u32 == 0 && mode & 2 == 0 && mode & 1 == 0) && (mode == 1
        ==> mode & !3u32 == 0 && mode & 2 == 0 && mode & 1 != 0) && (mode == 2 ==> mode & !3u32 == 0
        && mode & 2 != 0 && mode & 1 == 0) && (mode == 3 ==> mode & !3u32 == 0 && mode & 2 != 0
        && mode & 1 != 0)) by (bit_vector);
}

/// Requests on an inode are on the file that it is reached by.
pub proof fn inodes_are_served_by_their_file(
    fs: &PassthroughFs,
    ctx: Context,
    inode: u64,
    mask: u32,
    log: &Vec<Reply>,
    target: Step<Vec<u8>>,
    attributes: Step<(Stat, Duration)>,
    checked: Step<()>,
    set: Step<(Stat, Duration)>,
    req: SetattrRequest,
)
    requires
        log@.len() == 0,
        req.inode == inode,
        req.handle is None,
        req.valid == 0,
        call_ensures(PassthroughFs::readlink, (fs, inode, log), target),
        call_ensures(PassthroughFs::getattr, (fs, ctx, inode, log), attributes),
        call_ensures(PassthroughFs::access, (fs, ctx, inode, mask, log), checked),
        call_ensures(PassthroughFs::setattr, (fs, ctx, req, log), set),
    ensures
        fs@.inodes.contains_key(inode) ==> {
            let at = reached(fs@, inode);
            let opens = Call::Open { at, flags: 0x120_8004, mode: 0 };
            &&& asks(target@, Call::ReadLink { at })
            &&& if fs@.cfg.semantics is Sandbox && !(at is Fd) {
                asks(attributes@, opens) && asks(checked@, opens) && asks(set@, opens)
            } else {
                looks_at(attributes@, at) && looks_at(checked@, at) && looks_at(set@, at)
            }
        },
        !fs@.inodes.contains_key(inode) ==> {
            &&& refuses(target@, 9)
            &&& refuses(attributes@, 9)
            &&& refuses(checked@, 9)
            &&& refuses(set@, 9)
        },
{
    lemma_words();
    super::entry_laws::set_attributes_are_answered(fs@, ctx, req, log@);
    if fs@.inodes.contains_key(inode) {
        assert(super::attribute_laws::is_target(fs@, req, reached(fs@, inode)));
    } else {
        assert forall|at: Node| !super::attribute_laws::is_target(fs@, req, at) by {}
    }
}

/// The rights that are checked are those that were asked for, of the process that
/// asked. This is how under simplified semantics, where every file is its own.
pub proof fn access_checks_what_was_asked(
    fs: &PassthroughFs,
    ctx: Context,
    inode: u64,
    mask: u32,
    log: &Vec<Reply>,
    r: Step<()>,
    st: Stat,
)
    requires
        call_ensures(PassthroughFs::access, (fs, ctx, inode, mask, log), r),
        fs@.cfg.semantics == PermissionSemantics::LinuxSimplified,
        fs@.inodes.contains_key(inode),
        log@ == seq![Reply::Stat(st)],
    ensures
        ({
            let seen = Stat { uid: ctx.uid, gid: ctx.gid, ..st };
            if super::view_laws::has_rights(ctx, seen, mask) {
                r@ == StepView::Done((), 1)
            } else {
                r@ == StepView::<()>::Fail(13, 1)
            }
        }),
{
    super::view_laws::getattr_shows_the_inode(fs@, ctx, inode, mask, log@);
}

/// A lookup looks at the request's name in the directory; the guest that is told
/// of a file holds a reference to it, and nothing else changes.
pub proof fn lookup_looks_up(
    fs: &mut PassthroughFs,
    ctx: Context,
    parent: u64,
    log: &Vec<Reply>,
    r: Step<Entry>,
)
    requires
        call_ensures(PassthroughFs::lookup, (fs, ctx, parent, log), r),
    ensures
        !old(fs)@.inodes.contains_key(parent) ==> refuses(r@, 9),
        old(fs)@.inodes.contains_key(parent) && log@.len() == 0 ==> {
            let name = name_in(old(fs)@, parent, Slot::Name);
            if old(fs)@.cfg.semantics is Sandbox {
                asks(r@, Call::Open { at: name, flags: 0x120_8004, mode: 0 })
            } else {
                looks_at(r@, name)
            }
        },
        remembers(old(fs)@, r@, final(fs)@),
{
    lemma_words();
}

/// What the file system knows after a request that tells of a file: one reference
/// more to what it told of, and nothing where it did not.
pub open spec fn remembers(before: FsView, step: StepView<Entry>, after: FsView) -> bool {
    match step {
        StepView::Done(entry, _) => after == before.with_entry(entry),
        _ => after == before,
    }
}

/// What is made is made under the request's name in the directory that it names,
/// and the guest that is told of it holds a reference to it.
pub proof fn makings_make_what_was_asked(
    fs: &mut PassthroughFs,
    ctx: Context,
    req: NodeRequest,
    log: &Vec<Reply>,
    r: Step<Entry>,
)
    requires
        call_ensures(PassthroughFs::mkdir, (fs, ctx, req, log), r),
    ensures
        old(fs)@.inodes.contains_key(req.parent) && log@.len() == 0 && !req.labelled ==> {
            let at = name_in(old(fs)@, req.parent, Slot::Name);
            if old(fs)@.cfg.semantics is LinuxSimplified {
                asks(
                    r@,
                    Call::MakeDir { at, mode: ((req.mode & !req.umask) % 0x1_0000) as u16 },
                )
            } else {
                asks(r@, Call::MakeDir { at, mode: 0o700 })
            }
        },
        !old(fs)@.inodes.contains_key(req.parent) && !req.labelled ==> refuses(r@, 9),
        remembers(old(fs)@, r@, final(fs)@),
{
}

/// The same of a special file.
pub proof fn mknod_makes_what_was_asked(
    fs: &mut PassthroughFs,
    ctx: Context,
    req: NodeRequest,
    log: &Vec<Reply>,
    r: Step<Entry>,
)
    requires
        call_ensures(PassthroughFs::mknod, (fs, ctx, req, log), r),
    ensures
        old(fs)@.inodes.contains_key(req.parent) && log@.len() == 0 && !req.labelled && (req.mode
            % 0x1_0000) as u16 & 0o170000u16 != 0o140000 && old(fs)@.cfg.semantics is LinuxSimplified
            ==> asks(
            r@,
            Call::MakeNode {
                at: name_in(old(fs)@, req.parent, Slot::Name),
                mode: ((req.mode & !req.umask) % 0x1_0000) as u16,
                rdev: req.rdev,
            },
        ),
        old(fs)@.inodes.contains_key(req.parent) && log@.len() == 0 && old(fs)@.cfg.semantics is LinuxComplete ==> asks(
            r@,
            Call::Open {
                at: name_in(old(fs)@, req.parent, Slot::Name),
                flags: 0x100_0300,
                mode: 0o600,
            },
        ),
        remembers(old(fs)@, r@, final(fs)@),
{
    lemma_words();
}

/// The same of a symbolic link.
pub proof fn symlink_makes_what_was_asked(
    fs: &mut PassthroughFs,
    ctx: Context,
    parent: u64,
    labelled: bool,
    log: &Vec<Reply>,
    r: Step<Entry>,
)
    requires
        call_ensures(PassthroughFs::symlink, (fs, ctx, parent, labelled, log), r),
    ensures
        old(fs)@.inodes.contains_key(parent) && log@.len() == 0 && !labelled ==> asks(
            r@,
            Call::MakeLink { at: name_in(old(fs)@, parent, Slot::Name) },
        ),
        !old(fs)@.inodes.contains_key(parent) && !labelled ==> refuses(r@, 9),
        remembers(old(fs)@, r@, final(fs)@),
{
}

/// The same of another name for an inode.
pub proof fn link_makes_what_was_asked(
    fs: &mut PassthroughFs,
    ctx: Context,
    inode: u64,
    parent: u64,
    log: &Vec<Reply>,
    r: Step<Entry>,
)
    requires
        call_ensures(PassthroughFs::link, (fs, ctx, inode, parent, log), r),
    ensures
        old(fs)@.inodes.contains_key(inode) && old(fs)@.inodes.contains_key(parent) && log@.len()
            == 0 ==> asks(
            r@,
            Call::HardLink {
                from: file_of(old(fs)@, inode),
                to: name_in(old(fs)@, parent, Slot::Name),
            },
        ),
        !old(fs)@.inodes.contains_key(inode) || !old(fs)@.inodes.contains_key(parent) ==> refuses(
            r@,
            9,
        ),
        remembers(old(fs)@, r@, final(fs)@),
{
}

/// What the guest is told of an open file or directory.
pub open spec fn told_options(cfg: Config, directory: bool) -> u32 {
    match (cfg.cache_policy, directory) {
        (CachePolicy::Never, false) => 1u32,
        (CachePolicy::Always, false) => 2,
        (CachePolicy::Always, true) => 8,
        _ => 0,
    }
}

/// A created file is handed out under the next handle, as the open file of the
/// inode that the guest is told of, and the guest holds a reference to it.
pub proof fn create_creates(
    fs: &mut PassthroughFs,
    ctx: Context,
    req: CreateRequest,
    log: &Vec<Reply>,
    r: Step<(Entry, u64, u32)>,
)
    requires
        call_ensures(PassthroughFs::create, (fs, ctx, req, log), r),
    ensures
        match r@ {
            StepView::Done((entry, handle, options), _) => {
                let after = final(fs)@;
                let told = old(fs)@.with_entry(entry);
                &&& handle == old(fs)@.handles.next
                &&& options == told_options(old(fs)@.cfg, false)
                &&& after.inodes == told.inodes
                &&& after.handles.open.dom() == old(fs)@.handles.open.dom().insert(handle)
                &&& after.handles.open[handle].inode == entry.inode
                &&& exists|k: int|
                    0 <= k < log@.len() && #[trigger] log@[k] == Reply::Fd(
                        after.handles.open[handle].fd,
                    )
                &&& forall|other: u64|
                    other != handle ==> #[trigger] after.handles.open[other] == old(fs)@.handles.open[other]
            },
            _ => final(fs)@ == old(fs)@,
        },
        !old(fs)@.inodes.contains_key(req.parent) && !req.labelled ==> refuses(r@, 9),
{
    super::creation_laws::create_makes_the_file(old(fs)@, ctx, req, log@);
    if let StepView::Done((entry, handle, _), _) = r@ {
        assert(final(fs)@.handles.open.dom() =~= old(fs)@.handles.open.dom().insert(handle));
    }
}

/// A file that is opened is the inode's, and is handed out under the next handle;
/// so is a directory, of which the guest is told as one.
pub proof fn open_opens(
    fs: &mut PassthroughFs,
    ctx: Context,
    inode: u64,
    kill_priv: bool,
    flags: u32,
    log: &Vec<Reply>,
    r: Step<(u64, u32)>,
)
    requires
        call_ensures(PassthroughFs::open, (fs, ctx, inode, kill_priv, flags, log), r),
    ensures
        opens_the_inode(old(fs)@, inode, flags, log@, r@, final(fs)@, false),
{
    lemma_opened(old(fs)@, ctx, inode, kill_priv, flags, false, log@, r@, final(fs)@);
}

/// The same of a directory.
pub proof fn opendir_opens(
    fs: &mut PassthroughFs,
    ctx: Context,
    inode: u64,
    flags: u32,
    log: &Vec<Reply>,
    r: Step<(u64, u32)>,
)
    requires
        call_ensures(PassthroughFs::opendir, (fs, ctx, inode, flags, log), r),
    ensures
        opens_the_inode(old(fs)@, inode, flags, log@, r@, final(fs)@, true),
{
    lemma_opened(old(fs)@, ctx, inode, false, flags, true, log@, r@, final(fs)@);
}

/// An open of an inode, from the first call that it asks for to the handle that it
/// hands out.
pub open spec fn opens_the_inode(
    before: FsView,
    inode: u64,
    flags: u32,
    log: Seq<Reply>,
    step: StepView<(u64, u32)>,
    after: FsView,
    directory: bool,
) -> bool {
    &&& !before.inodes.contains_key(inode) ==> refuses(step, 9)
    &&& before.inodes.contains_key(inode) && log.len() == 0 ==> if before.inodes[inode].unlinked_fd
        >= 0 {
        asks(step, Call::Dup { fd: before.inodes[inode].unlinked_fd })
    } else {
        exists|f: u32| #[trigger]
            opens_as(f, flags, before.writeback, before.cfg.semantics is Sandbox) && asks(
                step,
                Call::Open { at: file_of(before, inode), flags: f, mode: 0 },
            )
    }
    &&& match step {
        StepView::Done((handle, options), _) => {
            &&& handle == before.handles.next
            &&& options == told_options(before.cfg, directory)
            &&& after.handles.open.dom() == before.handles.open.dom().insert(handle)
            &&& after.handles.open[handle].inode == inode
            &&& log.len() > 0 && log[0] == Reply::Fd(after.handles.open[handle].fd)
            &&& forall|other: u64|
                other != handle ==> #[trigger] after.handles.open[other]
                    == before.handles.open[other]
            &&& after.inodes == before.inodes
        },
        _ => after == before,
    }
}

proof fn lemma_opened(
    before: FsView,
    ctx: Context,
    inode: u64,
    kill_priv: bool,
    flags: u32,
    directory: bool,
    log: Seq<Reply>,
    step: StepView<(u64, u32)>,
    after: FsView,
)
    requires
        super::io::opened(before, ctx, inode, kill_priv, flags, directory, log, step, after),
    ensures
        opens_the_inode(before, inode, flags, log, step, after, directory),
{
    if let StepView::Done((handle, options), n) = step {
        super::file_laws::opened_files_are_the_hosts(
            before,
            ctx,
            inode,
            kill_priv,
            flags,
            directory,
            log,
            handle,
            options,
            n,
            after,
        );
    }
    if before.inodes.contains_key(inode) && log.len() == 0 {
        super::file_laws::open_opens_the_inode(
            before,
            ctx,
            inode,
            kill_priv,
            flags,
            0,
            HostError { raw: 0, linux: 0 },
        );
        assert(log =~= Seq::empty());
        let run = super::io::opening_file(before, ctx, inode, kill_priv, flags, Seq::empty());
        if before.inodes[inode].unlinked_fd < 0 {
            let f = choose|f: u32| #[trigger]
                opens_as(f, flags, before.writeback, before.cfg.semantics is Sandbox) && run
                    == StepView::<i32>::Call(
                    CallView::Do(Call::Open { at: file_of(before, inode), flags: f, mode: 0 }),
                );
            assert(opens_as(f, flags, before.writeback, before.cfg.semantics is Sandbox));
        }
    }
}

/// A released handle gives its descriptor back to be closed, and is good no more.
pub proof fn release_releases(
    fs: &mut PassthroughFs,
    inode: u64,
    handle: u64,
    r: Result<i32, i32>,
    fd: i32,
)
    requires
        call_ensures(PassthroughFs::do_release, (fs, inode, handle), r),
    ensures
        is_open(old(fs)@, inode, handle, fd) ==> {
            &&& r == Ok::<i32, i32>(fd)
            &&& final(fs)@.handles.open == old(fs)@.handles.open.remove(handle)
            &&& final(fs)@.handles.next == old(fs)@.handles.next
            &&& final(fs)@.inodes == old(fs)@.inodes
        },
        (forall|f: i32| !is_open(old(fs)@, inode, handle, f)) ==> r == Err::<i32, i32>(9)
            && final(fs)@ == old(fs)@,
{
    let before = old(fs)@;
    assert(is_open(before, inode, handle, before.handles.open[handle].fd) || !(
    before.handles.open.contains_key(handle) && before.handles.open[handle].inode == inode));
}

/// A file is removed as a file, and a directory as one, from the directory that
/// the request names.
pub proof fn unlink_removes(
    fs: &mut PassthroughFs,
    parent: u64,
    log: &Vec<Reply>,
    r: Step<()>,
    dir: i32,
    missed: HostError,
)
    requires
        call_ensures(PassthroughFs::unlink, (fs, parent, log), r),
    ensures
        removes_from(old(fs)@, parent, 0, log@, r@, final(fs)@, dir, missed),
{
    lemma_words();
}

/// The same of a directory.
pub proof fn rmdir_removes(
    fs: &mut PassthroughFs,
    parent: u64,
    log: &Vec<Reply>,
    r: Step<()>,
    dir: i32,
    missed: HostError,
)
    requires
        call_ensures(PassthroughFs::rmdir, (fs, parent, log), r),
    ensures
        removes_from(old(fs)@, parent, 0x80, log@, r@, final(fs)@, dir, missed),
{
    lemma_words();
}

/// A removal from the directory that the request names, up to the call that
/// removes the name.
pub open spec fn removes_from(
    before: FsView,
    parent: u64,
    flags: u32,
    log: Seq<Reply>,
    step: StepView<()>,
    after: FsView,
    dir: i32,
    missed: HostError,
) -> bool {
    let kept = before.inodes[parent].unlinked_fd;
    &&& !before.inodes.contains_key(parent) ==> refuses(step, 9)
    &&& before.inodes.contains_key(parent) && kept < 0 && log.len() == 0 ==> asks(
        step,
        Call::Open { at: file_of(before, parent), flags: 0x100_0100, mode: 0 },
    )
    &&& before.inodes.contains_key(parent) && kept < 0 && log == seq![
        Reply::Fd(dir),
        Reply::Error(missed),
    ] ==> asks(step, Call::Unlink { dir, slot: Slot::Name, flags })
    &&& before.inodes.contains_key(parent) && kept >= 0 && log == seq![Reply::Error(missed)]
        ==> asks(step, Call::Unlink { dir: kept, slot: Slot::Name, flags })
    &&& !(step is Done) ==> after == before
}

/// A rename is from the one directory to the other, with the guest's options.
pub proof fn rename_renames(
    fs: &mut PassthroughFs,
    ctx: Context,
    olddir: u64,
    newdir: u64,
    flags: u32,
    log: &Vec<Reply>,
    r: Step<()>,
)
    requires
        call_ensures(PassthroughFs::rename, (fs, ctx, olddir, newdir, flags, log), r),
    ensures
        match r@ {
            StepView::Call(CallView::Do(Call::Rename { from, to, flags: f })) => {
                &&& from == name_in(old(fs)@, olddir, Slot::Name)
                &&& to == name_in(old(fs)@, newdir, Slot::NewName)
                &&& super::effects::rename_flags_agree(f, flags)
            },
            _ => true,
        },
        old(fs)@.inodes.contains_key(olddir) && old(fs)@.inodes.contains_key(newdir) && flags & 2
            != 0 && flags & 4 == 0 && log@.len() == 0 ==> r@ matches StepView::Call(
            CallView::Do(Call::Rename { .. }),
        ),
        final(fs)@ == (FsView { inodes: final(fs)@.inodes, ..old(fs)@ }),
        final(fs)@.handles == old(fs)@.handles,
{
    super::effects::rename_moves_the_name(old(fs)@, ctx, olddir, newdir, flags, log@);
    assert(flags & 2 != 0 ==> flags & (2u32 | 1) != 0) by (bit_vector);
}

/// References are dropped from the inode that the guest names, as many as it says.
pub proof fn forget_forgets(
    fs: &mut PassthroughFs,
    inode: u64,
    count: u64,
    r: Option<i32>,
    other: u64,
)
    requires
        call_ensures(PassthroughFs::forget, (fs, inode, count), r),
    ensures
        ({
            let (before, after) = (old(fs)@, final(fs)@);
            let data = before.inodes[inode];
            &&& !before.inodes.contains_key(inode) ==> r is None && after.inodes == before.inodes
            &&& before.inodes.contains_key(inode) && data.refcount <= count ==> {
                &&& after.inodes == before.inodes.remove(inode)
                &&& data.unlinked_fd >= 0 ==> r == Some(data.unlinked_fd)
                &&& data.unlinked_fd < 0 ==> r is None
            }
            &&& before.inodes.contains_key(inode) && data.refcount > count ==> {
                &&& r is None
                &&& after.inodes.contains_key(inode)
                &&& after.inodes[inode].refcount == data.refcount - count
                &&& after.inodes[inode].unlinked_fd == data.unlinked_fd
            }
            &&& other != inode ==> (after.inodes.contains_key(other)
                <==> before.inodes.contains_key(other)) && after.inodes[other]
                == before.inodes[other]
            &&& after.handles == before.handles
        }),
{
}

/// Several requests to drop references come to what they come to one by one.
pub proof fn batch_forget_forgets(
    fs: &mut PassthroughFs,
    requests: &Vec<(u64, u64)>,
    r: Vec<i32>,
    a: Seq<(u64, u64)>,
    b: Seq<(u64, u64)>,
)
    requires
        call_ensures(PassthroughFs::batch_forget, (fs, requests), r),
        requests@ == a + b,
    ensures
        ({
            let middle = crate::inodes::all_forgotten(old(fs)@.inodes, a);
            &&& final(fs)@.inodes == crate::inodes::all_forgotten(middle, b)
            &&& r@ == crate::inodes::all_released(old(fs)@.inodes, a)
                + crate::inodes::all_released(middle, b)
            &&& final(fs)@.handles == old(fs)@.handles
        }),
{
    crate::inodes::forgets_come_one_after_the_other(old(fs)@.inodes, a, b, 0, 0);
}

/// Serving starts with the root, of which the guest then has the first number, and
/// with the features that are offered to it.
pub proof fn init_starts(
    fs: &mut PassthroughFs,
    capable: u64,
    log: &Vec<Reply>,
    r: Step<u64>,
    fd: i32,
    st: Stat,
    cleared: Reply,
    closed: Reply,
)
    requires
        call_ensures(PassthroughFs::init, (fs, capable, log), r),
    ensures
        log@.len() == 0 ==> asks(r@, Call::OpenRoot { flags: 0x100_0100 }),
        log@ == seq![Reply::Fd(fd), Reply::Stat(st), cleared, closed] ==> {
            let after = final(fs)@;
            &&& r@ is Done
            &&& after.inodes.contains_key(1)
            &&& after.inodes[1].ino == st.ino
            &&& after.inodes[1].dev == st.dev
            &&& after.inodes[1].refcount == 2
            &&& r@->Done_0 & 0x1_0000 != 0 ==> after.writeback
            &&& r@->Done_0 & 0x800_0000 != 0 ==> after.submounts
            &&& r@->Done_0 & !capable == 0
            &&& after.handles == old(fs)@.handles
        },
        !(r@ is Done) ==> final(fs)@ == old(fs)@,
{
    lemma_words();
    super::view_laws::init_finds_the_root(
        fd,
        st,
        HostError { raw: 0, linux: 0 },
        cleared,
        closed,
    );
    super::negotiation_is_sound(old(fs)@.cfg, capable);
    super::view_laws::features_are_offered_as_configured(old(fs)@.cfg, capable);
    assert((capable & 0x1_0000 != 0 ==> capable & 0x1_0000 == 0x1_0000) && (capable & 0x800_0000
        != 0 ==> capable & 0x800_0000 == 0x800_0000)) by (bit_vector);
}

/// When serving stops, every inode is forgotten, and every open file is given back
/// to be closed.
pub proof fn destroy_gives_back(
    fs: &mut PassthroughFs,
    r: std::collections::HashMap<u64, HandleData>,
    handle: u64,
)
    requires
        call_ensures(PassthroughFs::destroy, (fs,), r),
    ensures
        !final(fs)@.inodes.contains_key(handle),
        !final(fs)@.handles.open.contains_key(handle),
        final(fs)@.cfg == old(fs)@.cfg,
        r@.contains_key(handle) <==> old(fs)@.handles.open.contains_key(handle),
        r@.contains_key(handle) ==> r@[handle].fd == old(fs)@.handles.open[handle].fd,
{
    assert(crate::handles::handle_views(r@).contains_key(handle) == old(fs)@.handles.open.contains_key(handle));
    if r@.contains_key(handle) {
        assert(crate::handles::handle_views(r@)[handle] == r@[handle]@);
    }
}

/// A mapping that was made is remembered under the guest's address, with the
/// host's address behind it.
pub proof fn setupmapping_maps(
    fs: &mut PassthroughFs,
    region: SharedRegion,
    req: MapRequest,
    log: &Vec<Reply>,
    r: Step<()>,
    fd: i32,
    addr: u64,
    closed: Reply,
    shown: u64,
)
    requires
        call_ensures(PassthroughFs::setupmapping, (fs, region, req, log), r),
        old(fs)@.inodes.contains_key(req.inode),
        region.connected,
        region.guest_base + req.offset <= u64::MAX,
        req.offset + req.len <= region.size,
        shown != 0,
    ensures
        ({
            let guest = (region.guest_base + req.offset) as u64;
            let writable = req.flags & 1 != 0;
            let all = seq![Reply::Fd(fd), Reply::Count(addr), closed, Reply::Count(shown)];
            &&& log@ == all ==> {
                &&& r@ == StepView::Done((), 4)
                &&& final(fs)@.windows == old(fs)@.windows.insert(guest, addr)
            }
            &&& log@ == seq![Reply::Fd(fd)] ==> asks(
                r@,
                Call::MapFile {
                    fd,
                    len: req.len,
                    prot: if writable {
                        3
                    } else {
                        1
                    },
                    offset: req.file_offset,
                },
            )
            &&& !(r@ is Done) ==> final(fs)@ == old(fs)@
            &&& final(fs)@.inodes == old(fs)@.inodes
        }),
{
    super::file_laws::mappings_are_as_asked(
        old(fs)@,
        region,
        req,
        log@,
        fd,
        addr,
        closed,
        shown,
        closed,
        HostError { raw: 0, linux: 0 },
    );
}

/// A mapping that was taken away is forgotten; one that is not known is refused.
pub proof fn removemapping_unmaps(
    fs: &mut PassthroughFs,
    region: SharedRegion,
    requests: &Vec<UnmapRequest>,
    log: &Vec<Reply>,
    r: Step<()>,
    req: UnmapRequest,
    taken: u64,
    granted: Reply,
)
    requires
        call_ensures(PassthroughFs::removemapping, (fs, region, requests, log), r),
        requests@ == seq![req],
        region.guest_base + req.offset <= u64::MAX,
        taken != 0,
        !(granted is Error),
    ensures
        ({
            let guest = (region.guest_base + req.offset) as u64;
            let windows = old(fs)@.windows;
            let known = windows.contains_key(guest) && req.offset + req.len <= region.size;
            &&& !region.connected ==> refuses(r@, 38) && final(fs)@ == old(fs)@
            &&& region.connected && !known ==> refuses(r@, 22) && final(fs)@.windows == windows
            &&& region.connected && known ==> {
                &&& log@.len() == 0 ==> asks(r@, Call::RemoveMapping { guest, len: req.len })
                    && final(fs)@.windows == windows
                &&& log@ == seq![Reply::Count(taken)] ==> asks(
                    r@,
                    Call::UnmapFile { addr: windows[guest], len: req.len },
                )
                &&& log@ == seq![Reply::Count(taken), granted] ==> r@ == StepView::Done((), 2)
                    && final(fs)@.windows == windows.remove(guest)
            }
            &&& final(fs)@.inodes == old(fs)@.inodes
        }),
{
    super::file_laws::unmappings_are_as_asked(
        old(fs)@.windows,
        region,
        req,
        log@,
        taken,
        granted,
        HostError { raw: 0, linux: 0 },
    );
    if log@.len() == 0 {
        assert(log@ =~= Seq::empty());
    }
}

/// Requests on attributes are on the attribute that they name, of the inode that
/// they name. This is how under complete semantics.
pub proof fn attributes_are_served_by_name(
    fs: &PassthroughFs,
    inode: u64,
    name: &[u8],
    value: &[u8],
    flags: u32,
    size: u32,
    log: &Vec<Reply>,
    stored: Step<()>,
    fetched: Step<XattrReply>,
    listed: Step<XattrReply>,
    removed: Step<()>,
)
    requires
        log@.len() == 0,
        fs@.cfg.semantics == PermissionSemantics::LinuxComplete,
        fs@.inodes.contains_key(inode),
        !name@.contains(0u8),
        call_ensures(PassthroughFs::setxattr, (fs, inode, name, value, flags, log), stored),
        call_ensures(PassthroughFs::getxattr, (fs, inode, name, size, log), fetched),
        call_ensures(PassthroughFs::listxattr, (fs, inode, size, log), listed),
        call_ensures(PassthroughFs::removexattr, (fs, inode, name, log), removed),
    ensures
        !fs@.cfg.xattr ==> refuses(stored@, 38) && refuses(fetched@, 38) && refuses(listed@, 38)
            && refuses(removed@, 38),
        fs@.cfg.xattr ==> {
            let at = reached(fs@, inode);
            let foreign = super::xattr_laws::starts_with(
                name@,
                super::xattr_laws::foreign_prefix(),
            );
            &&& asks(listed@, Call::ListAttrs { at, size: 512, options: 0 })
            &&& foreign ==> refuses(stored@, 95) && refuses(fetched@, 61) && refuses(removed@, 61)
            &&& !foreign ==> {
                &&& exists|o: u32| #[trigger]
                    super::xattr_laws::stores_as(o, flags, false) && asks(
                        stored@,
                        Call::SetAttr { at, attr: Attr::Guest, options: o },
                    )
                &&& asks(removed@, Call::RemoveAttr { at, attr: Attr::Guest, options: 0 })
                &&& size > 0 ==> asks(
                    fetched@,
                    Call::GetAttr { at, attr: Attr::Guest, size: size as u64, options: 0 },
                )
                &&& size == 0 ==> asks(
                    fetched@,
                    Call::AttrSize { at, attr: Attr::Guest, options: 0 },
                )
            }
        },
{
    assert(log@ =~= Seq::empty());
    if fs@.cfg.xattr {
        super::xattr_laws::complete_attributes_are_the_hosts(
            fs@,
            inode,
            name@,
            value@,
            flags,
            size,
            log@,
            Reply::Done,
            HostError { raw: 0, linux: 0 },
            0,
            arbitrary(),
        );
    }
}

/// A listing is of the open directory that the handle is of, and hands out the
/// entry at the offset that is asked for.
pub proof fn readdir_lists(
    fs: &mut PassthroughFs,
    inode: u64,
    handle: u64,
    size: u32,
    offset: u64,
    r: Result<ListStart, i32>,
    fd: i32,
)
    requires
        call_ensures(PassthroughFs::begin_readdir, (fs, inode, handle, size, offset), r),
    ensures
        ({
            let ready = old(fs)@.handles.open[handle].stream.ready;
            let after = final(fs)@.handles.open[handle];
            &&& size == 0 ==> r == Ok::<ListStart, i32>(ListStart::Empty)
            &&& size > 0 && (forall|f: i32| !is_open(old(fs)@, inode, handle, f)) ==> r == Err::<
                ListStart,
                i32,
            >(9)
            &&& size > 0 && is_open(old(fs)@, inode, handle, fd) && !ready ==> r == Ok::<
                ListStart,
                i32,
            >(ListStart::Fill { fd })
            &&& size > 0 && is_open(old(fs)@, inode, handle, fd) && ready && offset > 0 ==> r
                == Ok::<ListStart, i32>(ListStart::Ready) && final(fs)@ == old(fs)@
            &&& size > 0 && is_open(old(fs)@, inode, handle, fd) && ready && offset == 0 ==> {
                &&& r == Ok::<ListStart, i32>(ListStart::Rewind { fd })
                &&& after.stream.entries.len() == 0
                &&& !after.stream.ready
                &&& after.fd == fd
                &&& after.inode == inode
            }
            &&& final(fs)@.inodes == old(fs)@.inodes
        }),
{
    let before = old(fs)@;
    assert(is_open(before, inode, handle, before.handles.open[handle].fd) || !(
    before.handles.open.contains_key(handle) && before.handles.open[handle].inode == inode));
}

/// A listing fails only if an error came before any entry, and is there otherwise.
pub proof fn readdir_ends(
    fs: &mut PassthroughFs,
    handle: u64,
    error: Option<i32>,
    r: Result<(), i32>,
)
    requires
        call_ensures(PassthroughFs::finish_readdir, (fs, handle, error), r),
    ensures
        ({
            let before = old(fs)@.handles.open[handle].stream;
            let after = final(fs)@.handles.open[handle].stream;
            &&& error is None || before.entries.len() > 0 ==> r == Ok::<(), i32>(()) && after.ready
                && after.entries == before.entries
            &&& error is Some && before.entries.len() == 0 ==> r == Err::<(), i32>(
                error->Some_0,
            ) && final(fs)@ == old(fs)@
        }),
{
    let before = old(fs)@.handles.open[handle].stream;
    if error is Some && before.entries.len() == 0 {
        assert(r is Err);
        assert(final(fs)@ =~= old(fs)@);
    }
    if error is None || before.entries.len() > 0 {
        assert(r is Ok);
        assert(r->Ok_0 == ());
        assert(final(fs)@.handles.open[handle].stream.ready);
        assert(final(fs)@.handles.open[handle].stream.entries == before.entries);
    }
}

} // verus!
