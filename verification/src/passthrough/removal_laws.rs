//! What removals and renames ask of the host around the name that goes, call by
//! call.

use vstd::prelude::*;
use crate::bits::lemma_words;
use crate::config::PermissionSemantics;
use crate::host::{Call, CallView, HostError, Node, Reply, Slot, StepView};
use crate::inodes::{denotes, forgotten, inode_of, lemma_inode_of, well_numbered, InodeData};
use crate::override_stat::{override_round_trip, Override};
use crate::stat::{Context, Stat};
use super::attribute_laws::stores_override;
use super::effects::{file_of, name_in};
use super::rename::{
    confirming, grabbing_target, keeping, removing, renaming, unlinked, unlinking, whiting_out, with_kept,
};
use super::view_laws::knows;
use super::{looking_up, registered, FsView};

verus! {

/// Removing a name from an open directory: the file behind it is opened, where it
/// can be, without following a link or waiting, and then the name goes. A removal
/// that the host refuses is refused, and the file is closed again.
pub proof fn removals_remove_the_name(
    m: Map<u64, InodeData>,
    dir: i32,
    flags: u32,
    file: i32,
    refused: HostError,
    error: HostError,
    granted: Reply,
    closed: Reply,
)
    requires
        !(granted is Error),
    ensures
        ({
            let run = |log: Seq<Reply>| removing(m, dir, false, flags, log, 0);
            let unlink = StepView::<Option<(u64, i32)>>::Call(
                CallView::Do(Call::Unlink { dir, slot: Slot::Name, flags }),
            );
            let missed = Reply::Error(refused);
            let grabbed = Reply::Fd(file);
            &&& run(Seq::empty()) == StepView::<Option<(u64, i32)>>::Call(
                CallView::Do(Call::OpenAt { dir, slot: Slot::Name, flags: 0x100_0104 }),
            )
            &&& run(seq![missed]) == unlink
            &&& run(seq![missed, granted]) == StepView::Done(None::<(u64, i32)>, 2)
            &&& run(seq![missed, Reply::Error(error)]) == StepView::<Option<(u64, i32)>>::Fail(
                error.linux,
                2,
            )
            &&& run(seq![grabbed]) == unlink
            &&& run(seq![grabbed, granted]) == StepView::<Option<(u64, i32)>>::Call(
                CallView::Do(Call::Stat { at: Node::Fd(file) }),
            )
            &&& run(seq![grabbed, Reply::Error(error)]) == StepView::<Option<(u64, i32)>>::Call(
                CallView::Do(Call::Close { fd: file }),
            )
            &&& run(seq![grabbed, Reply::Error(error), closed]) == StepView::<
                Option<(u64, i32)>,
            >::Fail(error.linux, 3)
        }),
{
    lemma_words();
}

/// A removal goes through the directory's own descriptor where it kept one, and
/// else through one that is opened on its host file for the purpose and closed
/// when the name is gone.
pub proof fn removals_are_in_the_parent(
    fs: FsView,
    parent: u64,
    flags: u32,
    log: Seq<Reply>,
    dir: i32,
    refused: HostError,
    error: HostError,
    granted: Reply,
    closed: Reply,
)
    requires
        !(granted is Error),
    ensures
        ({
            let run = |log: Seq<Reply>| unlinking(fs, parent, flags, log);
            let kept = fs.inodes[parent].unlinked_fd;
            let missed = Reply::Error(refused);
            let opened = Reply::Fd(dir);
            &&& !fs.inodes.contains_key(parent) ==> run(log) == StepView::<
                Option<(u64, i32)>,
            >::Fail(9, 0)
            &&& fs.inodes.contains_key(parent) && kept >= 0 ==> run(log) == removing(
                fs.inodes,
                kept,
                false,
                flags,
                log,
                0,
            )
            &&& fs.inodes.contains_key(parent) && kept < 0 ==> {
                &&& run(Seq::empty()) == StepView::<Option<(u64, i32)>>::Call(
                    CallView::Do(
                        Call::Open { at: file_of(fs, parent), flags: 0x100_0100, mode: 0 },
                    ),
                )
                &&& run(seq![Reply::Error(error)]) == StepView::<Option<(u64, i32)>>::Fail(
                    error.raw,
                    1,
                )
                &&& run(seq![opened]) == StepView::<Option<(u64, i32)>>::Call(
                    CallView::Do(Call::OpenAt { dir, slot: Slot::Name, flags: 0x100_0104 }),
                )
                &&& run(seq![opened, missed]) == StepView::<Option<(u64, i32)>>::Call(
                    CallView::Do(Call::Unlink { dir, slot: Slot::Name, flags }),
                )
                &&& run(seq![opened, missed, granted]) == StepView::<Option<(u64, i32)>>::Call(
                    CallView::Do(Call::Close { fd: dir }),
                )
                &&& run(seq![opened, missed, granted, closed]) == StepView::Done(
                    None::<(u64, i32)>,
                    4,
                )
                &&& run(seq![opened, missed, Reply::Error(error)]) == StepView::<
                    Option<(u64, i32)>,
                >::Call(CallView::Do(Call::Close { fd: dir }))
                &&& run(seq![opened, missed, Reply::Error(error), closed]) == StepView::<
                    Option<(u64, i32)>,
                >::Fail(error.linux, 4)
            }
        }),
{
    lemma_words();
}

/// A file whose name went is handed to the inode that the guest knows it by; one
/// that it does not know is closed. An inode gives up a descriptor that it had.
pub proof fn files_are_kept_by_their_inode(
    fs: FsView,
    fd: i32,
    st: Stat,
    inode: u64,
    error: HostError,
    closed: Reply,
)
    requires
        well_numbered(fs.inodes),
    ensures
        ({
            let run = |log: Seq<Reply>| keeping(fs.inodes, fd, log, 0);
            let close = StepView::<Option<(u64, i32)>>::Call(CallView::Do(Call::Close { fd }));
            let seen = Reply::Stat(st);
            &&& run(Seq::empty()) == StepView::<Option<(u64, i32)>>::Call(
                CallView::Do(Call::Stat { at: Node::Fd(fd) }),
            )
            &&& run(seq![Reply::Error(error)]) == close
            &&& run(seq![Reply::Error(error), closed]) == StepView::Done(None::<(u64, i32)>, 2)
            &&& (forall|i: u64| !#[trigger] knows(fs, i, st)) ==> run(seq![seen]) == close && run(
                seq![seen, closed],
            ) == StepView::Done(None::<(u64, i32)>, 2)
            &&& knows(fs, inode, st) && fs.inodes[inode].unlinked_fd < 0 ==> run(seq![seen])
                == StepView::Done(Some((inode, fd)), 1)
            &&& knows(fs, inode, st) && fs.inodes[inode].unlinked_fd >= 0 ==> {
                &&& run(seq![seen]) == StepView::<Option<(u64, i32)>>::Call(
                    CallView::Do(Call::Close { fd: fs.inodes[inode].unlinked_fd }),
                )
                &&& run(seq![seen, closed]) == StepView::Done(Some((inode, fd)), 2)
            }
        }),
{
    if knows(fs, inode, st) {
        lemma_inode_of(fs.inodes, inode);
    }
    if forall|i: u64| !#[trigger] knows(fs, i, st) {
        assert forall|i: u64| !denotes(fs.inodes, i, st.ino, st.dev) by {
            assert(!knows(fs, i, st));
        }
    }
}

/// A removal changes what is known of the file that lost its name, and nothing
/// else: the descriptor that it is reached by from then on.
pub proof fn removals_change_one_inode(
    before: FsView,
    parent: u64,
    flags: u32,
    log: Seq<Reply>,
    after: FsView,
    inode: u64,
    fd: i32,
    n: int,
    other: u64,
)
    requires
        unlinking(before, parent, flags, log) == StepView::Done(Some((inode, fd)), n),
        unlinked(before, parent, flags, log, StepView::Done((), n), after),
        before.inodes.contains_key(inode),
    ensures
        after.inodes.dom() == before.inodes.dom(),
        after.inodes[inode].unlinked_fd == fd,
        after.inodes[inode] == (InodeData { unlinked_fd: fd, ..before.inodes[inode] }),
        other != inode ==> after.inodes[other] == before.inodes[other],
        after == (FsView { inodes: after.inodes, ..before }),
{
    assert(after.inodes.dom() =~= before.inodes.dom());
}

/// A rename is refused that would leave a whiteout and exchange two files, or
/// leave one in a sandbox; and one between directories that are not known.
pub proof fn renames_are_refused(
    fs: FsView,
    ctx: Context,
    olddir: u64,
    newdir: u64,
    flags: u32,
    log: Seq<Reply>,
)
    ensures
        ({
            let step = renaming(fs, ctx, olddir, newdir, flags, log).step;
            let both = flags & 4 != 0 && flags & 2 != 0;
            let boxed = flags & 4 != 0 && fs.cfg.semantics is Sandbox;
            &&& both ==> step == StepView::<()>::Fail(22, 0)
            &&& !both && boxed ==> step == StepView::<()>::Fail(95, 0)
            &&& !both && !boxed && (!fs.inodes.contains_key(olddir) || !fs.inodes.contains_key(
                newdir,
            )) ==> step == StepView::<()>::Fail(9, 0)
            &&& !(step is Done) && (both || boxed) ==> renaming(
                fs,
                ctx,
                olddir,
                newdir,
                flags,
                log,
            ).inodes == fs.inodes
        }),
{
}

/// A whiteout is a character device for the guest. Under simplified semantics the
/// host is asked for one; under complete semantics a file stands for it whose type
/// is stored with it. It is closed again, and that it cannot be made is no error.
pub proof fn whiteouts_are_devices(
    at: Node,
    fd: i32,
    st: Stat,
    absent: HostError,
    error: HostError,
    closed: Reply,
)
    requires
        fd > 0,
    ensures
        ({
            let simple = |log: Seq<Reply>|
                whiting_out(PermissionSemantics::LinuxSimplified, at, log, 0);
            let complete = |log: Seq<Reply>|
                whiting_out(PermissionSemantics::LinuxComplete, at, log, 0);
            let made = Reply::Fd(fd);
            &&& simple(Seq::empty()) == StepView::<()>::Call(
                CallView::Do(Call::Open { at, flags: 0x100_0300, mode: 0o020600 }),
            )
            &&& simple(seq![Reply::Error(error)]) == StepView::Done((), 1)
            &&& simple(seq![made]) == StepView::<()>::Call(CallView::Do(Call::Close { fd }))
            &&& simple(seq![made, closed]) == StepView::Done((), 2)
            &&& complete(Seq::empty()) == StepView::<()>::Call(
                CallView::Do(Call::Open { at, flags: 0x100_0300, mode: 0o600 }),
            )
            &&& complete(seq![Reply::Error(error)]) == StepView::Done((), 1)
            &&& complete(seq![made]) == StepView::<()>::Call(
                CallView::Do(Call::Stat { at: Node::Fd(fd) }),
            )
            &&& stores_override(
                complete(seq![made, Reply::Stat(st), Reply::Error(absent)]),
                Node::Fd(fd),
                Override { uid: None, gid: None, mode: Some(0o020600) },
            )
        }),
{
    lemma_words();
    let o = Override { uid: None, gid: None, mode: Some(0o020600) };
    override_round_trip(o);
    let unset = Override { uid: None, gid: None, mode: None };
    assert(crate::override_stat::merged(unset, None, Some(0o020600)) == o);
}

/// A rename leaves every reference as it was: the guest is not told of the file
/// under its new name.
pub proof fn renames_leave_references(
    fs: FsView,
    ctx: Context,
    newdir: u64,
    kept: Option<(u64, i32)>,
    log: Seq<Reply>,
    pos: int,
)
    requires
        well_numbered(fs.inodes),
        forall|i: u64| #[trigger]
            fs.inodes.contains_key(i) ==> 1 <= fs.inodes[i].refcount < u64::MAX,
        kept is Some ==> fs.inodes.contains_key(kept->Some_0.0),
        forall|k: int, n: u64|
            0 <= k < log.len() && #[trigger] log[k] == Reply::Count(n)
                ==> !#[trigger] fs.inodes.contains_key(n),
        confirming(fs, ctx, newdir, kept, log, pos).step is Done,
        0 <= pos,
    ensures
        confirming(fs, ctx, newdir, kept, log, pos).inodes == with_kept(fs.inodes, kept),
{
    let m = with_kept(fs.inodes, kept);
    assert(m.dom() =~= fs.inodes.dom());
    if let StepView::Done(entry, next) = looking_up(fs, ctx, newdir, Slot::NewName, log, pos) {
        let (ino, dev) = (entry.attr.ino, entry.attr.dev);
        assert(well_numbered(m)) by {
            assert forall|i: u64| #[trigger] m.contains_key(i) implies m[i].inode == i by {
                assert(fs.inodes.contains_key(i));
            }
            assert forall|i: u64, j: u64| #[trigger]
                m.contains_key(i) && #[trigger] m.contains_key(j) && crate::inodes::same_file(
                    m[i],
                    m[j],
                ) implies i == j by {
                assert(fs.inodes.contains_key(i) && fs.inodes.contains_key(j));
                assert(crate::inodes::same_file(fs.inodes[i], fs.inodes[j]));
            }
        }
        match inode_of(fs.inodes, ino, dev) {
            Some(i) => {
                assert(denotes(fs.inodes, i, ino, dev));
                assert(denotes(m, i, ino, dev));
                lemma_inode_of(m, i);
                lemma_entry_inode(fs, ctx, newdir, log, pos);
                assert(entry.inode == i);
                assert(forgotten(registered(m, i, entry.attr), i, 1) =~= m);
            },
            None => {
                assert forall|i: u64| !denotes(m, i, ino, dev) by {
                    assert(!denotes(fs.inodes, i, ino, dev));
                }
                lemma_entry_inode(fs, ctx, newdir, log, pos);
                assert(!m.contains_key(entry.inode));
                assert(forgotten(registered(m, entry.inode, entry.attr), entry.inode, 1) =~= m);
            },
        }
    }
}

/// The number of an entry is the one that the guest knows, or an allocated one.
proof fn lemma_entry_inode(fs: FsView, ctx: Context, parent: u64, log: Seq<Reply>, pos: int)
    requires
        looking_up(fs, ctx, parent, Slot::NewName, log, pos) is Done,
        0 <= pos,
    ensures
        ({
            let entry = looking_up(fs, ctx, parent, Slot::NewName, log, pos)->Done_0;
            match inode_of(fs.inodes, entry.attr.ino, entry.attr.dev) {
                Some(i) => entry.inode == i,
                None => exists|k: int|
                    0 <= k < log.len() && #[trigger] log[k] == Reply::Count(entry.inode),
            }
        }),
{
    let at = name_in(fs, parent, Slot::NewName);
    crate::protocol::lemma_viewing(ctx, fs.cfg.semantics, at, log, pos, log.len() as int);
    if let StepView::Done(st, next) = crate::attributes::viewing(
        ctx,
        fs.cfg.semantics,
        at,
        log,
        pos,
    ) {
        if inode_of(fs.inodes, st.ino, st.dev) is None {
            assert(0 <= next < log.len());
            assert(log[next] is Count);
        }
    }
}

/// The file that a rename replaces is opened under the new name in the new
/// directory before it goes, where it can be, and where the rename may replace one.
pub proof fn replaced_files_are_opened_first(
    fs: FsView,
    newdir: u64,
    flags: u32,
    log: Seq<Reply>,
    dir: i32,
    file: i32,
    error: HostError,
    closed: Reply,
)
    ensures
        ({
            let run = |log: Seq<Reply>| grabbing_target(fs, newdir, flags, log);
            let kept = fs.inodes[newdir].unlinked_fd;
            let grab = |d: i32|
                StepView::<Option<i32>>::Call(
                    CallView::Do(
                        Call::OpenAt { dir: d, slot: Slot::NewName, flags: 0x100_0104 },
                    ),
                );
            let missed = Reply::Error(error);
            &&& flags & 3 != 0 ==> run(log) == StepView::Done(None::<i32>, 0)
            &&& !fs.inodes.contains_key(newdir) ==> run(log) == StepView::Done(None::<i32>, 0)
            &&& flags & 3 == 0 && fs.inodes.contains_key(newdir) && kept >= 0 ==> {
                &&& run(Seq::empty()) == grab(kept)
                &&& run(seq![Reply::Fd(file)]) == StepView::Done(Some(file), 1)
                &&& run(seq![missed]) == StepView::Done(None::<i32>, 1)
            }
            &&& flags & 3 == 0 && fs.inodes.contains_key(newdir) && kept < 0 ==> {
                &&& run(Seq::empty()) == StepView::<Option<i32>>::Call(
                    CallView::Do(
                        Call::Open { at: file_of(fs, newdir), flags: 0x100_0100, mode: 0 },
                    ),
                )
                &&& run(seq![missed]) == StepView::Done(None::<i32>, 1)
                &&& run(seq![Reply::Fd(dir)]) == grab(dir)
                &&& run(seq![Reply::Fd(dir), Reply::Fd(file)]) == StepView::<Option<i32>>::Call(
                    CallView::Do(Call::Close { fd: dir }),
                )
                &&& run(seq![Reply::Fd(dir), Reply::Fd(file), closed]) == StepView::Done(
                    Some(file),
                    3,
                )
            }
        }),
{
    lemma_words();
}

/// A rename that replaces nothing goes on with the new name in the new directory,
/// which it looks at, or leaves its whiteout under the old name in the old one
/// before. What the host refuses is refused.
pub proof fn renames_go_on_under_the_new_name(
    fs: FsView,
    ctx: Context,
    olddir: u64,
    newdir: u64,
    flags: u32,
    granted: Reply,
    error: HostError,
)
    requires
        fs.inodes.contains_key(olddir),
        fs.inodes.contains_key(newdir),
        flags & 3 != 0,
        flags & 4 == 0 || flags & 2 == 0,
        flags & 4 == 0 || !(fs.cfg.semantics is Sandbox),
        !(granted is Error),
    ensures
        ({
            let run = |log: Seq<Reply>| renaming(fs, ctx, olddir, newdir, flags, log).step;
            let name = name_in(fs, newdir, Slot::NewName);
            &&& run(seq![Reply::Error(error)]) == StepView::<()>::Fail(error.linux, 1)
            &&& flags & 4 == 0 ==> run(seq![granted]) == StepView::<()>::Call(
                CallView::Do(
                    if fs.cfg.semantics is Sandbox {
                        Call::Open { at: name, flags: 0x120_8004, mode: 0 }
                    } else {
                        Call::Stat { at: name }
                    },
                ),
            )
            &&& flags & 4 != 0 ==> run(seq![granted]) == StepView::<()>::Call(
                CallView::Do(
                    Call::Open {
                        at: name_in(fs, olddir, Slot::Name),
                        flags: 0x100_0300,
                        mode: if fs.cfg.semantics is LinuxSimplified {
                            0o020600
                        } else {
                            0o600
                        },
                    },
                ),
            )
            &&& flags & 4 != 0 ==> run(seq![granted, Reply::Error(error)]) == StepView::<()>::Call(
                CallView::Do(Call::Stat { at: name }),
            )
        }),
{
    lemma_words();
}

} // verus!
