//! Renaming and removing names.
//!
//! A file that loses its last name can no longer be reached by volume and
//! number, although the guest may still hold it. Before a name goes, the file
//! behind it is opened; after that, an inode that the guest knows keeps the
//! descriptor, and otherwise it is closed.

use vstd::prelude::*;
use crate::abi::{
    LINUX_EINVAL, LINUX_EOPNOTSUPP, LINUX_RENAME_EXCHANGE, LINUX_RENAME_NOREPLACE,
    LINUX_RENAME_WHITEOUT, O_CLOEXEC, O_CREAT, O_NOFOLLOW, O_NONBLOCK, RENAME_EXCL, RENAME_SWAP,
    S_IFCHR,
};
use crate::attributes::{set_stat, setting};
use crate::config::PermissionSemantics;
use crate::host::{
    and_finally, fd_of, finally, run_single, single, stat_of, Call, CallView, HostCall, Node, Reply,
    Slot, Step, StepView,
};
use crate::inodes::{forgotten, inode_of, lemma_inode_of, preserved, released, InodeData};
use crate::stat::{Context, Stat};
use super::{looking_up, registered, Entry, FsView, PassthroughFs};

verus! {

/// How the file behind a name is opened before the name goes.
pub const GRAB_FLAGS: u32 = O_NOFOLLOW | O_CLOEXEC | O_NONBLOCK;

/// How a directory is opened to work on its names.
pub const DIR_FLAGS: u32 = O_NOFOLLOW | O_CLOEXEC;

/// Opening the file behind a name in an open directory, where that is possible.
pub open spec fn grabbing(dir: i32, slot: Slot, log: Seq<Reply>, pos: int) -> StepView<
    Option<i32>,
> {
    if pos >= log.len() {
        StepView::Call(CallView::Do(Call::OpenAt { dir, slot, flags: GRAB_FLAGS }))
    } else {
        match fd_of(log[pos]) {
            Ok(fd) => StepView::Done(Some(fd), pos + 1),
            Err(_) => StepView::Done(None, pos + 1),
        }
    }
}

/// Opens the file behind a name in an open directory.
pub fn grab_unlinked_fd(dir: i32, slot: Slot, log: &Vec<Reply>, pos: usize) -> (r: Step<
    Option<i32>,
>)
    ensures
        r@ == grabbing(dir, slot, log@, pos as int),
{
    if pos >= log.len() {
        return Step::Call(HostCall::Do(Call::OpenAt { dir, slot, flags: GRAB_FLAGS }));
    }
    match log[pos].fd() {
        Ok(fd) => Step::Done(Some(fd), pos + 1),
        Err(_) => Step::Done(None, pos + 1),
    }
}

/// Handing a descriptor to the inode of its file. An inode that had one before
/// has that one closed; a file that the guest does not know, or that cannot be
/// looked at, has this one closed. The outcome is the inode that took it.
pub open spec fn keeping(
    m: Map<u64, InodeData>,
    fd: i32,
    log: Seq<Reply>,
    pos: int,
) -> StepView<Option<(u64, i32)>> {
    if pos >= log.len() {
        StepView::Call(CallView::Do(Call::Stat { at: Node::Fd(fd) }))
    } else {
        match stat_of(log[pos]) {
            Err(_) => finally(StepView::Done(None, pos + 1), Call::Close { fd }, log),
            Ok(st) => match inode_of(m, st.ino, st.dev) {
                None => finally(StepView::Done(None, pos + 1), Call::Close { fd }, log),
                Some(inode) => {
                    let kept = StepView::Done(Some((inode, fd)), pos + 1);
                    if m[inode].unlinked_fd >= 0 {
                        finally(kept, Call::Close { fd: m[inode].unlinked_fd }, log)
                    } else {
                        kept
                    }
                },
            },
        }
    }
}

/// Handing a descriptor, if there is one.
pub open spec fn keeping_if(
    m: Map<u64, InodeData>,
    grabbed: Option<i32>,
    log: Seq<Reply>,
    pos: int,
) -> StepView<Option<(u64, i32)>> {
    match grabbed {
        Some(fd) => keeping(m, fd, log, pos),
        None => StepView::Done(None, pos),
    }
}

/// Closing a descriptor, if there is one, once `step` has come to its outcome.
pub open spec fn finally_drop<T>(
    step: StepView<T>,
    grabbed: Option<i32>,
    log: Seq<Reply>,
) -> StepView<T> {
    match grabbed {
        Some(fd) => finally(step, Call::Close { fd }, log),
        None => step,
    }
}

/// The inodes after one of them took a descriptor.
pub open spec fn with_kept(m: Map<u64, InodeData>, kept: Option<(u64, i32)>) -> Map<
    u64,
    InodeData,
> {
    match kept {
        Some((inode, fd)) => preserved(m, inode, fd),
        None => m,
    }
}

/// Removing a name from an open directory: the file behind it is grabbed, the
/// name goes, the directory is closed where it was opened for this, and the
/// grabbed descriptor is handed on, or closed if the name stayed.
pub open spec fn removing(
    m: Map<u64, InodeData>,
    dir: i32,
    opened: bool,
    flags: u32,
    log: Seq<Reply>,
    pos: int,
) -> StepView<Option<(u64, i32)>> {
    match grabbing(dir, Slot::Name, log, pos) {
        StepView::Call(call) => StepView::Call(call),
        StepView::Fail(error, next) => StepView::Fail(error, next),
        StepView::Done(grabbed, next) => {
            let removal = single(Call::Unlink { dir, slot: Slot::Name, flags }, log, next);
            match if opened {
                finally(removal, Call::Close { fd: dir }, log)
            } else {
                removal
            } {
                StepView::Call(call) => StepView::Call(call),
                StepView::Fail(error, next) => finally_drop(
                    StepView::Fail(error, next),
                    grabbed,
                    log,
                ),
                StepView::Done(_, next) => keeping_if(m, grabbed, log, next),
            }
        },
    }
}

/// Removing the request's name from a directory. The outcome is the inode that
/// took a descriptor. That the directory cannot be opened is reported with the
/// host's error number.
pub open spec fn unlinking(fs: FsView, parent: u64, flags: u32, log: Seq<Reply>) -> StepView<
    Option<(u64, i32)>,
> {
    match fs.node_of(parent, true) {
        Err(error) => StepView::Fail(error, 0),
        Ok(Node::Fd(dir)) => removing(fs.inodes, dir, false, flags, log, 0),
        Ok(at) => if log.len() == 0 {
            StepView::Call(CallView::Do(Call::Open { at, flags: DIR_FLAGS, mode: 0 }))
        } else {
            match fd_of(log[0]) {
                Err(error) => StepView::Fail(error.raw, 1),
                Ok(dir) => removing(fs.inodes, dir, true, flags, log, 1),
            }
        },
    }
}

/// The host's options for the guest's.
pub open spec fn rename_options(flags: u32) -> u32 {
    let f = 0u32;
    let f = if flags & LINUX_RENAME_NOREPLACE != 0 {
        f | RENAME_EXCL
    } else {
        f
    };
    if flags & LINUX_RENAME_EXCHANGE != 0 {
        f | RENAME_SWAP
    } else {
        f
    }
}

/// Opening the file that a rename replaces, where it may replace one.
pub open spec fn grabbing_target(fs: FsView, newdir: u64, flags: u32, log: Seq<Reply>) -> StepView<
    Option<i32>,
> {
    if flags & (LINUX_RENAME_EXCHANGE | LINUX_RENAME_NOREPLACE) != 0 {
        StepView::Done(None, 0)
    } else {
        match fs.node_of(newdir, true) {
            Err(_) => StepView::Done(None, 0),
            Ok(Node::Fd(dir)) => grabbing(dir, Slot::NewName, log, 0),
            Ok(at) => if log.len() == 0 {
                StepView::Call(CallView::Do(Call::Open { at, flags: DIR_FLAGS, mode: 0 }))
            } else {
                match fd_of(log[0]) {
                    Err(_) => StepView::Done(None, 1),
                    Ok(dir) => finally(
                        grabbing(dir, Slot::NewName, log, 1),
                        Call::Close { fd: dir },
                        log,
                    ),
                }
            },
        }
    }
}

/// The mode of the character device that stands for a removed name.
pub const WHITEOUT_MODE: u32 = S_IFCHR | 0o600;

/// Leaving a whiteout under the old name. That it cannot be created is no error,
/// that it cannot be marked is.
pub open spec fn whiting_out(
    semantics: PermissionSemantics,
    at: Node,
    log: Seq<Reply>,
    pos: int,
) -> StepView<()> {
    if pos >= log.len() {
        StepView::Call(
            CallView::Do(
                Call::Open {
                    at,
                    flags: O_CREAT | O_CLOEXEC | O_NOFOLLOW,
                    mode: if semantics is LinuxSimplified {
                        WHITEOUT_MODE
                    } else {
                        0o600
                    },
                },
            ),
        )
    } else {
        match fd_of(log[pos]) {
            Err(_) => StepView::Done((), pos + 1),
            Ok(fd) => if fd <= 0 {
                StepView::Done((), pos + 1)
            } else {
                finally(
                    if semantics is LinuxSimplified {
                        StepView::Done((), pos + 1)
                    } else {
                        setting(
                            semantics,
                            Node::Fd(fd),
                            None,
                            None,
                            Some(WHITEOUT_MODE),
                            log,
                            pos + 1,
                        )
                    },
                    Call::Close { fd },
                    log,
                )
            },
        }
    }
}

/// What a rename has come to: the next call or the outcome, and the inodes after
/// the outcome.
#[verifier::ext_equal]
pub struct Renaming {
    pub step: StepView<()>,
    pub inodes: Map<u64, InodeData>,
}

/// Looking the new name up, which the guest does not learn of: the reference is
/// dropped again.
pub open spec fn confirming(
    fs: FsView,
    ctx: Context,
    newdir: u64,
    kept: Option<(u64, i32)>,
    log: Seq<Reply>,
    pos: int,
) -> Renaming {
    let m = with_kept(fs.inodes, kept);
    match looking_up(fs, ctx, newdir, Slot::NewName, log, pos) {
        StepView::Call(call) => Renaming { step: StepView::Call(call), inodes: fs.inodes },
        StepView::Fail(error, next) => Renaming { step: StepView::Fail(error, next), inodes: m },
        StepView::Done(entry, next) => {
            let known = registered(m, entry.inode, entry.attr);
            let step = match released(known, entry.inode, 1) {
                Some(fd) => finally(StepView::Done((), next), Call::Close { fd }, log),
                None => StepView::Done((), next),
            };
            Renaming {
                step,
                inodes: if step is Call {
                    fs.inodes
                } else {
                    forgotten(known, entry.inode, 1)
                },
            }
        },
    }
}

/// What follows a rename that the host made.
pub open spec fn concluding(
    fs: FsView,
    ctx: Context,
    newdir: u64,
    flags: u32,
    old_node: Node,
    kept: Option<(u64, i32)>,
    log: Seq<Reply>,
    pos: int,
) -> Renaming {
    if flags & LINUX_RENAME_WHITEOUT != 0 {
        match whiting_out(fs.cfg.semantics, old_node, log, pos) {
            StepView::Call(call) => Renaming { step: StepView::Call(call), inodes: fs.inodes },
            StepView::Fail(error, next) => Renaming {
                step: StepView::Fail(error, next),
                inodes: with_kept(fs.inodes, kept),
            },
            StepView::Done(_, next) => confirming(fs, ctx, newdir, kept, log, next),
        }
    } else {
        confirming(fs, ctx, newdir, kept, log, pos)
    }
}

/// Renaming the request's name in `olddir` to its new name in `newdir`.
pub open spec fn renaming(
    fs: FsView,
    ctx: Context,
    olddir: u64,
    newdir: u64,
    flags: u32,
    log: Seq<Reply>,
) -> Renaming {
    let refuse = |error: i32, pos: int| Renaming {
        step: StepView::Fail(error, pos),
        inodes: fs.inodes,
    };
    if flags & LINUX_RENAME_WHITEOUT != 0 && flags & LINUX_RENAME_EXCHANGE != 0 {
        refuse(LINUX_EINVAL, 0)
    } else if flags & LINUX_RENAME_WHITEOUT != 0 && fs.cfg.semantics.sandboxed() {
        refuse(LINUX_EOPNOTSUPP, 0)
    } else {
        match (fs.child_of(olddir, Slot::Name), fs.child_of(newdir, Slot::NewName)) {
            (Err(error), _) => refuse(error, 0),
            (Ok(_), Err(error)) => refuse(error, 0),
            (Ok(from), Ok(to)) => match grabbing_target(fs, newdir, flags, log) {
                StepView::Call(call) => Renaming { step: StepView::Call(call), inodes: fs.inodes },
                StepView::Fail(error, next) => refuse(error, next),
                StepView::Done(doomed, next) => match single(
                    Call::Rename { from, to, flags: rename_options(flags) },
                    log,
                    next,
                ) {
                    StepView::Call(call) => Renaming {
                        step: StepView::Call(call),
                        inodes: fs.inodes,
                    },
                    StepView::Fail(error, next) => Renaming {
                        step: finally_drop(StepView::Fail(error, next), doomed, log),
                        inodes: fs.inodes,
                    },
                    StepView::Done(_, next) => match keeping_if(fs.inodes, doomed, log, next) {
                        StepView::Call(call) => Renaming {
                            step: StepView::Call(call),
                            inodes: fs.inodes,
                        },
                        StepView::Fail(error, next) => refuse(error, next),
                        StepView::Done(kept, next) => concluding(
                            fs,
                            ctx,
                            newdir,
                            flags,
                            from,
                            kept,
                            log,
                            next,
                        ),
                    },
                },
            },
        }
    }
}

fn drop_finally<T: View>(step: Step<T>, grabbed: Option<i32>, log: &Vec<Reply>) -> (r: Step<T>)
    ensures
        r@ == finally_drop(step@, grabbed, log@),
{
    match grabbed {
        Some(fd) => and_finally(step, Call::Close { fd }, log),
        None => step,
    }
}

fn whiteout(semantics: PermissionSemantics, at: Node, log: &Vec<Reply>, pos: usize) -> (r: Step<()>)
    ensures
        r@ == whiting_out(semantics, at, log@, pos as int),
{
    let (host_mode, complete): (u32, bool) = match semantics {
        PermissionSemantics::LinuxSimplified => (WHITEOUT_MODE, false),
        _ => (0o600, true),
    };
    if pos >= log.len() {
        return Step::Call(
            HostCall::Do(
                Call::Open { at, flags: O_CREAT | O_CLOEXEC | O_NOFOLLOW, mode: host_mode },
            ),
        );
    }
    let fd: i32 = match log[pos].fd() {
        Err(_) => return Step::Done((), pos + 1),
        Ok(fd) => fd,
    };
    if fd <= 0 {
        return Step::Done((), pos + 1);
    }
    let marked = if complete {
        set_stat(semantics, Node::Fd(fd), None, None, Some(WHITEOUT_MODE), log, pos + 1)
    } else {
        Step::Done((), pos + 1)
    };
    and_finally(marked, Call::Close { fd }, log)
}

impl PassthroughFs {
    /// Hands a descriptor to the inode of its file. The result is the inode that
    /// is to take it.
    fn store_unlinked_fd(&self, grabbed: Option<i32>, log: &Vec<Reply>, pos: usize) -> (r: Step<
        Option<(u64, i32)>,
    >)
        requires
            self.wf(),
        ensures
            r@ == keeping_if(self@.inodes, grabbed, log@, pos as int),
    {
        let fd: i32 = match grabbed {
            Some(fd) => fd,
            None => return Step::Done(None, pos),
        };
        if pos >= log.len() {
            return Step::Call(HostCall::Do(Call::Stat { at: Node::Fd(fd) }));
        }
        let st: Stat = match log[pos].stat() {
            Err(_) => return and_finally(Step::Done(None, pos + 1), Call::Close { fd }, log),
            Ok(st) => st,
        };
        match self.inodes.find(st.ino, st.dev) {
            None => and_finally(Step::Done(None, pos + 1), Call::Close { fd }, log),
            Some(inode) => {
                let kept = Step::Done(Some((inode, fd)), pos + 1);
                match self.inodes.get(inode) {
                    Some(data) => if data.unlinked_fd >= 0 {
                        and_finally(kept, Call::Close { fd: data.unlinked_fd }, log)
                    } else {
                        kept
                    },
                    None => kept,
                }
            },
        }
    }

    /// Lets an inode take its descriptor.
    fn keep(&mut self, kept: Option<(u64, i32)>)
        requires
            old(self).wf(),
            kept is Some ==> old(self)@.inodes.contains_key(kept->Some_0.0),
        ensures
            final(self).wf(),
            final(self)@ == (FsView { inodes: with_kept(old(self)@.inodes, kept), ..old(self)@ }),
    {
        if let Some((inode, fd)) = kept {
            self.inodes.preserve(inode, fd);
        }
    }

    fn remove_name(&self, dir: i32, opened: bool, flags: u32, log: &Vec<Reply>, pos: usize) -> (r:
        Step<Option<(u64, i32)>>)
        requires
            self.wf(),
        ensures
            r@ == removing(self@.inodes, dir, opened, flags, log@, pos as int),
    {
        let (grabbed, next) = match grab_unlinked_fd(dir, Slot::Name, log, pos) {
            Step::Call(call) => return Step::Call(call),
            Step::Fail(error, next) => return Step::Fail(error, next),
            Step::Done(grabbed, next) => (grabbed, next),
        };
        let mut removal = run_single(Call::Unlink { dir, slot: Slot::Name, flags }, log, next);
        if opened {
            removal = and_finally(removal, Call::Close { fd: dir }, log);
        }
        match removal {
            Step::Call(call) => Step::Call(call),
            Step::Fail(error, next) => drop_finally(Step::Fail(error, next), grabbed, log),
            Step::Done(_, next) => self.store_unlinked_fd(grabbed, log, next),
        }
    }

    fn unlink_name(&self, parent: u64, flags: u32, log: &Vec<Reply>) -> (r: Step<
        Option<(u64, i32)>,
    >)
        requires
            self.wf(),
        ensures
            r@ == unlinking(self@, parent, flags, log@),
    {
        match self.inode_to_handle(parent, true) {
            Err(error) => Step::Fail(error, 0),
            Ok(Node::Fd(dir)) => self.remove_name(dir, false, flags, log, 0),
            Ok(at) => {
                if log.len() == 0 {
                    return Step::Call(HostCall::Do(Call::Open { at, flags: DIR_FLAGS, mode: 0 }));
                }
                match log[0].fd() {
                    Err(error) => Step::Fail(error.raw, 1),
                    Ok(dir) => self.remove_name(dir, true, flags, log, 1),
                }
            },
        }
    }

    /// Removes the request's name from a directory. `flags` says whether it is
    /// the name of a directory.
    pub fn do_unlink(&mut self, parent: u64, flags: u32, log: &Vec<Reply>) -> (r: Step<()>)
        requires
            old(self).wf(),
        ensures
            final(self).wf(),
            match unlinking(old(self)@, parent, flags, log@) {
                StepView::Call(call) => {
                    &&& r@ == StepView::<()>::Call(call)
                    &&& final(self)@ == old(self)@
                },
                StepView::Fail(error, pos) => {
                    &&& r@ == StepView::<()>::Fail(error, pos)
                    &&& final(self)@ == old(self)@
                },
                StepView::Done(kept, pos) => {
                    &&& r@ == StepView::<()>::Done((), pos)
                    &&& final(self)@ == (FsView {
                        inodes: with_kept(old(self)@.inodes, kept),
                        ..old(self)@
                    })
                },
            },
    {
        match self.unlink_name(parent, flags, log) {
            Step::Call(call) => Step::Call(call),
            Step::Fail(error, pos) => Step::Fail(error, pos),
            Step::Done(kept, pos) => {
                proof {
                    lemma_unlinking_keeps_known(self@, parent, flags, log@);
                }
                self.keep(kept);
                Step::Done((), pos)
            },
        }
    }

    /// Removes a file's name.
    pub fn unlink(&mut self, parent: u64, log: &Vec<Reply>) -> (r: Step<()>)
        requires
            old(self).wf(),
        ensures
            final(self).wf(),
            unlinked(old(self)@, parent, 0, log@, r@, final(self)@),
    {
        self.do_unlink(parent, 0, log)
    }

    /// Removes a directory's name.
    pub fn rmdir(&mut self, parent: u64, log: &Vec<Reply>) -> (r: Step<()>)
        requires
            old(self).wf(),
        ensures
            final(self).wf(),
            unlinked(old(self)@, parent, crate::abi::AT_REMOVEDIR, log@, r@, final(self)@),
    {
        self.do_unlink(parent, crate::abi::AT_REMOVEDIR, log)
    }

    fn grab_target(&self, newdir: u64, flags: u32, log: &Vec<Reply>) -> (r: Step<Option<i32>>)
        ensures
            r@ == grabbing_target(self@, newdir, flags, log@),
    {
        if flags & (LINUX_RENAME_EXCHANGE | LINUX_RENAME_NOREPLACE) != 0 {
            return Step::Done(None, 0);
        }
        match self.inode_to_handle(newdir, true) {
            Err(_) => Step::Done(None, 0),
            Ok(Node::Fd(dir)) => grab_unlinked_fd(dir, Slot::NewName, log, 0),
            Ok(at) => {
                if log.len() == 0 {
                    return Step::Call(HostCall::Do(Call::Open { at, flags: DIR_FLAGS, mode: 0 }));
                }
                match log[0].fd() {
                    Err(_) => Step::Done(None, 1),
                    Ok(dir) => and_finally(
                        grab_unlinked_fd(dir, Slot::NewName, log, 1),
                        Call::Close { fd: dir },
                        log,
                    ),
                }
            },
        }
    }

    /// The descriptor that falls out of use when an entry is registered and
    /// forgotten again, after `kept` was taken.
    fn released_after(&self, entry: &Entry, kept: Option<(u64, i32)>) -> (r: Option<i32>)
        requires
            self.wf(),
            kept is Some ==> self@.inodes.contains_key(kept->Some_0.0),
            inode_of(self@.inodes, entry.attr.ino, entry.attr.dev) is Some ==> inode_of(
                self@.inodes,
                entry.attr.ino,
                entry.attr.dev,
            ) == Some(entry.inode),
        ensures
            r == released(
                registered(with_kept(self@.inodes, kept), entry.inode, entry.attr),
                entry.inode,
                1,
            ),
    {
        proof {
            lemma_kept_same_files(self@.inodes, kept, entry.attr.ino, entry.attr.dev);
        }
        let inode: u64 = match self.inodes.find(entry.attr.ino, entry.attr.dev) {
            None => return None,
            Some(inode) => inode,
        };
        let data = match self.inodes.get(inode) {
            None => return None,
            Some(data) => data,
        };
        let mut fd: i32 = data.unlinked_fd;
        if let Some((owner, taken)) = kept {
            if owner == inode {
                fd = taken;
            }
        }
        if data.refcount.wrapping_add(1) <= 1 && fd >= 0 {
            Some(fd)
        } else {
            None
        }
    }

    /// Renames the request's name in `olddir` to its new name in `newdir`.
    pub fn rename(
        &mut self,
        ctx: Context,
        olddir: u64,
        newdir: u64,
        flags: u32,
        log: &Vec<Reply>,
    ) -> (r: Step<()>)
        requires
            old(self).wf(),
        ensures
            final(self).wf(),
            r@ == renaming(old(self)@, ctx, olddir, newdir, flags, log@).step,
            final(self)@ == (FsView {
                inodes: renaming(old(self)@, ctx, olddir, newdir, flags, log@).inodes,
                ..old(self)@
            }),
    {
        let mut options: u32 = 0;
        if flags & LINUX_RENAME_NOREPLACE != 0 {
            options = options | RENAME_EXCL;
        }
        if flags & LINUX_RENAME_EXCHANGE != 0 {
            options = options | RENAME_SWAP;
        }
        if flags & LINUX_RENAME_WHITEOUT != 0 && flags & LINUX_RENAME_EXCHANGE != 0 {
            return Step::Fail(LINUX_EINVAL, 0);
        }
        if flags & LINUX_RENAME_WHITEOUT != 0 && self.cfg.semantics.is_sandbox() {
            return Step::Fail(LINUX_EOPNOTSUPP, 0);
        }
        let from = match self.name_to_path(olddir, Slot::Name) {
            Err(error) => return Step::Fail(error, 0),
            Ok(from) => from,
        };
        let to = match self.name_to_path(newdir, Slot::NewName) {
            Err(error) => return Step::Fail(error, 0),
            Ok(to) => to,
        };
        let (doomed, next) = match self.grab_target(newdir, flags, log) {
            Step::Call(call) => return Step::Call(call),
            Step::Fail(error, next) => return Step::Fail(error, next),
            Step::Done(doomed, next) => (doomed, next),
        };
        let next: usize = match run_single(Call::Rename { from, to, flags: options }, log, next) {
            Step::Call(call) => return Step::Call(call),
            Step::Fail(error, next) => return drop_finally(Step::Fail(error, next), doomed, log),
            Step::Done(_, next) => next,
        };
        proof {
            lemma_keeping_keeps_known(self@.inodes, doomed, log@, next as int);
        }
        let (kept, next) = match self.store_unlinked_fd(doomed, log, next) {
            Step::Call(call) => return Step::Call(call),
            Step::Fail(error, next) => return Step::Fail(error, next),
            Step::Done(kept, next) => (kept, next),
        };
        let mut pos: usize = next;
        if flags & LINUX_RENAME_WHITEOUT != 0 {
            pos = match whiteout(self.cfg.semantics, from, log, next) {
                Step::Call(call) => return Step::Call(call),
                Step::Fail(error, after) => {
                    self.keep(kept);
                    return Step::Fail(error, after);
                },
                Step::Done(_, after) => after,
            };
        }
        let (entry, next) = match self.find_entry(ctx, newdir, Slot::NewName, log, pos) {
            Step::Call(call) => return Step::Call(call),
            Step::Fail(error, after) => {
                self.keep(kept);
                return Step::Fail(error, after);
            },
            Step::Done(entry, after) => (entry, after),
        };
        let mut step: Step<()> = Step::Done((), next);
        if let Some(fd) = self.released_after(&entry, kept) {
            step = and_finally(step, Call::Close { fd }, log);
        }
        if let Step::Call(call) = step {
            return Step::Call(call);
        }
        self.keep(kept);
        self.register(&entry);
        let _ = self.forget(entry.inode, 1);
        step
    }
}

/// What a removal answers, and the file system after it.
pub open spec fn unlinked(
    before: FsView,
    parent: u64,
    flags: u32,
    log: Seq<Reply>,
    step: StepView<()>,
    after: FsView,
) -> bool {
    match unlinking(before, parent, flags, log) {
        StepView::Call(call) => step == StepView::<()>::Call(call) && after == before,
        StepView::Fail(error, pos) => step == StepView::<()>::Fail(error, pos) && after == before,
        StepView::Done(kept, pos) => step == StepView::<()>::Done((), pos) && after == (FsView {
            inodes: with_kept(before.inodes, kept),
            ..before
        }),
    }
}

/// Only a known inode takes a descriptor.
proof fn lemma_keeping_keeps_known(
    m: Map<u64, InodeData>,
    grabbed: Option<i32>,
    log: Seq<Reply>,
    pos: int,
)
    ensures
        match keeping_if(m, grabbed, log, pos) {
            StepView::Done(Some((inode, _)), _) => m.contains_key(inode),
            _ => true,
        },
{
}

proof fn lemma_unlinking_keeps_known(fs: FsView, parent: u64, flags: u32, log: Seq<Reply>)
    ensures
        match unlinking(fs, parent, flags, log) {
            StepView::Done(Some((inode, _)), _) => fs.inodes.contains_key(inode),
            _ => true,
        },
{
}

/// Taking a descriptor does not change which file an inode is.
proof fn lemma_kept_same_files(
    m: Map<u64, InodeData>,
    kept: Option<(u64, i32)>,
    ino: u64,
    dev: i32,
)
    requires
        crate::inodes::well_numbered(m),
        kept is Some ==> m.contains_key(kept->Some_0.0),
    ensures
        crate::inodes::well_numbered(with_kept(m, kept)),
        inode_of(with_kept(m, kept), ino, dev) == inode_of(m, ino, dev),
{
    let n = with_kept(m, kept);
    assert forall|i: u64, j: u64| #[trigger] n.contains_key(i) && #[trigger] n.contains_key(j)
        && crate::inodes::same_file(n[i], n[j]) implies i == j by {
        assert(m.contains_key(i) && m.contains_key(j));
        assert(crate::inodes::same_file(m[i], m[j]));
    }
    match inode_of(m, ino, dev) {
        Some(i) => {
            assert(crate::inodes::denotes(m, i, ino, dev));
            assert(crate::inodes::denotes(n, i, ino, dev));
            lemma_inode_of(n, i);
        },
        None => {
            assert forall|i: u64| !crate::inodes::denotes(n, i, ino, dev) by {
                assert(!crate::inodes::denotes(m, i, ino, dev));
            }
        },
    }
}

} // verus!
