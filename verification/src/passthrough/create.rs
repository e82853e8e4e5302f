//! Creating files, directories, special files and links.

use vstd::prelude::*;
use crate::abi::{
    LINUX_EINVAL, LINUX_EOPNOTSUPP, O_CLOEXEC, O_CREAT, O_DIRECTORY, O_EXCL, O_NOFOLLOW, O_TRUNC,
    S_IFLNK, S_IFMT, S_IFREG, S_IFSOCK,
};
use crate::attributes::{
    labelling, remove_security_capability, set_secctx, set_stat, setting, stripping,
};
use crate::config::PermissionSemantics;
use crate::host::{
    acquire, acquiring, and_finally, close_on_failure, finally, or_close, run_single, single,
    unit_of, Call, CallView, HostCall, Node, Reply, Slot, Step, StepView,
};
use crate::opening::{
    creating, host_flags, open_options, open_sandbox_create, options_for, parse_open_flags,
};
use crate::override_stat::{set_xattr_stat, setting_override};
use crate::sandbox::{content_change, prepare_sandbox_content_mutation, updating};
use crate::stat::{clear_suid_sgid, host_bits, low_bits, unprivileged, Context, Stat};
use super::{entering_file, looking_up, Entry, FsView, PassthroughFs};

verus! {

/// A request to create and open a file.
#[derive(Debug, Clone, Copy)]
pub struct CreateRequest {
    pub parent: u64,
    pub mode: u32,
    pub kill_priv: bool,
    /// The guest's open flags.
    pub flags: u32,
    pub umask: u32,
    /// Whether the request holds a security context.
    pub labelled: bool,
}

/// A request to create something else.
#[derive(Debug, Clone, Copy)]
pub struct NodeRequest {
    pub parent: u64,
    pub mode: u32,
    pub rdev: u32,
    pub umask: u32,
    /// Whether the request holds a security context.
    pub labelled: bool,
}

/// Storing the request's security context, if it has one.
pub open spec fn labelling_if(
    labelled: bool,
    at: Node,
    symlink: bool,
    log: Seq<Reply>,
    pos: int,
) -> StepView<()> {
    if labelled {
        labelling(at, symlink, log, pos)
    } else {
        StepView::Done((), pos)
    }
}

fn label_if(labelled: bool, at: Node, symlink: bool, log: &Vec<Reply>, pos: usize) -> (r: Step<()>)
    ensures
        r@ == labelling_if(labelled, at, symlink, log@, pos as int),
{
    if labelled {
        set_secctx(at, symlink, log, pos)
    } else {
        Step::Done((), pos)
    }
}

/// The mode of a regular file that the guest asked for.
pub open spec fn masked_regular(mode: u32, umask: u32) -> u32 {
    S_IFREG | (mode & !(umask & 0o777))
}

impl CreateRequest {
    pub open spec fn host_flags(self) -> u32 {
        host_flags(self.flags)
    }

    /// The contents of an existing file are to go, and its record must be
    /// changed before that.
    pub open spec fn cuts(self, semantics: PermissionSemantics) -> bool {
        semantics.sandboxed() && self.host_flags() & O_TRUNC != 0
    }

    /// The flags of the host's open: a sandbox cuts by itself.
    pub open spec fn open_flags(self, semantics: PermissionSemantics) -> u32 {
        if self.cuts(semantics) {
            self.host_flags() & !O_TRUNC
        } else {
            self.host_flags()
        }
    }

    /// The mode of the host's file. Where the guest's mode is kept elsewhere the
    /// host's file is private.
    pub open spec fn host_mode(self, semantics: PermissionSemantics) -> u32 {
        if semantics is LinuxSimplified {
            self.mode & !(self.umask & 0o777)
        } else if self.host_flags() & O_DIRECTORY != 0 {
            0o700
        } else {
            0o600
        }
    }

    /// The mode that the guest sees.
    pub open spec fn guest_mode(self, semantics: PermissionSemantics) -> u32 {
        let mode = masked_regular(self.mode, self.umask);
        if self.cuts(semantics) && self.kill_priv {
            unprivileged(mode)
        } else {
            mode
        }
    }
}

/// Opening the file: the descriptor, and whether the file is new. Only a sandbox
/// needs to know, so the others count every file as new.
pub open spec fn opening_new(
    semantics: PermissionSemantics,
    req: CreateRequest,
    at: Node,
    log: Seq<Reply>,
) -> StepView<(i32, bool)> {
    if semantics.sandboxed() {
        creating(at, req.open_flags(semantics), req.host_mode(semantics), log, 0)
    } else {
        match acquiring(
            Call::Open {
                at,
                flags: req.open_flags(semantics) | O_CREAT | O_CLOEXEC | O_NOFOLLOW,
                mode: req.host_mode(semantics),
            },
            log,
            0,
        ) {
            StepView::Call(call) => StepView::Call(call),
            StepView::Fail(error, next) => StepView::Fail(error, next),
            StepView::Done(fd, next) => StepView::Done((fd, true), next),
        }
    }
}

/// Giving a new file its owner and mode.
pub open spec fn adopting(
    semantics: PermissionSemantics,
    ctx: Context,
    req: CreateRequest,
    fd: i32,
    created: bool,
    log: Seq<Reply>,
    pos: int,
) -> StepView<()> {
    if !(semantics is LinuxSimplified) && created {
        setting(
            semantics,
            Node::Fd(fd),
            None,
            Some((ctx.uid, ctx.gid)),
            Some(req.guest_mode(semantics)),
            log,
            pos,
        )
    } else {
        StepView::Done((), pos)
    }
}

/// Emptying an existing file of a sandbox: its privileges go before its
/// contents.
pub open spec fn emptying(
    semantics: PermissionSemantics,
    kill_priv: bool,
    fd: i32,
    log: Seq<Reply>,
    pos: int,
) -> StepView<()> {
    match semantics {
        PermissionSemantics::Sandbox(config) => match updating(
            config,
            Node::Fd(fd),
            None,
            content_change(kill_priv),
            log,
            pos,
        ) {
            StepView::Call(call) => StepView::Call(call),
            StepView::Fail(error, next) => StepView::Fail(error, next),
            StepView::Done(_, next) => single(Call::Truncate { fd, size: 0 }, log, next),
        },
        _ => StepView::Done((), pos),
    }
}

/// What a request to cut the file comes to.
pub open spec fn cutting(
    semantics: PermissionSemantics,
    req: CreateRequest,
    fd: i32,
    created: bool,
    log: Seq<Reply>,
    pos: int,
) -> StepView<()> {
    if req.cuts(semantics) && !created {
        emptying(semantics, req.kill_priv, fd, log, pos)
    } else if req.host_flags() & O_TRUNC != 0 && req.kill_priv && !semantics.sandboxed() {
        stripping(Node::Fd(fd), log, pos)
    } else {
        StepView::Done((), pos)
    }
}

/// What is done with the open file before the guest is told of it. The entry is
/// that of the open file, whatever its name leads to by then.
pub open spec fn outfitting(
    fs: FsView,
    ctx: Context,
    req: CreateRequest,
    fd: i32,
    created: bool,
    log: Seq<Reply>,
    pos: int,
) -> StepView<Entry> {
    let semantics = fs.cfg.semantics;
    match adopting(semantics, ctx, req, fd, created, log, pos) {
        StepView::Call(call) => StepView::Call(call),
        StepView::Fail(error, next) => StepView::Fail(error, next),
        StepView::Done(_, next) => match labelling_if(
            req.labelled,
            Node::Fd(fd),
            false,
            log,
            next,
        ) {
            StepView::Call(call) => StepView::Call(call),
            StepView::Fail(error, next) => StepView::Fail(error, next),
            StepView::Done(_, next) => match cutting(semantics, req, fd, created, log, next) {
                StepView::Call(call) => StepView::Call(call),
                StepView::Fail(error, next) => StepView::Fail(error, next),
                StepView::Done(_, next) => entering_file(fs, ctx, req.parent, fd, log, next),
            },
        },
    }
}

/// Creating and opening a file: what the guest is told of it, and its
/// descriptor, which is closed again on any failure.
pub open spec fn creating_file(
    fs: FsView,
    ctx: Context,
    req: CreateRequest,
    log: Seq<Reply>,
) -> StepView<(Entry, i32)> {
    if fs.cfg.semantics.sandboxed() && req.labelled {
        StepView::Fail(LINUX_EOPNOTSUPP, 0)
    } else {
        match fs.child_of(req.parent, Slot::Name) {
            Err(error) => StepView::Fail(error, 0),
            Ok(at) => match opening_new(fs.cfg.semantics, req, at, log) {
                StepView::Call(call) => StepView::Call(call),
                StepView::Fail(error, next) => StepView::Fail(error, next),
                StepView::Done((fd, created), next) => match or_close(
                    outfitting(fs, ctx, req, fd, created, log, next),
                    fd,
                    log,
                ) {
                    StepView::Call(call) => StepView::Call(call),
                    StepView::Fail(error, next) => StepView::Fail(error, next),
                    StepView::Done(entry, next) => StepView::Done((entry, fd), next),
                },
            },
        }
    }
}

/// Making a directory.
pub open spec fn making_directory(
    fs: FsView,
    ctx: Context,
    req: NodeRequest,
    log: Seq<Reply>,
) -> StepView<Entry> {
    let semantics = fs.cfg.semantics;
    let mode = req.mode & !req.umask;
    if semantics.sandboxed() && req.labelled {
        StepView::Fail(LINUX_EOPNOTSUPP, 0)
    } else {
        match fs.child_of(req.parent, Slot::Name) {
            Err(error) => StepView::Fail(error, 0),
            Ok(at) => {
                let host_mode = if semantics is LinuxSimplified {
                    host_bits(mode)
                } else {
                    0o700
                };
                match single(Call::MakeDir { at, mode: host_mode }, log, 0) {
                    StepView::Call(call) => StepView::Call(call),
                    StepView::Fail(error, next) => StepView::Fail(error, next),
                    StepView::Done(_, next) => dressing(
                        fs,
                        ctx,
                        req.parent,
                        req.labelled,
                        at,
                        false,
                        if semantics is LinuxSimplified {
                            None
                        } else {
                            Some(mode)
                        },
                        log,
                        next,
                    ),
                }
            },
        }
    }
}

/// Labelling what was made at a path, giving it its owner and mode where those
/// are kept apart, and looking it up.
pub open spec fn dressing(
    fs: FsView,
    ctx: Context,
    parent: u64,
    labelled: bool,
    at: Node,
    symlink: bool,
    mode: Option<u32>,
    log: Seq<Reply>,
    pos: int,
) -> StepView<Entry> {
    match labelling_if(labelled, at, symlink, log, pos) {
        StepView::Call(call) => StepView::Call(call),
        StepView::Fail(error, next) => StepView::Fail(error, next),
        StepView::Done(_, next) => if mode is Some {
            match setting(
                fs.cfg.semantics,
                at,
                None,
                Some((ctx.uid, ctx.gid)),
                mode,
                log,
                next,
            ) {
                StepView::Call(call) => StepView::Call(call),
                StepView::Fail(error, next) => StepView::Fail(error, next),
                StepView::Done(_, next) => looking_up(fs, ctx, parent, Slot::Name, log, next),
            }
        } else {
            looking_up(fs, ctx, parent, Slot::Name, log, next)
        },
    }
}

/// Making a special file where its type is kept in an attribute: the host's file
/// is a regular one.
pub open spec fn making_node_complete(
    fs: FsView,
    ctx: Context,
    req: NodeRequest,
    log: Seq<Reply>,
) -> StepView<Entry> {
    match fs.child_of(req.parent, Slot::Name) {
        Err(error) => StepView::Fail(error, 0),
        Ok(at) => match acquiring(
            Call::Open { at, flags: O_CREAT | O_CLOEXEC | O_NOFOLLOW, mode: 0o600 },
            log,
            0,
        ) {
            StepView::Call(call) => StepView::Call(call),
            StepView::Fail(error, next) => StepView::Fail(error, next),
            StepView::Done(fd, next) => match labelling_if(
                req.labelled,
                Node::Fd(fd),
                false,
                log,
                next,
            ) {
                StepView::Call(call) => StepView::Call(call),
                StepView::Fail(error, next) => StepView::Fail(error, next),
                StepView::Done(_, next) => match finally(
                    setting_override(
                        Node::Fd(fd),
                        None,
                        Some((ctx.uid, ctx.gid)),
                        Some(req.mode & !req.umask),
                        log,
                        next,
                    ),
                    Call::Close { fd },
                    log,
                ) {
                    StepView::Call(call) => StepView::Call(call),
                    StepView::Fail(error, next) => StepView::Fail(error, next),
                    StepView::Done(_, next) => looking_up(
                        fs,
                        ctx,
                        req.parent,
                        Slot::Name,
                        log,
                        next,
                    ),
                },
            },
        },
    }
}

/// Making a special file on the host. A socket is made by listening on it; every
/// error of that is an invalid request.
pub open spec fn making_host_node(req: NodeRequest, at: Node, log: Seq<Reply>) -> StepView<()> {
    if host_bits(req.mode) & (S_IFMT as u16) == S_IFSOCK as u16 {
        if log.len() == 0 {
            StepView::Call(CallView::Do(Call::BindSocket { at }))
        } else {
            match unit_of(log[0]) {
                Ok(_) => StepView::Done((), 1),
                Err(_) => StepView::Fail(LINUX_EINVAL, 1),
            }
        }
    } else {
        single(
            Call::MakeNode { at, mode: host_bits(req.mode & !req.umask), rdev: req.rdev },
            log,
            0,
        )
    }
}

pub open spec fn making_node_simplified(
    fs: FsView,
    ctx: Context,
    req: NodeRequest,
    log: Seq<Reply>,
) -> StepView<Entry> {
    match fs.child_of(req.parent, Slot::Name) {
        Err(error) => StepView::Fail(error, 0),
        Ok(at) => match making_host_node(req, at, log) {
            StepView::Call(call) => StepView::Call(call),
            StepView::Fail(error, next) => StepView::Fail(error, next),
            StepView::Done(_, next) => dressing(
                fs,
                ctx,
                req.parent,
                req.labelled,
                at,
                false,
                None,
                log,
                next,
            ),
        },
    }
}

/// Making a file in a sandbox: a regular one, without a security context. What
/// was made stays where its record could not be written, as its name may lead
/// elsewhere by then.
pub open spec fn making_node_sandbox(
    fs: FsView,
    ctx: Context,
    req: NodeRequest,
    log: Seq<Reply>,
) -> StepView<Entry> {
    let kind = req.mode & S_IFMT;
    if (kind != 0 && kind != S_IFREG) || req.labelled {
        StepView::Fail(LINUX_EOPNOTSUPP, 0)
    } else {
        match fs.child_of(req.parent, Slot::Name) {
            Err(error) => StepView::Fail(error, 0),
            Ok(at) => match acquiring(
                Call::Open { at, flags: O_CREAT | O_EXCL | O_CLOEXEC | O_NOFOLLOW, mode: 0o600 },
                log,
                0,
            ) {
                StepView::Call(call) => StepView::Call(call),
                StepView::Fail(error, next) => StepView::Fail(error, next),
                StepView::Done(fd, next) => match finally(
                    setting(
                        fs.cfg.semantics,
                        Node::Fd(fd),
                        None,
                        Some((ctx.uid, ctx.gid)),
                        Some(masked_regular(req.mode, req.umask)),
                        log,
                        next,
                    ),
                    Call::Close { fd },
                    log,
                ) {
                    StepView::Call(call) => StepView::Call(call),
                    StepView::Fail(error, next) => StepView::Fail(error, next),
                    StepView::Done(_, next) => looking_up(
                        fs,
                        ctx,
                        req.parent,
                        Slot::Name,
                        log,
                        next,
                    ),
                },
            },
        }
    }
}

/// Making a special file.
pub open spec fn making_node(
    fs: FsView,
    ctx: Context,
    req: NodeRequest,
    log: Seq<Reply>,
) -> StepView<Entry> {
    match fs.cfg.semantics {
        PermissionSemantics::LinuxComplete => making_node_complete(fs, ctx, req, log),
        PermissionSemantics::LinuxSimplified => making_node_simplified(fs, ctx, req, log),
        PermissionSemantics::Sandbox(_) => making_node_sandbox(fs, ctx, req, log),
    }
}

/// The mode of a symbolic link.
pub const SYMLINK_MODE: u32 = S_IFLNK | 0o777;

/// What the guest is told of a link that it made: it owns the link.
pub open spec fn owned_link(semantics: PermissionSemantics, ctx: Context, entry: Entry) -> Entry {
    if semantics is LinuxSimplified {
        entry
    } else {
        Entry {
            attr: Stat { uid: ctx.uid, gid: ctx.gid, mode: SYMLINK_MODE as u16, ..entry.attr },
            ..entry
        }
    }
}

/// Making a symbolic link to the request's target.
pub open spec fn making_symlink(
    fs: FsView,
    ctx: Context,
    parent: u64,
    labelled: bool,
    log: Seq<Reply>,
) -> StepView<Entry> {
    let semantics = fs.cfg.semantics;
    if semantics.sandboxed() && labelled {
        StepView::Fail(LINUX_EOPNOTSUPP, 0)
    } else {
        match fs.child_of(parent, Slot::Name) {
            Err(error) => StepView::Fail(error, 0),
            Ok(at) => match single(Call::MakeLink { at }, log, 0) {
                StepView::Call(call) => StepView::Call(call),
                StepView::Fail(error, next) => StepView::Fail(error, next),
                StepView::Done(_, next) => match dressing(
                    fs,
                    ctx,
                    parent,
                    labelled,
                    at,
                    true,
                    if semantics is LinuxSimplified {
                        None
                    } else {
                        Some(SYMLINK_MODE)
                    },
                    log,
                    next,
                ) {
                    StepView::Done(entry, next) => StepView::Done(
                        owned_link(semantics, ctx, entry),
                        next,
                    ),
                    step => step,
                },
            },
        }
    }
}

/// Giving an inode another name, in a directory.
pub open spec fn linking(
    fs: FsView,
    ctx: Context,
    inode: u64,
    parent: u64,
    log: Seq<Reply>,
) -> StepView<Entry> {
    match fs.node_of(inode, false) {
        Err(error) => StepView::Fail(error, 0),
        Ok(from) => match fs.child_of(parent, Slot::Name) {
            Err(error) => StepView::Fail(error, 0),
            Ok(to) => match single(Call::HardLink { from, to }, log, 0) {
                StepView::Call(call) => StepView::Call(call),
                StepView::Fail(error, next) => StepView::Fail(error, next),
                StepView::Done(_, next) => looking_up(fs, ctx, parent, Slot::Name, log, next),
            },
        },
    }
}

fn open_new(
    semantics: PermissionSemantics,
    flags: u32,
    host_mode: u32,
    at: Node,
    log: &Vec<Reply>,
    Ghost(req): Ghost<CreateRequest>,
) -> (r: Step<(i32, bool)>)
    requires
        flags == req.open_flags(semantics),
        host_mode == req.host_mode(semantics),
    ensures
        r@ == opening_new(semantics, req, at, log@),
{
    if semantics.is_sandbox() {
        return open_sandbox_create(at, flags, host_mode, log, 0);
    }
    let call = Call::Open {
        at,
        flags: flags | O_CREAT | O_CLOEXEC | O_NOFOLLOW,
        mode: host_mode,
    };
    match acquire(call, log, 0) {
        Step::Call(call) => Step::Call(call),
        Step::Fail(error, next) => Step::Fail(error, next),
        Step::Done(fd, next) => Step::Done((fd, true), next),
    }
}

/// Empties an existing file of a sandbox.
pub fn empty_file(
    semantics: PermissionSemantics,
    kill_priv: bool,
    fd: i32,
    log: &Vec<Reply>,
    pos: usize,
) -> (r: Step<()>)
    ensures
        r@ == emptying(semantics, kill_priv, fd, log@, pos as int),
{
    match semantics {
        PermissionSemantics::Sandbox(config) => match prepare_sandbox_content_mutation(
            config,
            Node::Fd(fd),
            kill_priv,
            log,
            pos,
        ) {
            Step::Call(call) => Step::Call(call),
            Step::Fail(error, next) => Step::Fail(error, next),
            Step::Done(_, next) => run_single(Call::Truncate { fd, size: 0 }, log, next),
        },
        _ => Step::Done((), pos),
    }
}

impl PassthroughFs {
    fn outfit(
        &self,
        ctx: Context,
        req: CreateRequest,
        fd: i32,
        created: bool,
        log: &Vec<Reply>,
        pos: usize,
    ) -> (r: Step<Entry>)
        requires
            self.wf(),
        ensures
            r@ == outfitting(self@, ctx, req, fd, created, log@, pos as int),
    {
        let semantics = self.cfg.semantics;
        let at = Node::Fd(fd);
        let truncate: bool = parse_open_flags(req.flags) & O_TRUNC != 0;
        let sandbox: bool = semantics.is_sandbox();
        let mut guest_mode: u32 = S_IFREG | (req.mode & !(req.umask & 0o777));
        if sandbox && truncate && req.kill_priv {
            guest_mode = clear_suid_sgid(guest_mode);
        }
        let complete: bool = match semantics {
            PermissionSemantics::LinuxSimplified => false,
            _ => true,
        };
        let mut pos: usize = pos;
        if complete && created {
            pos = match set_stat(
                semantics,
                at,
                None,
                Some((ctx.uid, ctx.gid)),
                Some(guest_mode),
                log,
                pos,
            ) {
                Step::Call(call) => return Step::Call(call),
                Step::Fail(error, next) => return Step::Fail(error, next),
                Step::Done(_, next) => next,
            };
        }
        pos = match label_if(req.labelled, at, false, log, pos) {
            Step::Call(call) => return Step::Call(call),
            Step::Fail(error, next) => return Step::Fail(error, next),
            Step::Done(_, next) => next,
        };
        if sandbox && truncate && !created {
            pos = match empty_file(semantics, req.kill_priv, fd, log, pos) {
                Step::Call(call) => return Step::Call(call),
                Step::Fail(error, next) => return Step::Fail(error, next),
                Step::Done(_, next) => next,
            };
        } else if truncate && req.kill_priv && !sandbox {
            pos = match remove_security_capability(at, log, pos) {
                Step::Call(call) => return Step::Call(call),
                Step::Fail(error, next) => return Step::Fail(error, next),
                Step::Done(_, next) => next,
            };
        }
        self.file_entry(ctx, req.parent, fd, log, pos)
    }

    fn create_file(&self, ctx: Context, req: CreateRequest, log: &Vec<Reply>) -> (r: Step<
        (Entry, i32),
    >)
        requires
            self.wf(),
        ensures
            r@ == creating_file(self@, ctx, req, log@),
    {
        let semantics = self.cfg.semantics;
        let sandbox: bool = semantics.is_sandbox();
        if sandbox && req.labelled {
            return Step::Fail(LINUX_EOPNOTSUPP, 0);
        }
        let at = match self.name_to_path(req.parent, Slot::Name) {
            Err(error) => return Step::Fail(error, 0),
            Ok(at) => at,
        };
        let flags: u32 = parse_open_flags(req.flags);
        let open_flags: u32 = if sandbox && flags & O_TRUNC != 0 {
            flags & !O_TRUNC
        } else {
            flags
        };
        let private: u32 = if flags & O_DIRECTORY != 0 {
            0o700
        } else {
            0o600
        };
        let host_mode: u32 = match semantics {
            PermissionSemantics::LinuxSimplified => req.mode & !(req.umask & 0o777),
            _ => private,
        };
        let (opened, next) = match open_new(semantics, open_flags, host_mode, at, log, Ghost(req)) {
            Step::Call(call) => return Step::Call(call),
            Step::Fail(error, next) => return Step::Fail(error, next),
            Step::Done(opened, next) => (opened, next),
        };
        let (fd, created): (i32, bool) = opened;
        match close_on_failure(self.outfit(ctx, req, fd, created, log, next), fd, log) {
            Step::Call(call) => Step::Call(call),
            Step::Fail(error, next) => Step::Fail(error, next),
            Step::Done(entry, next) => Step::Done((entry, fd), next),
        }
    }

    /// Creates and opens a file. The result is what the guest is told of it, its
    /// handle, and the options of the open file.
    pub fn create(&mut self, ctx: Context, req: CreateRequest, log: &Vec<Reply>) -> (r: Step<
        (Entry, u64, u32),
    >)
        requires
            old(self).wf(),
        ensures
            final(self).wf(),
            match creating_file(old(self)@, ctx, req, log@) {
                StepView::Call(call) => {
                    &&& r@ == StepView::<(Entry, u64, u32)>::Call(call)
                    &&& final(self)@ == old(self)@
                },
                StepView::Fail(error, pos) => {
                    &&& r@ == StepView::<(Entry, u64, u32)>::Fail(error, pos)
                    &&& final(self)@ == old(self)@
                },
                StepView::Done((entry, fd), pos) => {
                    &&& r@ == StepView::<(Entry, u64, u32)>::Done(
                        (
                            entry,
                            old(self)@.handles.next,
                            open_options(old(self)@.cfg.cache_policy, false),
                        ),
                        pos,
                    )
                    &&& final(self)@ == (FsView {
                        handles: old(self)@.handles.opened(entry.inode, fd),
                        ..old(self)@.with_entry(entry)
                    })
                },
            },
    {
        let (entry, fd, pos) = match self.create_file(ctx, req, log) {
            Step::Call(call) => return Step::Call(call),
            Step::Fail(error, pos) => return Step::Fail(error, pos),
            Step::Done((entry, fd), pos) => (entry, fd, pos),
        };
        self.register(&entry);
        let handle: u64 = self.handles.open(entry.inode, fd);
        Step::Done((entry, handle, options_for(self.cfg.cache_policy, false)), pos)
    }

    fn dress(
        &self,
        ctx: Context,
        parent: u64,
        labelled: bool,
        at: Node,
        symlink: bool,
        mode: Option<u32>,
        log: &Vec<Reply>,
        pos: usize,
    ) -> (r: Step<Entry>)
        requires
            self.wf(),
        ensures
            r@ == dressing(self@, ctx, parent, labelled, at, symlink, mode, log@, pos as int),
    {
        let mut pos: usize = match label_if(labelled, at, symlink, log, pos) {
            Step::Call(call) => return Step::Call(call),
            Step::Fail(error, next) => return Step::Fail(error, next),
            Step::Done(_, next) => next,
        };
        if mode.is_some() {
            pos = match set_stat(
                self.cfg.semantics,
                at,
                None,
                Some((ctx.uid, ctx.gid)),
                mode,
                log,
                pos,
            ) {
                Step::Call(call) => return Step::Call(call),
                Step::Fail(error, next) => return Step::Fail(error, next),
                Step::Done(_, next) => next,
            };
        }
        self.find_entry(ctx, parent, Slot::Name, log, pos)
    }

    fn make_directory(&self, ctx: Context, req: NodeRequest, log: &Vec<Reply>) -> (r: Step<Entry>)
        requires
            self.wf(),
        ensures
            r@ == making_directory(self@, ctx, req, log@),
    {
        if self.cfg.semantics.is_sandbox() && req.labelled {
            return Step::Fail(LINUX_EOPNOTSUPP, 0);
        }
        let at = match self.name_to_path(req.parent, Slot::Name) {
            Err(error) => return Step::Fail(error, 0),
            Ok(at) => at,
        };
        let guest_mode: u32 = req.mode & !req.umask;
        let (host_mode, mode): (u16, Option<u32>) = match self.cfg.semantics {
            PermissionSemantics::LinuxSimplified => (low_bits(guest_mode), None),
            _ => (0o700, Some(guest_mode)),
        };
        match run_single(Call::MakeDir { at, mode: host_mode }, log, 0) {
            Step::Call(call) => Step::Call(call),
            Step::Fail(error, next) => Step::Fail(error, next),
            Step::Done(_, next) => self.dress(
                ctx,
                req.parent,
                req.labelled,
                at,
                false,
                mode,
                log,
                next,
            ),
        }
    }

    /// Makes a directory.
    pub fn mkdir(&mut self, ctx: Context, req: NodeRequest, log: &Vec<Reply>) -> (r: Step<Entry>)
        requires
            old(self).wf(),
        ensures
            final(self).wf(),
            r@ == making_directory(old(self)@, ctx, req, log@),
            final(self)@ == old(self)@.after_lookup(r@),
    {
        let step = self.make_directory(ctx, req, log);
        self.answer_entry(step)
    }

    fn mknod_complete(&self, ctx: Context, req: NodeRequest, log: &Vec<Reply>) -> (r: Step<Entry>)
        requires
            self.wf(),
        ensures
            r@ == making_node_complete(self@, ctx, req, log@),
    {
        let at = match self.name_to_path(req.parent, Slot::Name) {
            Err(error) => return Step::Fail(error, 0),
            Ok(at) => at,
        };
        let open = Call::Open { at, flags: O_CREAT | O_CLOEXEC | O_NOFOLLOW, mode: 0o600 };
        let (fd, next) = match acquire(open, log, 0) {
            Step::Call(call) => return Step::Call(call),
            Step::Fail(error, next) => return Step::Fail(error, next),
            Step::Done(fd, next) => (fd, next),
        };
        let next: usize = match label_if(req.labelled, Node::Fd(fd), false, log, next) {
            Step::Call(call) => return Step::Call(call),
            Step::Fail(error, next) => return Step::Fail(error, next),
            Step::Done(_, next) => next,
        };
        let set = set_xattr_stat(
            Node::Fd(fd),
            None,
            Some((ctx.uid, ctx.gid)),
            Some(req.mode & !req.umask),
            log,
            next,
        );
        match and_finally(set, Call::Close { fd }, log) {
            Step::Call(call) => Step::Call(call),
            Step::Fail(error, next) => Step::Fail(error, next),
            Step::Done(_, next) => self.find_entry(ctx, req.parent, Slot::Name, log, next),
        }
    }

    fn mknod_simplified(&self, ctx: Context, req: NodeRequest, log: &Vec<Reply>) -> (r: Step<Entry>)
        requires
            self.wf(),
        ensures
            r@ == making_node_simplified(self@, ctx, req, log@),
    {
        let at = match self.name_to_path(req.parent, Slot::Name) {
            Err(error) => return Step::Fail(error, 0),
            Ok(at) => at,
        };
        let made = if low_bits(req.mode) & (S_IFMT as u16) == S_IFSOCK as u16 {
            if log.len() == 0 {
                Step::Call(HostCall::Do(Call::BindSocket { at }))
            } else {
                match log[0].unit() {
                    Ok(_) => Step::Done((), 1),
                    Err(_) => Step::Fail(LINUX_EINVAL, 1),
                }
            }
        } else {
            run_single(
                Call::MakeNode { at, mode: low_bits(req.mode & !req.umask), rdev: req.rdev },
                log,
                0,
            )
        };
        match made {
            Step::Call(call) => Step::Call(call),
            Step::Fail(error, next) => Step::Fail(error, next),
            Step::Done(_, next) => self.dress(
                ctx,
                req.parent,
                req.labelled,
                at,
                false,
                None,
                log,
                next,
            ),
        }
    }

    fn mknod_sandbox(&self, ctx: Context, req: NodeRequest, log: &Vec<Reply>) -> (r: Step<Entry>)
        requires
            self.wf(),
        ensures
            r@ == making_node_sandbox(self@, ctx, req, log@),
    {
        let kind: u32 = req.mode & S_IFMT;
        if kind != 0 && kind != S_IFREG {
            return Step::Fail(LINUX_EOPNOTSUPP, 0);
        }
        if req.labelled {
            return Step::Fail(LINUX_EOPNOTSUPP, 0);
        }
        let at = match self.name_to_path(req.parent, Slot::Name) {
            Err(error) => return Step::Fail(error, 0),
            Ok(at) => at,
        };
        let open = Call::Open { at, flags: O_CREAT | O_EXCL | O_CLOEXEC | O_NOFOLLOW, mode: 0o600 };
        let (fd, next) = match acquire(open, log, 0) {
            Step::Call(call) => return Step::Call(call),
            Step::Fail(error, next) => return Step::Fail(error, next),
            Step::Done(fd, next) => (fd, next),
        };
        let set = set_stat(
            self.cfg.semantics,
            Node::Fd(fd),
            None,
            Some((ctx.uid, ctx.gid)),
            Some(S_IFREG | (req.mode & !(req.umask & 0o777))),
            log,
            next,
        );
        match and_finally(set, Call::Close { fd }, log) {
            Step::Call(call) => Step::Call(call),
            Step::Fail(error, next) => Step::Fail(error, next),
            Step::Done(_, next) => self.find_entry(ctx, req.parent, Slot::Name, log, next),
        }
    }

    /// Makes a special file.
    pub fn mknod(&mut self, ctx: Context, req: NodeRequest, log: &Vec<Reply>) -> (r: Step<Entry>)
        requires
            old(self).wf(),
        ensures
            final(self).wf(),
            r@ == making_node(old(self)@, ctx, req, log@),
            final(self)@ == old(self)@.after_lookup(r@),
    {
        let step = match self.cfg.semantics {
            PermissionSemantics::LinuxComplete => self.mknod_complete(ctx, req, log),
            PermissionSemantics::LinuxSimplified => self.mknod_simplified(ctx, req, log),
            PermissionSemantics::Sandbox(_) => self.mknod_sandbox(ctx, req, log),
        };
        self.answer_entry(step)
    }

    fn make_symlink(&self, ctx: Context, parent: u64, labelled: bool, log: &Vec<Reply>) -> (r: Step<
        Entry,
    >)
        requires
            self.wf(),
        ensures
            r@ == making_symlink(self@, ctx, parent, labelled, log@),
    {
        if self.cfg.semantics.is_sandbox() && labelled {
            return Step::Fail(LINUX_EOPNOTSUPP, 0);
        }
        let at = match self.name_to_path(parent, Slot::Name) {
            Err(error) => return Step::Fail(error, 0),
            Ok(at) => at,
        };
        let next: usize = match run_single(Call::MakeLink { at }, log, 0) {
            Step::Call(call) => return Step::Call(call),
            Step::Fail(error, next) => return Step::Fail(error, next),
            Step::Done(_, next) => next,
        };
        let mode: Option<u32> = match self.cfg.semantics {
            PermissionSemantics::LinuxSimplified => None,
            _ => Some(SYMLINK_MODE),
        };
        match self.dress(ctx, parent, labelled, at, true, mode, log, next) {
            Step::Done(entry, next) => {
                let mut entry = entry;
                if mode.is_some() {
                    entry.attr.uid = ctx.uid;
                    entry.attr.gid = ctx.gid;
                    entry.attr.mode = SYMLINK_MODE as u16;
                }
                Step::Done(entry, next)
            },
            step => step,
        }
    }

    /// Makes a symbolic link to the request's target.
    pub fn symlink(&mut self, ctx: Context, parent: u64, labelled: bool, log: &Vec<Reply>) -> (r:
        Step<Entry>)
        requires
            old(self).wf(),
        ensures
            final(self).wf(),
            r@ == making_symlink(old(self)@, ctx, parent, labelled, log@),
            final(self)@ == old(self)@.after_lookup(r@),
    {
        let step = self.make_symlink(ctx, parent, labelled, log);
        self.answer_entry(step)
    }

    fn make_link(&self, ctx: Context, inode: u64, parent: u64, log: &Vec<Reply>) -> (r: Step<Entry>)
        requires
            self.wf(),
        ensures
            r@ == linking(self@, ctx, inode, parent, log@),
    {
        let from = match self.inode_to_handle(inode, false) {
            Err(error) => return Step::Fail(error, 0),
            Ok(from) => from,
        };
        let to = match self.name_to_path(parent, Slot::Name) {
            Err(error) => return Step::Fail(error, 0),
            Ok(to) => to,
        };
        match run_single(Call::HardLink { from, to }, log, 0) {
            Step::Call(call) => Step::Call(call),
            Step::Fail(error, next) => Step::Fail(error, next),
            Step::Done(_, next) => self.find_entry(ctx, parent, Slot::Name, log, next),
        }
    }

    /// Gives an inode another name, in the directory `parent`.
    pub fn link(&mut self, ctx: Context, inode: u64, parent: u64, log: &Vec<Reply>) -> (r: Step<
        Entry,
    >)
        requires
            old(self).wf(),
        ensures
            final(self).wf(),
            r@ == linking(old(self)@, ctx, inode, parent, log@),
            final(self)@ == old(self)@.after_lookup(r@),
    {
        let step = self.make_link(ctx, inode, parent, log);
        self.answer_entry(step)
    }
}

} // verus!
