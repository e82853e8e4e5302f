//! That operations can be driven reply by reply.
//!
//! An operation names a call for as long as it lacks replies, and comes to its
//! outcome with the last reply that it takes; replies beyond that one change
//! nothing. So whoever makes the calls one after the other hands every reply to
//! the call that it answers, and has none left over.

use vstd::prelude::*;
use crate::abi::{O_NONBLOCK, O_RDONLY, O_RDWR};
use crate::attributes::{labelling, setting, shedding, stating, translating, viewing};
use crate::config::{Config, PermissionSemantics, SandboxConfig};
use crate::host::{
    count_of, fd_of, finally, single, stat_of, Attr, Call, Node, Reply, Slot, StepView,
};
use crate::inodes::InodeData;
use crate::opening::{creating, host_flags};
use crate::override_stat::{merged, reading_override, setting_override, storing_override, Override};
use crate::passthrough::create::{
    adopting, creating_file, cutting, dressing, emptying, labelling_if, linking, making_directory,
    making_node, making_node_complete, making_node_sandbox, making_symlink, masked_regular,
    opening_new, outfitting, CreateRequest, NodeRequest, SYMLINK_MODE,
};
use crate::passthrough::io::{
    allocating, cutting_opened, flushing, opening_file, reading_file, resolving_link, seeking,
    storing_contents, uncut, writing_file,
};
use crate::passthrough::mapping::{
    announcing, mapping, mapping_fd, unmapping, withdrawing, MapRequest, SharedRegion, UnmapRequest,
};
use crate::passthrough::rename::{
    concluding, confirming, grabbing, grabbing_target, keeping_if, removing, rename_options,
    renaming, unlinking, whiting_out, WHITEOUT_MODE,
};
use crate::passthrough::setattr::{
    resizing, setattr_target, setting_attributes, setting_mode, setting_owner, setting_size,
    setting_times, touching, truncating, SetattrRequest,
};
use crate::passthrough::xattr::{
    fetching, fetching_xattr, gathering, inspecting, listing_xattr, removing_xattr,
    storing_capability, storing_xattr, InspectedView,
};
use crate::passthrough::{
    checking, constructing, entering, entering_file, finding_root, getting, looking_up,
    opening_inode, FsView,
};
use crate::sandbox::{
    changed, content_change, link_options, reading, reading_for, settling, stat_change, updating,
    writing, Change,
};
use crate::sandbox_metadata::{native_metadata, IdentityMapping, MetadataView};
use crate::stat::{unprivileged, Context, Stat};

verus! {

/// How an operation's step on all replies, of which there are `len`, and its
/// step on the first `k` of them belong together. The operation starts behind the
/// first `pos` replies.
pub open spec fn timely<T>(
    whole: StepView<T>,
    part: StepView<T>,
    pos: int,
    k: int,
    len: int,
) -> bool {
    match whole {
        StepView::Call(_) => k < len ==> part is Call,
        StepView::Done(_, end) => pos <= end <= len && if k < end {
            part is Call
        } else {
            part == whole
        },
        StepView::Fail(_, end) => pos <= end <= len && if k < end {
            part is Call
        } else {
            part == whole
        },
    }
}

/// `k`, or all replies where the part that is looked at starts behind `k`.
pub(crate) open spec fn beyond(k: int, start: int, len: int) -> int {
    if k < start {
        len
    } else {
        k
    }
}

pub(crate) proof fn lemma_reading(at: Node, st: Stat, log: Seq<Reply>, pos: int, k: int)
    requires
        0 <= pos <= k <= log.len(),
    ensures
        timely(
            reading(at, st, log, pos),
            reading(at, st, log.take(k), pos),
            pos,
            k,
            log.len() as int,
        ),
    decreases log.len() - pos,
{
    if pos + 1 < log.len() && count_of(log[pos]) is Ok {
        lemma_reading(at, st, log, pos + 2, beyond(k, pos + 2, log.len() as int));
    }
}

pub(crate) proof fn lemma_reading_for(
    config: SandboxConfig,
    at: Node,
    st: Stat,
    log: Seq<Reply>,
    pos: int,
    k: int,
)
    requires
        0 <= pos <= k <= log.len(),
    ensures
        timely(
            reading_for(config, at, st, log, pos),
            reading_for(config, at, st, log.take(k), pos),
            pos,
            k,
            log.len() as int,
        ),
{
    lemma_reading(at, st, log, pos, beyond(k, pos, log.len() as int));
}

pub(crate) proof fn lemma_writing(at: Node, st: Stat, m: MetadataView, log: Seq<Reply>, pos: int, k: int)
    requires
        0 <= pos <= k <= log.len(),
    ensures
        timely(
            writing(at, st, m, log, pos),
            writing(at, st, m, log.take(k), pos),
            pos,
            k,
            log.len() as int,
        ),
{
}

pub(crate) proof fn lemma_settling(
    config: SandboxConfig,
    at: Node,
    st: Stat,
    existing: Option<MetadataView>,
    change: Change,
    log: Seq<Reply>,
    pos: int,
    k: int,
)
    requires
        0 <= pos <= k <= log.len(),
    ensures
        timely(
            settling(config, at, st, existing, change, log, pos),
            settling(config, at, st, existing, change, log.take(k), pos),
            pos,
            k,
            log.len() as int,
        ),
{
    let original = match existing {
        Some(m) => m,
        None => native_metadata(config.identity, st.uid, st.gid, st.full_mode()),
    };
    if let Some(m) = changed(original, change) {
        lemma_writing(at, st, m, log, pos, k);
    }
}

pub(crate) proof fn lemma_updating(
    config: SandboxConfig,
    at: Node,
    given: Option<Stat>,
    change: Change,
    log: Seq<Reply>,
    pos: int,
    k: int,
)
    requires
        0 <= pos <= k <= log.len(),
    ensures
        timely(
            updating(config, at, given, change, log, pos),
            updating(config, at, given, change, log.take(k), pos),
            pos,
            k,
            log.len() as int,
        ),
{
    if pos < log.len() {
        if let Ok(host) = stat_of(log[pos]) {
            let st = match given {
                Some(st) => st,
                None => host,
            };
            lemma_reading_for(config, at, st, log, pos + 1, beyond(k, pos + 1, log.len() as int));
            if let StepView::Done(existing, next) = reading_for(config, at, st, log, pos + 1) {
                lemma_settling(
                    config,
                    at,
                    st,
                    existing,
                    change,
                    log,
                    next,
                    beyond(k, next, log.len() as int),
                );
            }
        }
    }
}

pub(crate) proof fn lemma_reading_override(at: Node, st: Stat, log: Seq<Reply>, pos: int, k: int)
    requires
        0 <= pos <= k <= log.len(),
    ensures
        timely(
            reading_override(at, st, log, pos),
            reading_override(at, st, log.take(k), pos),
            pos,
            k,
            log.len() as int,
        ),
{
}

pub(crate) proof fn lemma_storing_override(at: Node, st: Stat, o: Override, log: Seq<Reply>, pos: int, k: int)
    requires
        0 <= pos <= k <= log.len(),
    ensures
        timely(
            storing_override(at, st, o, log, pos),
            storing_override(at, st, o, log.take(k), pos),
            pos,
            k,
            log.len() as int,
        ),
{
}

pub(crate) proof fn lemma_setting_override(
    at: Node,
    given: Option<Stat>,
    owner: Option<(u32, u32)>,
    mode: Option<u32>,
    log: Seq<Reply>,
    pos: int,
    k: int,
)
    requires
        0 <= pos <= k <= log.len(),
    ensures
        timely(
            setting_override(at, given, owner, mode, log, pos),
            setting_override(at, given, owner, mode, log.take(k), pos),
            pos,
            k,
            log.len() as int,
        ),
{
    if pos < log.len() {
        if let Ok(host) = stat_of(log[pos]) {
            let st = match given {
                Some(st) => st,
                None => host,
            };
            let unset = Override { uid: None, gid: None, mode: None };
            lemma_storing_override(
                at,
                st,
                merged(unset, owner, mode),
                log,
                pos + 1,
                beyond(k, pos + 1, log.len() as int),
            );
            lemma_reading_override(at, st, log, pos + 1, beyond(k, pos + 1, log.len() as int));
            if let StepView::Done(before, next) = reading_override(at, st, log, pos + 1) {
                lemma_storing_override(
                    at,
                    st,
                    merged(before, owner, mode),
                    log,
                    next,
                    beyond(k, next, log.len() as int),
                );
            }
        }
    }
}

pub(crate) proof fn lemma_single(call: Call, log: Seq<Reply>, pos: int, k: int)
    requires
        0 <= pos <= k <= log.len(),
    ensures
        timely(single(call, log, pos), single(call, log.take(k), pos), pos, k, log.len() as int),
{
}

pub(crate) proof fn lemma_setting(
    semantics: PermissionSemantics,
    at: Node,
    given: Option<Stat>,
    owner: Option<(u32, u32)>,
    mode: Option<u32>,
    log: Seq<Reply>,
    pos: int,
    k: int,
)
    requires
        0 <= pos <= k <= log.len(),
    ensures
        timely(
            setting(semantics, at, given, owner, mode, log, pos),
            setting(semantics, at, given, owner, mode, log.take(k), pos),
            pos,
            k,
            log.len() as int,
        ),
{
    match semantics {
        PermissionSemantics::LinuxComplete => lemma_setting_override(
            at,
            given,
            owner,
            mode,
            log,
            pos,
            k,
        ),
        PermissionSemantics::LinuxSimplified => {},
        PermissionSemantics::Sandbox(config) => lemma_updating(
            config,
            at,
            given,
            stat_change(owner, mode),
            log,
            pos,
            k,
        ),
    }
}

pub(crate) proof fn lemma_translating(
    ctx: Context,
    semantics: PermissionSemantics,
    at: Node,
    st: Stat,
    log: Seq<Reply>,
    pos: int,
    k: int,
)
    requires
        0 <= pos <= k <= log.len(),
    ensures
        timely(
            translating(ctx, semantics, at, st, log, pos),
            translating(ctx, semantics, at, st, log.take(k), pos),
            pos,
            k,
            log.len() as int,
        ),
{
    match semantics {
        PermissionSemantics::LinuxComplete => lemma_reading_override(at, st, log, pos, k),
        PermissionSemantics::LinuxSimplified => {},
        PermissionSemantics::Sandbox(config) => lemma_reading_for(config, at, st, log, pos, k),
    }
}

pub(crate) proof fn lemma_stating(
    ctx: Context,
    semantics: PermissionSemantics,
    at: Node,
    log: Seq<Reply>,
    pos: int,
    k: int,
)
    requires
        0 <= pos <= k <= log.len(),
    ensures
        timely(
            stating(ctx, semantics, at, log, pos),
            stating(ctx, semantics, at, log.take(k), pos),
            pos,
            k,
            log.len() as int,
        ),
{
    if pos < log.len() {
        if let Ok(st) = stat_of(log[pos]) {
            lemma_translating(
                ctx,
                semantics,
                at,
                st,
                log,
                pos + 1,
                beyond(k, pos + 1, log.len() as int),
            );
        }
    }
}

pub(crate) proof fn lemma_viewing(
    ctx: Context,
    semantics: PermissionSemantics,
    at: Node,
    log: Seq<Reply>,
    pos: int,
    k: int,
)
    requires
        0 <= pos <= k <= log.len(),
    ensures
        timely(
            viewing(ctx, semantics, at, log, pos),
            viewing(ctx, semantics, at, log.take(k), pos),
            pos,
            k,
            log.len() as int,
        ),
{
    lemma_stating(ctx, semantics, at, log, pos, beyond(k, pos, log.len() as int));
    if pos < log.len() {
        if let Ok(fd) = fd_of(log[pos]) {
            lemma_stating(
                ctx,
                semantics,
                Node::Fd(fd),
                log,
                pos + 1,
                beyond(k, pos + 1, log.len() as int),
            );
        }
    }
}

pub(crate) proof fn lemma_labelling(at: Node, symlink: bool, log: Seq<Reply>, pos: int, k: int)
    requires
        0 <= pos <= k <= log.len(),
    ensures
        timely(
            labelling(at, symlink, log, pos),
            labelling(at, symlink, log.take(k), pos),
            pos,
            k,
            log.len() as int,
        ),
{
}

pub(crate) proof fn lemma_shedding(
    ctx: Context,
    semantics: PermissionSemantics,
    at: Node,
    owner: Option<(u32, u32)>,
    log: Seq<Reply>,
    pos: int,
    k: int,
)
    requires
        0 <= pos <= k <= log.len(),
    ensures
        timely(
            shedding(ctx, semantics, at, owner, log, pos),
            shedding(ctx, semantics, at, owner, log.take(k), pos),
            pos,
            k,
            log.len() as int,
        ),
{
    if pos < log.len() {
        lemma_viewing(ctx, semantics, at, log, pos + 1, beyond(k, pos + 1, log.len() as int));
        if let StepView::Done(st, next) = viewing(ctx, semantics, at, log, pos + 1) {
            lemma_setting(
                semantics,
                at,
                Some(st),
                owner,
                Some(unprivileged(st.full_mode())),
                log,
                next,
                beyond(k, next, log.len() as int),
            );
            lemma_setting(
                semantics,
                at,
                Some(st),
                owner,
                None,
                log,
                next,
                beyond(k, next, log.len() as int),
            );
        }
    }
}

pub(crate) proof fn lemma_creating(at: Node, flags: u32, mode: u32, log: Seq<Reply>, pos: int, k: int)
    requires
        0 <= pos <= k <= log.len(),
    ensures
        timely(
            creating(at, flags, mode, log, pos),
            creating(at, flags, mode, log.take(k), pos),
            pos,
            k,
            log.len() as int,
        ),
    decreases log.len() - pos,
{
    if pos + 1 < log.len() {
        lemma_creating(at, flags, mode, log, pos + 2, beyond(k, pos + 2, log.len() as int));
    }
}

pub(crate) proof fn lemma_entering(fs: FsView, parent: u64, st: Stat, log: Seq<Reply>, pos: int, k: int)
    requires
        0 <= pos <= k <= log.len(),
    ensures
        timely(
            entering(fs, parent, st, log, pos),
            entering(fs, parent, st, log.take(k), pos),
            pos,
            k,
            log.len() as int,
        ),
{
}

pub(crate) proof fn lemma_looking_up(
    fs: FsView,
    ctx: Context,
    parent: u64,
    slot: Slot,
    log: Seq<Reply>,
    pos: int,
    k: int,
)
    requires
        0 <= pos <= k <= log.len(),
    ensures
        timely(
            looking_up(fs, ctx, parent, slot, log, pos),
            looking_up(fs, ctx, parent, slot, log.take(k), pos),
            pos,
            k,
            log.len() as int,
        ),
{
    if let Ok(at) = fs.child_of(parent, slot) {
        lemma_viewing(ctx, fs.cfg.semantics, at, log, pos, beyond(k, pos, log.len() as int));
        if let StepView::Done(st, next) = viewing(ctx, fs.cfg.semantics, at, log, pos) {
            lemma_entering(fs, parent, st, log, next, beyond(k, next, log.len() as int));
        }
    }
}

pub(crate) proof fn lemma_getting(fs: FsView, ctx: Context, inode: u64, log: Seq<Reply>, pos: int, k: int)
    requires
        0 <= pos <= k <= log.len(),
    ensures
        timely(
            getting(fs, ctx, inode, log, pos),
            getting(fs, ctx, inode, log.take(k), pos),
            pos,
            k,
            log.len() as int,
        ),
{
    if let Ok(at) = fs.node_of(inode, true) {
        lemma_viewing(ctx, fs.cfg.semantics, at, log, pos, beyond(k, pos, log.len() as int));
    }
}

pub(crate) proof fn lemma_opening_inode(fs: FsView, inode: u64, flags: u32, log: Seq<Reply>, pos: int, k: int)
    requires
        0 <= pos <= k <= log.len(),
    ensures
        timely(
            opening_inode(fs, inode, flags, log, pos),
            opening_inode(fs, inode, flags, log.take(k), pos),
            pos,
            k,
            log.len() as int,
        ),
{
}

/// A lookup is answered with the last reply that it takes.
pub proof fn lookup_is_timely(fs: FsView, ctx: Context, parent: u64, log: Seq<Reply>, k: int)
    requires
        0 <= k <= log.len(),
    ensures
        timely(
            looking_up(fs, ctx, parent, Slot::Name, log, 0),
            looking_up(fs, ctx, parent, Slot::Name, log.take(k), 0),
            0,
            k,
            log.len() as int,
        ),
{
    lemma_looking_up(fs, ctx, parent, Slot::Name, log, 0, k);
}

/// A request for attributes is answered with the last reply that it takes.
pub proof fn getattr_is_timely(fs: FsView, ctx: Context, inode: u64, log: Seq<Reply>, k: int)
    requires
        0 <= k <= log.len(),
    ensures
        timely(
            getting(fs, ctx, inode, log, 0),
            getting(fs, ctx, inode, log.take(k), 0),
            0,
            k,
            log.len() as int,
        ),
{
    lemma_getting(fs, ctx, inode, log, 0, k);
}

/// An access check is answered with the last reply that it takes.
pub proof fn access_is_timely(
    fs: FsView,
    ctx: Context,
    inode: u64,
    mask: u32,
    log: Seq<Reply>,
    k: int,
)
    requires
        0 <= k <= log.len(),
    ensures
        timely(
            checking(fs, ctx, inode, mask, log, 0),
            checking(fs, ctx, inode, mask, log.take(k), 0),
            0,
            k,
            log.len() as int,
        ),
{
    lemma_getting(fs, ctx, inode, log, 0, k);
}

/// The making of a file system is answered with the last reply that it takes.
pub proof fn construction_is_timely(cfg: Config, log: Seq<Reply>, k: int)
    requires
        0 <= k <= log.len(),
    ensures
        timely(constructing(cfg, log), constructing(cfg, log.take(k)), 0, k, log.len() as int),
{
}

/// Initialisation is answered with the last reply that it takes.
pub proof fn init_is_timely(log: Seq<Reply>, k: int)
    requires
        0 <= k <= log.len(),
    ensures
        timely(finding_root(log), finding_root(log.take(k)), 0, k, log.len() as int),
{
}

/// Telling of an open file is answered with the last reply that it takes.
pub proof fn entry_from_file_is_timely(
    fs: FsView,
    ctx: Context,
    parent: u64,
    fd: i32,
    log: Seq<Reply>,
    k: int,
)
    requires
        0 <= k <= log.len(),
    ensures
        timely(
            entering_file(fs, ctx, parent, fd, log, 0),
            entering_file(fs, ctx, parent, fd, log.take(k), 0),
            0,
            k,
            log.len() as int,
        ),
{
    lemma_stating(ctx, fs.cfg.semantics, Node::Fd(fd), log, 0, beyond(k, 0, log.len() as int));
    if let StepView::Done(st, next) = stating(ctx, fs.cfg.semantics, Node::Fd(fd), log, 0) {
        lemma_entering(fs, parent, st, log, next, beyond(k, next, log.len() as int));
    }
}

pub(crate) proof fn lemma_labelling_if(
    labelled: bool,
    at: Node,
    symlink: bool,
    log: Seq<Reply>,
    pos: int,
    k: int,
)
    requires
        0 <= pos <= k <= log.len(),
    ensures
        timely(
            labelling_if(labelled, at, symlink, log, pos),
            labelling_if(labelled, at, symlink, log.take(k), pos),
            pos,
            k,
            log.len() as int,
        ),
{
    lemma_labelling(at, symlink, log, pos, beyond(k, pos, log.len() as int));
}

pub(crate) proof fn lemma_opening_new(
    semantics: PermissionSemantics,
    req: CreateRequest,
    at: Node,
    log: Seq<Reply>,
    k: int,
)
    requires
        0 <= k <= log.len(),
    ensures
        timely(
            opening_new(semantics, req, at, log),
            opening_new(semantics, req, at, log.take(k)),
            0,
            k,
            log.len() as int,
        ),
{
    lemma_creating(at, req.open_flags(semantics), req.host_mode(semantics), log, 0, k);
}

pub(crate) proof fn lemma_emptying(
    semantics: PermissionSemantics,
    kill_priv: bool,
    fd: i32,
    log: Seq<Reply>,
    pos: int,
    k: int,
)
    requires
        0 <= pos <= k <= log.len(),
    ensures
        timely(
            emptying(semantics, kill_priv, fd, log, pos),
            emptying(semantics, kill_priv, fd, log.take(k), pos),
            pos,
            k,
            log.len() as int,
        ),
{
    if let PermissionSemantics::Sandbox(config) = semantics {
        lemma_updating(
            config,
            Node::Fd(fd),
            None,
            content_change(kill_priv),
            log,
            pos,
            beyond(k, pos, log.len() as int),
        );
    }
}

pub(crate) proof fn lemma_cutting(
    semantics: PermissionSemantics,
    req: CreateRequest,
    fd: i32,
    created: bool,
    log: Seq<Reply>,
    pos: int,
    k: int,
)
    requires
        0 <= pos <= k <= log.len(),
    ensures
        timely(
            cutting(semantics, req, fd, created, log, pos),
            cutting(semantics, req, fd, created, log.take(k), pos),
            pos,
            k,
            log.len() as int,
        ),
{
    lemma_emptying(semantics, req.kill_priv, fd, log, pos, beyond(k, pos, log.len() as int));
}

pub(crate) proof fn adopting_is_within(
    semantics: PermissionSemantics,
    ctx: Context,
    req: CreateRequest,
    fd: i32,
    created: bool,
    log: Seq<Reply>,
    pos: int,
)
    requires
        0 <= pos <= log.len(),
    ensures
        match adopting(semantics, ctx, req, fd, created, log, pos) {
            StepView::Done(_, end) => pos <= end <= log.len(),
            _ => true,
        },
{
    let owner = Some((ctx.uid, ctx.gid));
    let mode = Some(req.guest_mode(semantics));
    lemma_setting(semantics, Node::Fd(fd), None, owner, mode, log, pos, log.len() as int);
}

pub(crate) proof fn lemma_outfitting(
    fs: FsView,
    ctx: Context,
    req: CreateRequest,
    fd: i32,
    created: bool,
    log: Seq<Reply>,
    pos: int,
    k: int,
)
    requires
        0 <= pos <= k <= log.len(),
    ensures
        timely(
            outfitting(fs, ctx, req, fd, created, log, pos),
            outfitting(fs, ctx, req, fd, created, log.take(k), pos),
            pos,
            k,
            log.len() as int,
        ),
{
    let semantics = fs.cfg.semantics;
    let owner = Some((ctx.uid, ctx.gid));
    let mode = Some(req.guest_mode(semantics));
    lemma_setting(semantics, Node::Fd(fd), None, owner, mode, log, pos, k);
    if let StepView::Done(_, a) = adopting(semantics, ctx, req, fd, created, log, pos) {
        adopting_is_within(semantics, ctx, req, fd, created, log, pos);
        lemma_labelling_if(
            req.labelled,
            Node::Fd(fd),
            false,
            log,
            a,
            beyond(k, a, log.len() as int),
        );
        if let StepView::Done(_, next) = labelling_if(req.labelled, Node::Fd(fd), false, log, a) {
            lemma_cutting(
                semantics,
                req,
                fd,
                created,
                log,
                next,
                beyond(k, next, log.len() as int),
            );
            if let StepView::Done(_, next2) = cutting(semantics, req, fd, created, log, next) {
                lemma_stating(
                    ctx,
                    semantics,
                    Node::Fd(fd),
                    log,
                    next2,
                    beyond(k, next2, log.len() as int),
                );
                if let StepView::Done(st, next3) = stating(
                    ctx,
                    semantics,
                    Node::Fd(fd),
                    log,
                    next2,
                ) {
                    lemma_entering(
                        fs,
                        req.parent,
                        st,
                        log,
                        next3,
                        beyond(k, next3, log.len() as int),
                    );
                }
            }
        }
    }
}

/// The creation of a file is answered with the last reply that it takes.
pub proof fn create_is_timely(fs: FsView, ctx: Context, req: CreateRequest, log: Seq<Reply>, k: int)
    requires
        0 <= k <= log.len(),
    ensures
        timely(
            creating_file(fs, ctx, req, log),
            creating_file(fs, ctx, req, log.take(k)),
            0,
            k,
            log.len() as int,
        ),
{
    if let Ok(at) = fs.child_of(req.parent, Slot::Name) {
        lemma_opening_new(fs.cfg.semantics, req, at, log, k);
        if let StepView::Done((fd, created), n) = opening_new(fs.cfg.semantics, req, at, log) {
            lemma_outfitting(fs, ctx, req, fd, created, log, n, beyond(k, n, log.len() as int));
        }
    }
}

pub(crate) proof fn lemma_dressing(
    fs: FsView,
    ctx: Context,
    parent: u64,
    labelled: bool,
    at: Node,
    symlink: bool,
    mode: Option<u32>,
    log: Seq<Reply>,
    pos: int,
    k: int,
)
    requires
        0 <= pos <= k <= log.len(),
    ensures
        timely(
            dressing(fs, ctx, parent, labelled, at, symlink, mode, log, pos),
            dressing(fs, ctx, parent, labelled, at, symlink, mode, log.take(k), pos),
            pos,
            k,
            log.len() as int,
        ),
{
    lemma_labelling_if(labelled, at, symlink, log, pos, beyond(k, pos, log.len() as int));
    if let StepView::Done(_, next) = labelling_if(labelled, at, symlink, log, pos) {
        lemma_looking_up(fs, ctx, parent, Slot::Name, log, next, beyond(k, next, log.len() as int));
        lemma_setting(
            fs.cfg.semantics,
            at,
            None,
            Some((ctx.uid, ctx.gid)),
            mode,
            log,
            next,
            beyond(k, next, log.len() as int),
        );
        if let StepView::Done(_, next2) = setting(
            fs.cfg.semantics,
            at,
            None,
            Some((ctx.uid, ctx.gid)),
            mode,
            log,
            next,
        ) {
            lemma_looking_up(
                fs,
                ctx,
                parent,
                Slot::Name,
                log,
                next2,
                beyond(k, next2, log.len() as int),
            );
        }
    }
}

/// The making of a directory is answered with the last reply that it takes.
pub proof fn mkdir_is_timely(fs: FsView, ctx: Context, req: NodeRequest, log: Seq<Reply>, k: int)
    requires
        0 <= k <= log.len(),
    ensures
        timely(
            making_directory(fs, ctx, req, log),
            making_directory(fs, ctx, req, log.take(k)),
            0,
            k,
            log.len() as int,
        ),
{
    if let Ok(at) = fs.child_of(req.parent, Slot::Name) {
        let mode = req.mode & !req.umask;
        if log.len() > 0 {
            lemma_dressing(
                fs,
                ctx,
                req.parent,
                req.labelled,
                at,
                false,
                None,
                log,
                1,
                beyond(k, 1, log.len() as int),
            );
        }
        if log.len() > 0 {
            lemma_dressing(
                fs,
                ctx,
                req.parent,
                req.labelled,
                at,
                false,
                Some(mode),
                log,
                1,
                beyond(k, 1, log.len() as int),
            );
        }
    }
}

pub(crate) proof fn lemma_making_node_complete(
    fs: FsView,
    ctx: Context,
    req: NodeRequest,
    log: Seq<Reply>,
    k: int,
)
    requires
        0 <= k <= log.len(),
    ensures
        timely(
            making_node_complete(fs, ctx, req, log),
            making_node_complete(fs, ctx, req, log.take(k)),
            0,
            k,
            log.len() as int,
        ),
{
    let owner = Some((ctx.uid, ctx.gid));
    let mode = Some(req.mode & !req.umask);
    if 0 < log.len() {
        if let Ok(fd) = fd_of(log[0]) {
            lemma_labelling_if(
                req.labelled,
                Node::Fd(fd),
                false,
                log,
                1,
                beyond(k, 1, log.len() as int),
            );
            if let StepView::Done(_, next) = labelling_if(
                req.labelled,
                Node::Fd(fd),
                false,
                log,
                1,
            ) {
                lemma_setting_override(
                    Node::Fd(fd),
                    None,
                    owner,
                    mode,
                    log,
                    next,
                    beyond(k, next, log.len() as int),
                );
                if let StepView::Done(_, next2) = finally(
                    setting_override(Node::Fd(fd), None, owner, mode, log, next),
                    Call::Close { fd },
                    log,
                ) {
                    lemma_looking_up(
                        fs,
                        ctx,
                        req.parent,
                        Slot::Name,
                        log,
                        next2,
                        beyond(k, next2, log.len() as int),
                    );
                }
            }
        }
    }
}

pub(crate) proof fn lemma_making_node_sandbox(
    fs: FsView,
    ctx: Context,
    req: NodeRequest,
    log: Seq<Reply>,
    k: int,
)
    requires
        0 <= k <= log.len(),
    ensures
        timely(
            making_node_sandbox(fs, ctx, req, log),
            making_node_sandbox(fs, ctx, req, log.take(k)),
            0,
            k,
            log.len() as int,
        ),
{
    let owner = Some((ctx.uid, ctx.gid));
    let mode = Some(masked_regular(req.mode, req.umask));
    if 0 < log.len() {
        if let Ok(fd) = fd_of(log[0]) {
            lemma_setting(
                fs.cfg.semantics,
                Node::Fd(fd),
                None,
                owner,
                mode,
                log,
                1,
                beyond(k, 1, log.len() as int),
            );
            if let StepView::Done(_, next) = finally(
                setting(fs.cfg.semantics, Node::Fd(fd), None, owner, mode, log, 1),
                Call::Close { fd },
                log,
            ) {
                lemma_looking_up(
                    fs,
                    ctx,
                    req.parent,
                    Slot::Name,
                    log,
                    next,
                    beyond(k, next, log.len() as int),
                );
            }
        }
    }
}

/// The making of a special file is answered with the last reply that it takes.
pub proof fn mknod_is_timely(fs: FsView, ctx: Context, req: NodeRequest, log: Seq<Reply>, k: int)
    requires
        0 <= k <= log.len(),
    ensures
        timely(
            making_node(fs, ctx, req, log),
            making_node(fs, ctx, req, log.take(k)),
            0,
            k,
            log.len() as int,
        ),
{
    lemma_making_node_complete(fs, ctx, req, log, k);
    lemma_making_node_sandbox(fs, ctx, req, log, k);
    if let Ok(at) = fs.child_of(req.parent, Slot::Name) {
        if log.len() > 0 {
            lemma_dressing(
                fs,
                ctx,
                req.parent,
                req.labelled,
                at,
                false,
                None,
                log,
                1,
                beyond(k, 1, log.len() as int),
            );
        }
    }
}

/// The making of a symbolic link is answered with the last reply that it takes.
pub proof fn symlink_is_timely(
    fs: FsView,
    ctx: Context,
    parent: u64,
    labelled: bool,
    log: Seq<Reply>,
    k: int,
)
    requires
        0 <= k <= log.len(),
    ensures
        timely(
            making_symlink(fs, ctx, parent, labelled, log),
            making_symlink(fs, ctx, parent, labelled, log.take(k)),
            0,
            k,
            log.len() as int,
        ),
{
    if let Ok(at) = fs.child_of(parent, Slot::Name) {
        if log.len() > 0 {
            lemma_dressing(
                fs,
                ctx,
                parent,
                labelled,
                at,
                true,
                None,
                log,
                1,
                beyond(k, 1, log.len() as int),
            );
        }
        if log.len() > 0 {
            lemma_dressing(
                fs,
                ctx,
                parent,
                labelled,
                at,
                true,
                Some(SYMLINK_MODE),
                log,
                1,
                beyond(k, 1, log.len() as int),
            );
        }
    }
}

/// A link is answered with the last reply that it takes.
pub proof fn link_is_timely(
    fs: FsView,
    ctx: Context,
    inode: u64,
    parent: u64,
    log: Seq<Reply>,
    k: int,
)
    requires
        0 <= k <= log.len(),
    ensures
        timely(
            linking(fs, ctx, inode, parent, log),
            linking(fs, ctx, inode, parent, log.take(k)),
            0,
            k,
            log.len() as int,
        ),
{
    if log.len() > 0 {
        lemma_looking_up(fs, ctx, parent, Slot::Name, log, 1, beyond(k, 1, log.len() as int));
    }
}

pub(crate) proof fn lemma_cutting_opened(
    semantics: PermissionSemantics,
    ctx: Context,
    kill_priv: bool,
    flags: u32,
    fd: i32,
    log: Seq<Reply>,
    pos: int,
    k: int,
)
    requires
        0 <= pos <= k <= log.len(),
    ensures
        timely(
            cutting_opened(semantics, ctx, kill_priv, flags, fd, log, pos),
            cutting_opened(semantics, ctx, kill_priv, flags, fd, log.take(k), pos),
            pos,
            k,
            log.len() as int,
        ),
{
    lemma_emptying(semantics, kill_priv, fd, log, pos, beyond(k, pos, log.len() as int));
    lemma_shedding(ctx, semantics, Node::Fd(fd), None, log, pos, beyond(k, pos, log.len() as int));
}

/// An open is answered with the last reply that it takes.
pub proof fn open_is_timely(
    fs: FsView,
    ctx: Context,
    inode: u64,
    kill_priv: bool,
    flags: u32,
    log: Seq<Reply>,
    k: int,
)
    requires
        0 <= k <= log.len(),
    ensures
        timely(
            opening_file(fs, ctx, inode, kill_priv, flags, log),
            opening_file(fs, ctx, inode, kill_priv, flags, log.take(k)),
            0,
            k,
            log.len() as int,
        ),
{
    let parsed = host_flags(flags);
    let semantics = fs.cfg.semantics;
    lemma_opening_inode(
        fs,
        inode,
        uncut(semantics, parsed),
        log,
        0,
        beyond(k, 0, log.len() as int),
    );
    if let StepView::Done(fd, next) = opening_inode(fs, inode, uncut(semantics, parsed), log, 0) {
        lemma_cutting_opened(
            semantics,
            ctx,
            kill_priv,
            parsed,
            fd,
            log,
            next,
            beyond(k, next, log.len() as int),
        );
    }
}

pub(crate) proof fn lemma_storing_contents(fd: i32, size: u32, offset: u64, log: Seq<Reply>, pos: int, k: int)
    requires
        0 <= pos <= k <= log.len(),
    ensures
        timely(
            storing_contents(fd, size, offset, log, pos),
            storing_contents(fd, size, offset, log.take(k), pos),
            pos,
            k,
            log.len() as int,
        ),
{
}

/// A write is answered with the last reply that it takes.
pub proof fn write_is_timely(
    fs: FsView,
    ctx: Context,
    fd: i32,
    size: u32,
    offset: u64,
    kill_priv: bool,
    log: Seq<Reply>,
    k: int,
)
    requires
        0 <= k <= log.len(),
    ensures
        timely(
            writing_file(fs, ctx, fd, size, offset, kill_priv, log),
            writing_file(fs, ctx, fd, size, offset, kill_priv, log.take(k)),
            0,
            k,
            log.len() as int,
        ),
{
    if let PermissionSemantics::Sandbox(config) = fs.cfg.semantics {
        lemma_updating(
            config,
            Node::Fd(fd),
            None,
            content_change(kill_priv),
            log,
            0,
            beyond(k, 0, log.len() as int),
        );
        if let StepView::Done(_, next) = updating(
            config,
            Node::Fd(fd),
            None,
            content_change(kill_priv),
            log,
            0,
        ) {
            lemma_storing_contents(fd, size, offset, log, next, beyond(k, next, log.len() as int));
        }
    }
    lemma_storing_contents(fd, size, offset, log, 0, beyond(k, 0, log.len() as int));
    if let StepView::Done(_, next2) = storing_contents(fd, size, offset, log, 0) {
        lemma_shedding(
            ctx,
            fs.cfg.semantics,
            Node::Fd(fd),
            None,
            log,
            next2,
            beyond(k, next2, log.len() as int),
        );
    }
}

/// An allocation is answered with the last reply that it takes.
pub proof fn allocation_is_timely(
    fd: i32,
    mode: u32,
    offset: u64,
    length: u64,
    log: Seq<Reply>,
    k: int,
)
    requires
        0 <= k <= log.len(),
    ensures
        timely(
            allocating(fd, mode, offset, length, log),
            allocating(fd, mode, offset, length, log.take(k)),
            0,
            k,
            log.len() as int,
        ),
{
}

/// A flush is answered with the last reply that it takes.
pub proof fn flush_is_timely(fd: i32, log: Seq<Reply>, k: int)
    requires
        0 <= k <= log.len(),
    ensures
        timely(flushing(fd, log), flushing(fd, log.take(k)), 0, k, log.len() as int),
{
}

/// A read is answered with the last reply that it takes.
pub proof fn read_is_timely(fd: i32, size: u32, offset: u64, log: Seq<Reply>, k: int)
    requires
        0 <= k <= log.len(),
    ensures
        timely(
            reading_file(fd, size, offset, log),
            reading_file(fd, size, offset, log.take(k)),
            0,
            k,
            log.len() as int,
        ),
{
}

/// A seek is answered with the last reply that it takes.
pub proof fn seek_is_timely(fd: i32, offset: u64, whence: u32, log: Seq<Reply>, k: int)
    requires
        0 <= k <= log.len(),
    ensures
        timely(
            seeking(fd, offset, whence, log),
            seeking(fd, offset, whence, log.take(k)),
            0,
            k,
            log.len() as int,
        ),
{
}

/// A request to make a file durable is answered with the last reply that it takes.
pub proof fn fsync_is_timely(fd: i32, log: Seq<Reply>, k: int)
    requires
        0 <= k <= log.len(),
    ensures
        timely(
            single(Call::Sync { fd }, log, 0),
            single(Call::Sync { fd }, log.take(k), 0),
            0,
            k,
            log.len() as int,
        ),
{
}

/// The reading of a link is answered with the last reply that it takes.
pub proof fn readlink_is_timely(fs: FsView, inode: u64, log: Seq<Reply>, k: int)
    requires
        0 <= k <= log.len(),
    ensures
        timely(
            resolving_link(fs, inode, log),
            resolving_link(fs, inode, log.take(k)),
            0,
            k,
            log.len() as int,
        ),
{
}

pub(crate) proof fn lemma_truncating(
    ctx: Context,
    semantics: PermissionSemantics,
    fd: i32,
    size: i64,
    log: Seq<Reply>,
    pos: int,
    k: int,
)
    requires
        0 <= pos <= k <= log.len(),
    ensures
        timely(
            truncating(ctx, semantics, fd, size, log, pos),
            truncating(ctx, semantics, fd, size, log.take(k), pos),
            pos,
            k,
            log.len() as int,
        ),
{
    if pos < log.len() {
        lemma_shedding(
            ctx,
            semantics,
            Node::Fd(fd),
            None,
            log,
            pos + 1,
            beyond(k, pos + 1, log.len() as int),
        );
    }
}

pub(crate) proof fn lemma_resizing(
    fs: FsView,
    ctx: Context,
    inode: u64,
    size: i64,
    at: Node,
    log: Seq<Reply>,
    pos: int,
    k: int,
)
    requires
        0 <= pos <= k <= log.len(),
    ensures
        timely(
            resizing(fs, ctx, inode, size, at, log, pos),
            resizing(fs, ctx, inode, size, at, log.take(k), pos),
            pos,
            k,
            log.len() as int,
        ),
{
    if let Node::Fd(fd) = at {
        lemma_truncating(
            ctx,
            fs.cfg.semantics,
            fd,
            size,
            log,
            pos,
            beyond(k, pos, log.len() as int),
        );
    }
    lemma_opening_inode(fs, inode, O_NONBLOCK | O_RDWR, log, pos, beyond(k, pos, log.len() as int));
    if let StepView::Done(fd, next) = opening_inode(fs, inode, O_NONBLOCK | O_RDWR, log, pos) {
        lemma_truncating(
            ctx,
            fs.cfg.semantics,
            fd,
            size,
            log,
            next,
            beyond(k, next, log.len() as int),
        );
    }
}

pub(crate) proof fn lemma_touching(at: Node, req: SetattrRequest, log: Seq<Reply>, pos: int, k: int)
    requires
        0 <= pos <= k <= log.len(),
    ensures
        timely(
            touching(at, req, log, pos),
            touching(at, req, log.take(k), pos),
            pos,
            k,
            log.len() as int,
        ),
{
}

pub(crate) proof fn lemma_setting_times(
    fs: FsView,
    ctx: Context,
    req: SetattrRequest,
    at: Node,
    log: Seq<Reply>,
    pos: int,
    k: int,
)
    requires
        0 <= pos <= k <= log.len(),
    ensures
        timely(
            setting_times(fs, ctx, req, at, log, pos),
            setting_times(fs, ctx, req, at, log.take(k), pos),
            pos,
            k,
            log.len() as int,
        ),
{
    lemma_getting(fs, ctx, req.inode, log, pos, beyond(k, pos, log.len() as int));
    lemma_touching(at, req, log, pos, beyond(k, pos, log.len() as int));
    if let StepView::Done(_, next) = touching(at, req, log, pos) {
        lemma_getting(fs, ctx, req.inode, log, next, beyond(k, next, log.len() as int));
    }
}

pub(crate) proof fn lemma_setting_size(
    fs: FsView,
    ctx: Context,
    req: SetattrRequest,
    at: Node,
    log: Seq<Reply>,
    pos: int,
    k: int,
)
    requires
        0 <= pos <= k <= log.len(),
    ensures
        timely(
            setting_size(fs, ctx, req, at, log, pos),
            setting_size(fs, ctx, req, at, log.take(k), pos),
            pos,
            k,
            log.len() as int,
        ),
{
    lemma_setting_times(fs, ctx, req, at, log, pos, beyond(k, pos, log.len() as int));
    lemma_resizing(
        fs,
        ctx,
        req.inode,
        req.attr.size,
        at,
        log,
        pos,
        beyond(k, pos, log.len() as int),
    );
    if let StepView::Done(_, next) = resizing(fs, ctx, req.inode, req.attr.size, at, log, pos) {
        lemma_setting_times(fs, ctx, req, at, log, next, beyond(k, next, log.len() as int));
    }
}

pub(crate) proof fn lemma_setting_owner(
    fs: FsView,
    ctx: Context,
    req: SetattrRequest,
    at: Node,
    log: Seq<Reply>,
    pos: int,
    k: int,
)
    requires
        0 <= pos <= k <= log.len(),
    ensures
        timely(
            setting_owner(fs, ctx, req, at, log, pos),
            setting_owner(fs, ctx, req, at, log.take(k), pos),
            pos,
            k,
            log.len() as int,
        ),
{
    lemma_setting_size(fs, ctx, req, at, log, pos, beyond(k, pos, log.len() as int));
    lemma_shedding(
        ctx,
        fs.cfg.semantics,
        at,
        req.owner(),
        log,
        pos,
        beyond(k, pos, log.len() as int),
    );
    if let StepView::Done(_, next) = shedding(ctx, fs.cfg.semantics, at, req.owner(), log, pos) {
        lemma_setting_size(fs, ctx, req, at, log, next, beyond(k, next, log.len() as int));
    }
}

pub(crate) proof fn lemma_setting_mode(
    fs: FsView,
    ctx: Context,
    req: SetattrRequest,
    at: Node,
    log: Seq<Reply>,
    pos: int,
    k: int,
)
    requires
        0 <= pos <= k <= log.len(),
    ensures
        timely(
            setting_mode(fs, ctx, req, at, log, pos),
            setting_mode(fs, ctx, req, at, log.take(k), pos),
            pos,
            k,
            log.len() as int,
        ),
{
    lemma_setting_owner(fs, ctx, req, at, log, pos, beyond(k, pos, log.len() as int));
    lemma_setting(
        fs.cfg.semantics,
        at,
        None,
        None,
        req.mode(),
        log,
        pos,
        beyond(k, pos, log.len() as int),
    );
    if let StepView::Done(_, next) = setting(
        fs.cfg.semantics,
        at,
        None,
        None,
        req.mode(),
        log,
        pos,
    ) {
        lemma_setting_owner(fs, ctx, req, at, log, next, beyond(k, next, log.len() as int));
    }
}

/// A request to set attributes is answered with the last reply that it takes.
pub proof fn setattr_is_timely(
    fs: FsView,
    ctx: Context,
    req: SetattrRequest,
    log: Seq<Reply>,
    k: int,
)
    requires
        0 <= k <= log.len(),
    ensures
        timely(
            setting_attributes(fs, ctx, req, log),
            setting_attributes(fs, ctx, req, log.take(k)),
            0,
            k,
            log.len() as int,
        ),
{
    if let Ok(at) = setattr_target(fs, req) {
        lemma_setting_mode(fs, ctx, req, at, log, 0, beyond(k, 0, log.len() as int));
        lemma_setting_size(fs, ctx, req, at, log, 0, beyond(k, 0, log.len() as int));
        if let PermissionSemantics::Sandbox(config) = fs.cfg.semantics {
            lemma_updating(
                config,
                at,
                None,
                req.record_change(),
                log,
                0,
                beyond(k, 0, log.len() as int),
            );
            if let StepView::Done(_, next) = updating(
                config,
                at,
                None,
                req.record_change(),
                log,
                0,
            ) {
                lemma_setting_size(fs, ctx, req, at, log, next, beyond(k, next, log.len() as int));
            }
        }
    }
}

pub(crate) proof fn lemma_grabbing(dir: i32, slot: Slot, log: Seq<Reply>, pos: int, k: int)
    requires
        0 <= pos <= k <= log.len(),
    ensures
        timely(
            grabbing(dir, slot, log, pos),
            grabbing(dir, slot, log.take(k), pos),
            pos,
            k,
            log.len() as int,
        ),
{
}

pub(crate) proof fn lemma_keeping_if(
    m: Map<u64, InodeData>,
    grabbed: Option<i32>,
    log: Seq<Reply>,
    pos: int,
    k: int,
)
    requires
        0 <= pos <= k <= log.len(),
    ensures
        timely(
            keeping_if(m, grabbed, log, pos),
            keeping_if(m, grabbed, log.take(k), pos),
            pos,
            k,
            log.len() as int,
        ),
{
}

pub(crate) proof fn lemma_removing(
    m: Map<u64, InodeData>,
    dir: i32,
    opened: bool,
    flags: u32,
    log: Seq<Reply>,
    pos: int,
    k: int,
)
    requires
        0 <= pos <= k <= log.len(),
    ensures
        timely(
            removing(m, dir, opened, flags, log, pos),
            removing(m, dir, opened, flags, log.take(k), pos),
            pos,
            k,
            log.len() as int,
        ),
{
    let call = Call::Unlink { dir, slot: Slot::Name, flags };
    lemma_grabbing(dir, Slot::Name, log, pos, beyond(k, pos, log.len() as int));
    if let StepView::Done(grabbed, next) = grabbing(dir, Slot::Name, log, pos) {
        lemma_single(call, log, next, beyond(k, next, log.len() as int));
        if let StepView::Done(_, next2) = single(call, log, next) {
            lemma_keeping_if(m, grabbed, log, next2, beyond(k, next2, log.len() as int));
        }
        lemma_single(call, log, next, beyond(k, next, log.len() as int));
        if let StepView::Done(_, next3) = finally(
            single(call, log, next),
            Call::Close { fd: dir },
            log,
        ) {
            lemma_keeping_if(m, grabbed, log, next3, beyond(k, next3, log.len() as int));
        }
    }
}

/// The removal of a name is answered with the last reply that it takes.
pub proof fn unlink_is_timely(fs: FsView, parent: u64, flags: u32, log: Seq<Reply>, k: int)
    requires
        0 <= k <= log.len(),
    ensures
        timely(
            unlinking(fs, parent, flags, log),
            unlinking(fs, parent, flags, log.take(k)),
            0,
            k,
            log.len() as int,
        ),
{
    if let Ok(Node::Fd(dir)) = fs.node_of(parent, true) {
        lemma_removing(fs.inodes, dir, false, flags, log, 0, beyond(k, 0, log.len() as int));
    }
    if 0 < log.len() {
        if let Ok(dir) = fd_of(log[0]) {
            lemma_removing(fs.inodes, dir, true, flags, log, 1, beyond(k, 1, log.len() as int));
        }
    }
}

pub(crate) proof fn lemma_grabbing_target(fs: FsView, newdir: u64, flags: u32, log: Seq<Reply>, k: int)
    requires
        0 <= k <= log.len(),
    ensures
        timely(
            grabbing_target(fs, newdir, flags, log),
            grabbing_target(fs, newdir, flags, log.take(k)),
            0,
            k,
            log.len() as int,
        ),
{
}

pub(crate) proof fn lemma_whiting_out(
    semantics: PermissionSemantics,
    at: Node,
    log: Seq<Reply>,
    pos: int,
    k: int,
)
    requires
        0 <= pos <= k <= log.len(),
    ensures
        timely(
            whiting_out(semantics, at, log, pos),
            whiting_out(semantics, at, log.take(k), pos),
            pos,
            k,
            log.len() as int,
        ),
{
    if pos < log.len() {
        if let Ok(fd) = fd_of(log[pos]) {
            lemma_setting(
                semantics,
                Node::Fd(fd),
                None,
                None,
                Some(WHITEOUT_MODE),
                log,
                pos + 1,
                beyond(k, pos + 1, log.len() as int),
            );
        }
    }
}

pub(crate) proof fn lemma_confirming(
    fs: FsView,
    ctx: Context,
    newdir: u64,
    kept: Option<(u64, i32)>,
    log: Seq<Reply>,
    pos: int,
    k: int,
)
    requires
        0 <= pos <= k <= log.len(),
    ensures
        timely(
            confirming(fs, ctx, newdir, kept, log, pos).step,
            confirming(fs, ctx, newdir, kept, log.take(k), pos).step,
            pos,
            k,
            log.len() as int,
        ),
{
    lemma_looking_up(fs, ctx, newdir, Slot::NewName, log, pos, beyond(k, pos, log.len() as int));
}

pub(crate) proof fn lemma_concluding(
    fs: FsView,
    ctx: Context,
    newdir: u64,
    flags: u32,
    old_node: Node,
    kept: Option<(u64, i32)>,
    log: Seq<Reply>,
    pos: int,
    k: int,
)
    requires
        0 <= pos <= k <= log.len(),
    ensures
        timely(
            concluding(fs, ctx, newdir, flags, old_node, kept, log, pos).step,
            concluding(fs, ctx, newdir, flags, old_node, kept, log.take(k), pos).step,
            pos,
            k,
            log.len() as int,
        ),
{
    lemma_confirming(fs, ctx, newdir, kept, log, pos, beyond(k, pos, log.len() as int));
    lemma_whiting_out(fs.cfg.semantics, old_node, log, pos, beyond(k, pos, log.len() as int));
    if let StepView::Done(_, next) = whiting_out(fs.cfg.semantics, old_node, log, pos) {
        lemma_confirming(fs, ctx, newdir, kept, log, next, beyond(k, next, log.len() as int));
    }
}

/// A rename is answered with the last reply that it takes.
pub proof fn rename_is_timely(
    fs: FsView,
    ctx: Context,
    olddir: u64,
    newdir: u64,
    flags: u32,
    log: Seq<Reply>,
    k: int,
)
    requires
        0 <= k <= log.len(),
    ensures
        timely(
            renaming(fs, ctx, olddir, newdir, flags, log).step,
            renaming(fs, ctx, olddir, newdir, flags, log.take(k)).step,
            0,
            k,
            log.len() as int,
        ),
{
    lemma_grabbing_target(fs, newdir, flags, log, k);
    if let (Ok(from), Ok(to)) = (
        fs.child_of(olddir, Slot::Name),
        fs.child_of(newdir, Slot::NewName),
    ) {
        let call = Call::Rename { from, to, flags: rename_options(flags) };
        if let StepView::Done(doomed, n) = grabbing_target(fs, newdir, flags, log) {
            lemma_single(call, log, n, beyond(k, n, log.len() as int));
            if let StepView::Done(_, next) = single(call, log, n) {
                lemma_keeping_if(fs.inodes, doomed, log, next, beyond(k, next, log.len() as int));
                if let StepView::Done(kept, next2) = keeping_if(fs.inodes, doomed, log, next) {
                    lemma_concluding(
                        fs,
                        ctx,
                        newdir,
                        flags,
                        from,
                        kept,
                        log,
                        next2,
                        beyond(k, next2, log.len() as int),
                    );
                }
            }
        }
    }
}

pub(crate) proof fn lemma_inspecting(fs: FsView, inode: u64, log: Seq<Reply>, k: int)
    requires
        0 <= k <= log.len(),
    ensures
        timely(
            inspecting(fs, inode, log),
            inspecting(fs, inode, log.take(k)),
            0,
            k,
            log.len() as int,
        ),
{
    if let Ok(at) = fs.node_of(inode, true) {
        if 0 < log.len() {
            if let Ok(st) = stat_of(log[0]) {
                lemma_reading(at, st, log, 1, beyond(k, 1, log.len() as int));
            }
        }
    }
}

pub(crate) proof fn lemma_storing_capability(
    mapping: IdentityMapping,
    file: InspectedView,
    value: Seq<u8>,
    flags: u32,
    log: Seq<Reply>,
    pos: int,
    k: int,
)
    requires
        0 <= pos <= k <= log.len(),
    ensures
        timely(
            storing_capability(mapping, file, value, flags, log, pos),
            storing_capability(mapping, file, value, flags, log.take(k), pos),
            pos,
            k,
            log.len() as int,
        ),
{
}

/// The storing of an attribute is answered with the last reply that it takes.
pub proof fn setxattr_is_timely(
    fs: FsView,
    inode: u64,
    name: Seq<u8>,
    value: Seq<u8>,
    flags: u32,
    log: Seq<Reply>,
    k: int,
)
    requires
        0 <= k <= log.len(),
    ensures
        timely(
            storing_xattr(fs, inode, name, value, flags, log),
            storing_xattr(fs, inode, name, value, flags, log.take(k)),
            0,
            k,
            log.len() as int,
        ),
{
    lemma_inspecting(fs, inode, log, k);
    if let StepView::Done(file, n) = inspecting(fs, inode, log) {
        if let PermissionSemantics::Sandbox(config) = fs.cfg.semantics {
            lemma_storing_capability(
                config.identity,
                file,
                value,
                flags,
                log,
                n,
                beyond(k, n, log.len() as int),
            );
        }
    }
}

pub(crate) proof fn lemma_fetching(
    at: Node,
    attr: Attr,
    size: u32,
    options: u32,
    log: Seq<Reply>,
    pos: int,
    k: int,
)
    requires
        0 <= pos <= k <= log.len(),
    ensures
        timely(
            fetching(at, attr, size, options, log, pos),
            fetching(at, attr, size, options, log.take(k), pos),
            pos,
            k,
            log.len() as int,
        ),
{
}

/// The reading of an attribute is answered with the last reply that it takes.
pub proof fn getxattr_is_timely(
    fs: FsView,
    inode: u64,
    name: Seq<u8>,
    size: u32,
    log: Seq<Reply>,
    k: int,
)
    requires
        0 <= k <= log.len(),
    ensures
        timely(
            fetching_xattr(fs, inode, name, size, log),
            fetching_xattr(fs, inode, name, size, log.take(k)),
            0,
            k,
            log.len() as int,
        ),
{
    lemma_inspecting(fs, inode, log, k);
    if let StepView::Done(file, n) = inspecting(fs, inode, log) {
        lemma_fetching(
            file.at,
            Attr::Carrier,
            size,
            link_options(file.st),
            log,
            n,
            beyond(k, n, log.len() as int),
        );
    }
}

/// The removal of an attribute is answered with the last reply that it takes.
pub proof fn removexattr_is_timely(fs: FsView, inode: u64, name: Seq<u8>, log: Seq<Reply>, k: int)
    requires
        0 <= k <= log.len(),
    ensures
        timely(
            removing_xattr(fs, inode, name, log),
            removing_xattr(fs, inode, name, log.take(k)),
            0,
            k,
            log.len() as int,
        ),
{
    lemma_inspecting(fs, inode, log, k);
}

pub(crate) proof fn lemma_gathering(at: Node, options: u32, log: Seq<Reply>, pos: int, k: int)
    requires
        0 <= pos <= k <= log.len(),
    ensures
        timely(
            gathering(at, options, log, pos),
            gathering(at, options, log.take(k), pos),
            pos,
            k,
            log.len() as int,
        ),
    decreases log.len() - pos,
{
    if pos + 1 < log.len() {
        lemma_gathering(at, options, log, pos + 2, beyond(k, pos + 2, log.len() as int));
    }
}

/// A listing of attributes is answered with the last reply that it takes.
pub proof fn listxattr_is_timely(fs: FsView, inode: u64, size: u32, log: Seq<Reply>, k: int)
    requires
        0 <= k <= log.len(),
    ensures
        timely(
            listing_xattr(fs, inode, size, log),
            listing_xattr(fs, inode, size, log.take(k)),
            0,
            k,
            log.len() as int,
        ),
{
    lemma_inspecting(fs, inode, log, k);
    if let StepView::Done(file, n) = inspecting(fs, inode, log) {
        lemma_gathering(file.at, link_options(file.st), log, n, beyond(k, n, log.len() as int));
    }
}

pub(crate) proof fn lemma_announcing(addr: u64, guest: u64, len: u64, log: Seq<Reply>, pos: int, k: int)
    requires
        0 <= pos <= k <= log.len(),
    ensures
        timely(
            announcing(addr, guest, len, log, pos),
            announcing(addr, guest, len, log.take(k), pos),
            pos,
            k,
            log.len() as int,
        ),
{
}

pub(crate) proof fn lemma_mapping_fd(req: MapRequest, fd: i32, log: Seq<Reply>, pos: int, k: int)
    requires
        0 <= pos <= k <= log.len(),
    ensures
        timely(
            mapping_fd(req, fd, log, pos),
            mapping_fd(req, fd, log.take(k), pos),
            pos,
            k,
            log.len() as int,
        ),
{
}

/// The making of a mapping is answered with the last reply that it takes.
pub proof fn setupmapping_is_timely(
    fs: FsView,
    region: SharedRegion,
    req: MapRequest,
    log: Seq<Reply>,
    k: int,
)
    requires
        0 <= k <= log.len(),
    ensures
        timely(
            mapping(fs, region, req, log),
            mapping(fs, region, req, log.take(k)),
            0,
            k,
            log.len() as int,
        ),
{
    let flags = if req.writable() {
        O_RDWR
    } else {
        O_RDONLY
    };
    let guest = (region.guest_base + req.offset) as u64;
    lemma_opening_inode(fs, req.inode, flags, log, 0, beyond(k, 0, log.len() as int));
    if let StepView::Done(fd, next) = opening_inode(fs, req.inode, flags, log, 0) {
        lemma_mapping_fd(req, fd, log, next, beyond(k, next, log.len() as int));
        if let StepView::Done(addr, next2) = finally(
            mapping_fd(req, fd, log, next),
            Call::Close { fd },
            log,
        ) {
            lemma_announcing(addr, guest, req.len, log, next2, beyond(k, next2, log.len() as int));
        }
    }
}

pub(crate) proof fn lemma_unmapping(
    windows: Map<u64, u64>,
    region: SharedRegion,
    requests: Seq<UnmapRequest>,
    index: int,
    log: Seq<Reply>,
    pos: int,
    k: int,
)
    requires
        0 <= pos <= k <= log.len(),
        0 <= index,
    ensures
        timely(
            unmapping(windows, region, requests, index, log, pos).step,
            unmapping(windows, region, requests, index, log.take(k), pos).step,
            pos,
            k,
            log.len() as int,
        ),
    decreases requests.len() - index,
{
    if 0 <= index < requests.len() {
        let req = requests[index];
        let guest = (region.guest_base + req.offset) as u64;
        if let StepView::Done(_, n) = withdrawing(windows[guest], guest, req.len, log, pos) {
            lemma_unmapping(
                windows.remove(guest),
                region,
                requests,
                index + 1,
                log,
                n,
                beyond(k, n, log.len() as int),
            );
        }
    }
}

/// The removal of mappings is answered with the last reply that it takes.
pub proof fn removemapping_is_timely(
    windows: Map<u64, u64>,
    region: SharedRegion,
    requests: Seq<UnmapRequest>,
    log: Seq<Reply>,
    k: int,
)
    requires
        0 <= k <= log.len(),
    ensures
        timely(
            unmapping(windows, region, requests, 0, log, 0).step,
            unmapping(windows, region, requests, 0, log.take(k), 0).step,
            0,
            k,
            log.len() as int,
        ),
{
    lemma_unmapping(windows, region, requests, 0, log, 0, k);
}

} // verus!
