//! What making files, directories and links comes to, in terms of the request
//! alone.

use vstd::prelude::*;
use crate::attributes::setting;
use crate::bits::lemma_words;
use crate::config::PermissionSemantics;
use crate::host::{Call, CallView, Node, Reply, Slot, StepView};
use crate::opening::{creating, existing_flags, exclusive_flags, host_flags};
use crate::override_stat::{override_round_trip, Override};
use crate::sandbox::content_change;
use crate::sandbox_metadata::MetadataView;
use crate::stat::{Context, Stat};
use super::attribute_laws::{plain_mode, stores_override, stores_record};
use super::create::{
    adopting, creating_file, cutting, dressing, labelling_if, linking, making_directory,
    making_node, making_node_complete, making_node_sandbox, making_symlink, opening_new, outfitting,
    CreateRequest, NodeRequest,
};
use super::effects::{
    changes_contents, changes_names, file_of, lemma_lookup_changes_nothing,
    lemma_setting_keeps_contents, name_in,
};
use super::laws::{
    lemma_setting_stays, lemma_stating_calls, metadata_changes_touch_only_the_record,
};
use super::FsView;

verus! {

/// A step whose call, if it is one, changes neither names nor contents.
spec fn is_harmless<T>(step: StepView<T>) -> bool {
    match step {
        StepView::Call(call) => !changes_names(call) && !changes_contents(call),
        _ => true,
    }
}

proof fn lemma_dressing_is_harmless(
    fs: FsView,
    ctx: Context,
    parent: u64,
    labelled: bool,
    at: Node,
    symlink: bool,
    mode: Option<u32>,
    log: Seq<Reply>,
    pos: int,
)
    ensures
        is_harmless(dressing(fs, ctx, parent, labelled, at, symlink, mode, log, pos)),
{
    if let StepView::Done(_, n) = labelling_if(labelled, at, symlink, log, pos) {
        let owner = Some((ctx.uid, ctx.gid));
        lemma_setting_keeps_contents(fs.cfg.semantics, at, None, owner, mode, log, n);
        lemma_lookup_changes_nothing(fs, ctx, parent, Slot::Name, log, n);
        if let StepView::Done(_, m) = setting(fs.cfg.semantics, at, None, owner, mode, log, n) {
            lemma_lookup_changes_nothing(fs, ctx, parent, Slot::Name, log, m);
        }
    }
}

/// The low sixteen bits of a mode.
pub open spec fn low_half(mode: u32) -> int {
    mode as int % 0x1_0000
}

/// A directory is made under the request's name in the directory that the guest
/// named, and nothing else is. Its host mode is private where the guest's is kept
/// beside it, and else the request's without what the umask takes away. The
/// request succeeds only if the host made it.
pub proof fn mkdir_makes_the_directory(
    fs: FsView,
    ctx: Context,
    req: NodeRequest,
    log: Seq<Reply>,
)
    ensures
        match making_directory(fs, ctx, req, log) {
            StepView::Call(CallView::Do(Call::MakeDir { at, mode })) => {
                &&& log.len() == 0
                &&& fs.inodes.contains_key(req.parent) && at == name_in(fs, req.parent, Slot::Name)
                &&& mode as int == if fs.cfg.semantics == PermissionSemantics::LinuxSimplified {
                    low_half(req.mode & !req.umask)
                } else {
                    0o700
                }
            },
            StepView::Call(call) => !changes_names(call) && !changes_contents(call),
            StepView::Done(_, _) => log.len() > 0 && !(log[0] is Error),
            StepView::Fail(error, _) => !fs.inodes.contains_key(req.parent) && !(
            fs.cfg.semantics.sandboxed() && req.labelled) ==> error == 9,
        },
{
    if let Ok(at) = fs.child_of(req.parent, Slot::Name) {
        let mode = req.mode & !req.umask;
        lemma_dressing_is_harmless(
            fs,
            ctx,
            req.parent,
            req.labelled,
            at,
            false,
            None,
            log,
            1,
        );
        lemma_dressing_is_harmless(
            fs,
            ctx,
            req.parent,
            req.labelled,
            at,
            false,
            Some(mode),
            log,
            1,
        );
    }
}

/// A symbolic link is made under the request's name in the directory that the
/// guest named, and nothing else is. The request succeeds only if the host made
/// it, and the guest then sees itself as its owner.
pub proof fn symlink_makes_the_link(
    fs: FsView,
    ctx: Context,
    parent: u64,
    labelled: bool,
    log: Seq<Reply>,
)
    ensures
        match making_symlink(fs, ctx, parent, labelled, log) {
            StepView::Call(CallView::Do(Call::MakeLink { at })) => log.len() == 0
                && fs.inodes.contains_key(parent) && at == name_in(fs, parent, Slot::Name),
            StepView::Call(call) => !changes_names(call) && !changes_contents(call),
            StepView::Done(entry, _) => {
                &&& log.len() > 0 && !(log[0] is Error)
                &&& fs.cfg.semantics != PermissionSemantics::LinuxSimplified ==> entry.attr.uid
                    == ctx.uid && entry.attr.gid == ctx.gid && entry.attr.mode == 0o120777
            },
            StepView::Fail(_, _) => true,
        },
{
    lemma_words();
    if let Ok(at) = fs.child_of(parent, Slot::Name) {
        let mode = Some(super::create::SYMLINK_MODE);
        lemma_dressing_is_harmless(fs, ctx, parent, labelled, at, true, None, log, 1);
        lemma_dressing_is_harmless(fs, ctx, parent, labelled, at, true, mode, log, 1);
    }
}

/// A link gives the host file of the inode the request's name in the directory
/// that the guest named, and nothing else. It succeeds only if the host made it.
pub proof fn link_names_the_inode(
    fs: FsView,
    ctx: Context,
    inode: u64,
    parent: u64,
    log: Seq<Reply>,
)
    ensures
        match linking(fs, ctx, inode, parent, log) {
            StepView::Call(CallView::Do(Call::HardLink { from, to })) => {
                &&& log.len() == 0
                &&& fs.inodes.contains_key(inode) && from == file_of(fs, inode)
                &&& fs.inodes.contains_key(parent) && to == name_in(fs, parent, Slot::Name)
            },
            StepView::Call(call) => !changes_names(call) && !changes_contents(call),
            StepView::Done(_, _) => log.len() > 0 && !(log[0] is Error),
            StepView::Fail(_, _) => true,
        },
{
    lemma_lookup_changes_nothing(fs, ctx, parent, Slot::Name, log, 1);
}

/// A special file is made under the request's name in the directory that the
/// guest named, and nothing else is: where its type is kept beside it by opening a
/// private file, in a sandbox a new one, and else as a special file of the host
/// with the request's mode without what the umask takes away. The request
/// succeeds only if the host made it.
pub proof fn mknod_makes_the_file(fs: FsView, ctx: Context, req: NodeRequest, log: Seq<Reply>)
    ensures
        match making_node(fs, ctx, req, log) {
            StepView::Call(CallView::Do(Call::MakeNode { at, mode, rdev })) => {
                &&& log.len() == 0
                &&& fs.inodes.contains_key(req.parent) && at == name_in(fs, req.parent, Slot::Name)
                &&& mode as int == low_half(req.mode & !req.umask)
                &&& rdev == req.rdev
                &&& fs.cfg.semantics == PermissionSemantics::LinuxSimplified
            },
            StepView::Call(CallView::Do(Call::BindSocket { at })) => {
                &&& log.len() == 0
                &&& fs.inodes.contains_key(req.parent) && at == name_in(fs, req.parent, Slot::Name)
                &&& low_half(req.mode) as u16 & 0o170000u16 == 0o140000
                &&& fs.cfg.semantics == PermissionSemantics::LinuxSimplified
            },
            StepView::Call(CallView::Do(Call::Open { at, flags, mode })) => flags & 0x200 != 0 ==> {
                &&& log.len() == 0
                &&& fs.inodes.contains_key(req.parent) && at == name_in(fs, req.parent, Slot::Name)
                &&& mode == 0o600
                &&& fs.cfg.semantics.sandboxed() ==> flags & 0x800 != 0
                &&& fs.cfg.semantics != PermissionSemantics::LinuxSimplified
            },
            StepView::Call(call) => !changes_names(call) && !changes_contents(call),
            StepView::Done(_, _) => log.len() > 0 && !(log[0] is Error),
            StepView::Fail(_, _) => true,
        },
{
    lemma_words();
    let owner = Some((ctx.uid, ctx.gid));
    if let Ok(at) = fs.child_of(req.parent, Slot::Name) {
        lemma_dressing_is_harmless(
            fs,
            ctx,
            req.parent,
            req.labelled,
            at,
            false,
            None,
            log,
            1,
        );
        if log.len() > 0 {
            if let Reply::Fd(fd) = log[0] {
                lemma_node_steps(fs, ctx, req, fd, log);
            }
        }
    }
}

/// What follows the opening of a special file's host file is harmless.
proof fn lemma_node_steps(fs: FsView, ctx: Context, req: NodeRequest, fd: i32, log: Seq<Reply>)
    requires
        log.len() > 0,
        log[0] == Reply::Fd(fd),
    ensures
        is_harmless(making_node_complete(fs, ctx, req, log)),
        is_harmless(making_node_sandbox(fs, ctx, req, log)),
{
    let owner = Some((ctx.uid, ctx.gid));
    let regular = Some(super::create::masked_regular(req.mode, req.umask));
    let mode = Some(req.mode & !req.umask);
    let semantics = fs.cfg.semantics;
    lemma_setting_keeps_contents(semantics, Node::Fd(fd), None, owner, regular, log, 1);
    if let StepView::Done(_, n) = crate::host::finally(
        setting(semantics, Node::Fd(fd), None, owner, regular, log, 1),
        Call::Close { fd },
        log,
    ) {
        lemma_lookup_changes_nothing(fs, ctx, req.parent, Slot::Name, log, n);
    }
    if let StepView::Done(_, n) = labelling_if(req.labelled, Node::Fd(fd), false, log, 1) {
        if let StepView::Done(_, m) = crate::host::finally(
            crate::override_stat::setting_override(Node::Fd(fd), None, owner, mode, log, n),
            Call::Close { fd },
            log,
        ) {
            lemma_lookup_changes_nothing(fs, ctx, req.parent, Slot::Name, log, m);
        }
    }
}

/// Creating a file of a sandbox opens the name, and nothing else.
proof fn lemma_creating_calls(at: Node, flags: u32, mode: u32, log: Seq<Reply>, pos: int)
    ensures
        match creating(at, flags, mode, log, pos) {
            StepView::Call(CallView::Do(Call::Open { at: n, flags: f, mode: m })) => {
                &&& n == at && m == mode
                &&& f == exclusive_flags(flags) || f == existing_flags(flags)
            },
            StepView::Call(_) => false,
            StepView::Done((fd, _), end) => 0 <= pos ==> pos < end <= log.len() && log[end - 1]
                == Reply::Fd(fd),
            StepView::Fail(_, _) => true,
        },
    decreases log.len() - pos,
{
    if pos + 1 < log.len() {
        lemma_creating_calls(at, flags, mode, log, pos + 2);
    }
}

proof fn lemma_outfitting_keeps_names(
    fs: FsView,
    ctx: Context,
    req: CreateRequest,
    fd: i32,
    created: bool,
    log: Seq<Reply>,
    pos: int,
)
    ensures
        match outfitting(fs, ctx, req, fd, created, log, pos) {
            StepView::Call(CallView::Do(Call::Truncate { fd: n, size })) => n == fd && size == 0
                && fs.cfg.semantics.sandboxed() && req.flags & 0x200 != 0,
            StepView::Call(CallView::Do(Call::Open { .. })) => false,
            StepView::Call(call) => !changes_names(call) && !changes_contents(call),
            _ => true,
        },
{
    let semantics = fs.cfg.semantics;
    let owner = Some((ctx.uid, ctx.gid));
    let mode = Some(req.guest_mode(semantics));
    crate::opening::flags_are_kept(req.flags);
    lemma_setting_stays(semantics, fd, owner, mode, log, pos);
    lemma_setting_keeps_contents(semantics, Node::Fd(fd), None, owner, mode, log, pos);
    if let StepView::Done(_, a) = adopting(semantics, ctx, req, fd, created, log, pos) {
        if let StepView::Done(_, b) = labelling_if(req.labelled, Node::Fd(fd), false, log, a) {
            if let PermissionSemantics::Sandbox(config) = semantics {
                metadata_changes_touch_only_the_record(
                    config,
                    Node::Fd(fd),
                    None,
                    content_change(req.kill_priv),
                    log,
                    b,
                );
            }
            if let StepView::Done(_, c) = cutting(semantics, req, fd, created, log, b) {
                lemma_stating_calls(ctx, semantics, Node::Fd(fd), log, c);
            }
        }
    }
}

/// The host's flags of an open that creates agree with the guest's: the access
/// mode, that nothing waits, that writes append, and that the file must be new.
pub open spec fn create_flags_agree(host: u32, guest: u32, sandboxed: bool) -> bool {
    &&& host & 3 == guest & 3
    &&& host & 4 != 0 <==> guest & 0x800 != 0
    &&& host & 8 != 0 <==> guest & 0x400 != 0
    &&& host & 0x400 != 0 <==> guest & 0x200 != 0 && !sandboxed
    &&& !sandboxed ==> (host & 0x800 != 0 <==> guest & 0x80 != 0) && host & 0x200 != 0
}

proof fn lemma_create_bits(g: u32)
    ensures
        ({
            let base: u32 = (g & !(0x200u32 | 0x800u32)) | 0x100_0000u32 | 0x100u32;
            let excl: u32 = base | 0x200u32 | 0x800u32;
            let plain: u32 = g | 0x200u32 | 0x100_0000u32 | 0x100u32;
            &&& base & 3 == g & 3 && excl & 3 == g & 3 && plain & 3 == g & 3
            &&& base & 4 == g & 4 && excl & 4 == g & 4 && plain & 4 == g & 4
            &&& base & 8 == g & 8 && excl & 8 == g & 8 && plain & 8 == g & 8
            &&& base & 0x400 == g & 0x400 && excl & 0x400 == g & 0x400 && plain & 0x400 == g & 0x400
            &&& plain & 0x800 == g & 0x800 && plain & 0x200 != 0
            &&& excl & 0xa00 == 0xa00 && base & 0xa00 == 0
            &&& base & 0x100 != 0 && excl & 0x100 != 0 && plain & 0x100 != 0
            &&& (g & !0x400u32) & 3 == g & 3 && (g & !0x400u32) & 4 == g & 4 && (g & !0x400u32) & 8
                == g & 8 && (g & !0x400u32) & 0x400 == 0 && (g & !0x400u32) & 0x800 == g & 0x800
        }),
{
    assert({
        let base: u32 = (g & !(0x200u32 | 0x800u32)) | 0x100_0000u32 | 0x100u32;
        let excl: u32 = base | 0x200u32 | 0x800u32;
        let plain: u32 = g | 0x200u32 | 0x100_0000u32 | 0x100u32;
        &&& base & 3 == g & 3 && excl & 3 == g & 3 && plain & 3 == g & 3
        &&& base & 4 == g & 4 && excl & 4 == g & 4 && plain & 4 == g & 4
        &&& base & 8 == g & 8 && excl & 8 == g & 8 && plain & 8 == g & 8
        &&& base & 0x400 == g & 0x400 && excl & 0x400 == g & 0x400 && plain & 0x400 == g & 0x400
        &&& plain & 0x800 == g & 0x800 && plain & 0x200 != 0
        &&& excl & 0xa00 == 0xa00 && base & 0xa00 == 0
        &&& base & 0x100 != 0 && excl & 0x100 != 0 && plain & 0x100 != 0
        &&& (g & !0x400u32) & 3 == g & 3 && (g & !0x400u32) & 4 == g & 4 && (g & !0x400u32) & 8 == g
            & 8 && (g & !0x400u32) & 0x400 == 0 && (g & !0x400u32) & 0x800 == g & 0x800
    }) by (bit_vector);
}

proof fn lemma_create_flags(flags: u32, sandboxed: bool)
    ensures
        ({
            let f = host_flags(flags);
            let g = if sandboxed && f & 0x400 != 0 {
                f & !0x400u32
            } else {
                f
            };
            &&& sandboxed ==> create_flags_agree(exclusive_flags(g), flags, true)
            &&& sandboxed ==> create_flags_agree(existing_flags(g), flags, true)
            &&& sandboxed ==> exclusive_flags(g) & 0xa00 == 0xa00 && existing_flags(g) & 0xa00 == 0
            &&& !sandboxed ==> create_flags_agree(f | 0x200 | 0x100_0000 | 0x100, flags, false)
            &&& sandboxed ==> (g & 0x800 != 0 <==> flags & 0x80 != 0)
        }),
{
    crate::opening::flags_are_kept(flags);
    let f = host_flags(flags);
    lemma_create_bits(f);
    lemma_create_bits(f & !0x400u32);
    let g = if sandboxed && f & 0x400 != 0 {
        f & !0x400u32
    } else {
        f
    };
    let x = exclusive_flags(g);
    let y = existing_flags(g);
    let z = f | 0x200 | 0x100_0000 | 0x100;
    assert(x & 3 == g & 3 && y & 3 == g & 3);
    assert(z & 3 == f & 3);
}

/// A file is created under the request's name in the directory that the guest
/// named, and no other name is made. It is opened with the guest's flags; its host
/// mode is private where the guest's is kept beside it, and else the request's
/// without what the umask takes away. A success is of the descriptor that the host
/// gave for that name.
pub proof fn create_makes_the_file(
    fs: FsView,
    ctx: Context,
    req: CreateRequest,
    log: Seq<Reply>,
)
    ensures
        match creating_file(fs, ctx, req, log) {
            StepView::Call(CallView::Do(Call::Open { at, flags, mode })) => {
                &&& fs.inodes.contains_key(req.parent) && at == name_in(fs, req.parent, Slot::Name)
                &&& create_flags_agree(flags, req.flags, fs.cfg.semantics.sandboxed())
                &&& mode == if fs.cfg.semantics == PermissionSemantics::LinuxSimplified {
                    req.mode & !(req.umask & 0o777)
                } else {
                    0o600
                }
            },
            StepView::Call(CallView::Do(Call::Truncate { size, .. })) => size == 0
                && fs.cfg.semantics.sandboxed() && req.flags & 0x200 != 0,
            StepView::Call(call) => !changes_names(call) && !changes_contents(call),
            StepView::Done((_, fd), _) => exists|k: int|
                0 <= k < log.len() && #[trigger] log[k] == Reply::Fd(fd),
            StepView::Fail(_, _) => true,
        },
{
    let semantics = fs.cfg.semantics;
    let sandboxed = semantics.sandboxed();
    crate::opening::flags_are_kept(req.flags);
    lemma_create_flags(req.flags, sandboxed);
    if let Ok(at) = fs.child_of(req.parent, Slot::Name) {
        lemma_creating_calls(at, req.open_flags(semantics), req.host_mode(semantics), log, 0);
        if let StepView::Done((fd, created), n) = opening_new(semantics, req, at, log) {
            lemma_outfitting_keeps_names(fs, ctx, req, fd, created, log, n);
            assert(log[n - 1] == Reply::Fd(fd));
        }
    }
}

/// The mode of a new file: a regular file's, with the permissions that were asked
/// for, but for those that the umask takes away.
pub open spec fn is_unmasked(m: u32, mode: u32, umask: u32) -> bool {
    &&& m & umask & 0o777 == 0
    &&& m & 0o777 == mode & 0o777 & !umask
    &&& m & 0o100000 != 0
    &&& mode & 0o70000 == 0 ==> m & 0o170000 == 0o100000
}

proof fn lemma_unmasked(mode: u32, umask: u32)
    ensures
        ({
            let m = 0o100000u32 | (mode & !(umask & 0o777));
            &&& is_unmasked(m, mode, umask)
            &&& m & 0o7000 == mode & 0o7000
            &&& is_unmasked(plain_mode(m), mode, umask)
            &&& plain_mode(m) & 0o4000 == 0
            &&& plain_mode(m) & 0o1000 == mode & 0o1000
            &&& plain_mode(m) & 0o010 != 0 ==> plain_mode(m) & 0o2000 == 0
        }),
{
    assert({
        let m: u32 = 0o100000u32 | (mode & !(umask & 0o777));
        let p: u32 = if m & 0o010 != 0 { m & !0o6000u32 } else { m & !0o4000u32 };
        &&& m & umask & 0o777 == 0
        &&& m & 0o777 == mode & 0o777 & !umask
        &&& m & 0o100000 != 0
        &&& (mode & 0o70000 == 0 ==> m & 0o170000 == 0o100000)
        &&& m & 0o7000 == mode & 0o7000
        &&& p & umask & 0o777 == 0
        &&& p & 0o777 == mode & 0o777 & !umask
        &&& p & 0o100000 != 0
        &&& (mode & 0o70000 == 0 ==> p & 0o170000 == 0o100000)
        &&& p & 0o4000 == 0
        &&& p & 0o1000 == mode & 0o1000
        &&& (p & 0o010 != 0 ==> p & 0o2000 == 0)
    }) by (bit_vector);
}

/// A new file under complete semantics is stored as the guest's own, with the mode
/// that it asked for and without what its umask takes away.
pub proof fn created_files_get_the_masked_mode(
    fs: FsView,
    ctx: Context,
    req: CreateRequest,
    fd: i32,
    st: Stat,
)
    requires
        fs.cfg.semantics == PermissionSemantics::LinuxComplete,
        fs.inodes.contains_key(req.parent),
        ctx.uid < 0xffff_fffe,
        ctx.gid < 0xffff_fffe,
    ensures
        exists|m: u32|
            #![trigger is_unmasked(m, req.mode, req.umask)]
            {
                &&& is_unmasked(m, req.mode, req.umask)
                &&& m & 0o7000 == req.mode & 0o7000
                &&& stores_override(
                    creating_file(fs, ctx, req, seq![Reply::Fd(fd), Reply::Stat(st)]),
                    Node::Fd(fd),
                    Override { uid: Some(ctx.uid), gid: Some(ctx.gid), mode: Some(m) },
                )
            },
{
    let log = seq![Reply::Fd(fd), Reply::Stat(st)];
    assert(log[0] == Reply::Fd(fd) && log[1] == Reply::Stat(st));
    let m = req.guest_mode(fs.cfg.semantics);
    lemma_unmasked(req.mode, req.umask);
    let o = Override { uid: Some(ctx.uid), gid: Some(ctx.gid), mode: Some(m) };
    override_round_trip(o);
    assert(is_unmasked(m, req.mode, req.umask));
    let owner = Some((ctx.uid, ctx.gid));
    let unset = Override { uid: None, gid: None, mode: None };
    assert(crate::override_stat::merged(unset, owner, Some(m)) == o);
    assert(adopting(fs.cfg.semantics, ctx, req, fd, true, log, 1) is Call);
}

/// Setting the owner and the mode of a file without a record stores a record.
proof fn lemma_native_setting(
    config: crate::config::SandboxConfig,
    at: Node,
    ctx: Context,
    mode: u32,
    log: Seq<Reply>,
    pos: int,
    st: Stat,
)
    requires
        config.xattrs_enabled,
        0 <= pos,
        log.len() == pos + 2,
        log[pos] == Reply::Stat(st),
        log[pos + 1] matches Reply::Error(error) && error.raw == 93,
        mode & 0o170000 == 0 || mode & 0o170000 == st.mode as u32 & 0o170000,
        ctx.uid != 0xffff_ffff,
        ctx.gid != 0xffff_ffff,
    ensures
        stores_record(
            setting(
                PermissionSemantics::Sandbox(config),
                at,
                None,
                Some((ctx.uid, ctx.gid)),
                Some(mode),
                log,
                pos,
            ),
            at,
            MetadataView {
                uid: ctx.uid,
                gid: ctx.gid,
                mode: (st.mode as u32 & 0o170000) | (mode & !0o170000u32),
                capability: None,
            },
        ),
{
    let old_mode = st.mode as u32;
    assert(((old_mode & 0o170000) | (mode & !0o170000u32)) & 0o170000 == old_mode & 0o170000)
        by (bit_vector);
    assert(crate::sandbox::reading(at, st, log, pos + 1) == StepView::<Option<MetadataView>>::Done(
        None,
        pos + 2,
    ));
}

/// A new file of a sandbox is recorded as the guest's own, with the mode that it
/// asked for, without what its umask takes away and without a capability; where it
/// is to be cut and stripped, without the bits that lend authority.
pub proof fn created_sandbox_files_get_the_masked_mode(
    fs: FsView,
    ctx: Context,
    req: CreateRequest,
    fd: i32,
    st: Stat,
    error: crate::host::HostError,
)
    requires
        fs.cfg.semantics is Sandbox,
        fs.cfg.semantics->Sandbox_0.xattrs_enabled,
        !req.labelled,
        fs.inodes.contains_key(req.parent),
        ctx.uid != 0xffff_ffff,
        ctx.gid != 0xffff_ffff,
        req.mode & 0o70000 == 0,
        st.mode as u32 & 0o170000 == 0o100000,
        error.raw == 93,
    ensures
        ({
            let log = seq![Reply::Fd(fd), Reply::Stat(st), Reply::Error(error)];
            exists|mode: u32|
                #![trigger is_unmasked(mode, req.mode, req.umask)]
                {
                    &&& is_unmasked(mode, req.mode, req.umask)
                    &&& if req.flags & 0x200 != 0 && req.kill_priv {
                        mode & 0o4000 == 0 && mode & 0o1000 == req.mode & 0o1000 && (mode & 0o010
                            != 0 ==> mode & 0o2000 == 0)
                    } else {
                        mode & 0o7000 == req.mode & 0o7000
                    }
                    &&& stores_record(
                        creating_file(fs, ctx, req, log),
                        Node::Fd(fd),
                        MetadataView { uid: ctx.uid, gid: ctx.gid, mode, capability: None },
                    )
                }
        }),
{
    let config = fs.cfg.semantics->Sandbox_0;
    let log = seq![Reply::Fd(fd), Reply::Stat(st), Reply::Error(error)];
    assert(log[0] == Reply::Fd(fd) && log[1] == Reply::Stat(st) && log[2] == Reply::Error(error));
    crate::opening::flags_are_kept(req.flags);
    lemma_unmasked(req.mode, req.umask);
    let asked = req.guest_mode(fs.cfg.semantics);
    let m = 0o100000u32 | (req.mode & !(req.umask & 0o777));
    super::attribute_laws::lemma_plain(m);
    let mode = (st.mode as u32 & 0o170000) | (asked & !0o170000u32);
    lemma_recorded_mode(asked);
    lemma_native_setting(config, Node::Fd(fd), ctx, asked, log, 1, st);
    assert(is_unmasked(mode, req.mode, req.umask));
    assert(adopting(fs.cfg.semantics, ctx, req, fd, true, log, 1) is Call);
    assert(opening_new(fs.cfg.semantics, req, name_in(fs, req.parent, Slot::Name), log)
        == StepView::Done((fd, true), 1));
}

/// Recording a regular file's mode keeps its bits.
proof fn lemma_recorded_mode(m: u32)
    requires
        m & 0o170000 == 0o100000,
    ensures
        0o100000u32 | (m & !0o170000u32) == m,
{
    assert(m & 0o170000 == 0o100000 ==> 0o100000u32 | (m & !0o170000u32) == m) by (bit_vector);
}

/// A mode without what a umask takes away, and with everything else.
pub open spec fn is_masked_by(m: u32, mode: u32, umask: u32) -> bool {
    m & umask == 0 && m | umask == mode | umask
}

proof fn lemma_masked_by(mode: u32, umask: u32)
    ensures
        is_masked_by(mode & !umask, mode, umask),
{
    assert((mode & !umask) & umask == 0 && (mode & !umask) | umask == mode | umask)
        by (bit_vector);
}

/// What is stored of something that was made under complete semantics: that it is
/// the guest's, and its mode.
pub open spec fn stores_own<T>(step: StepView<T>, at: Node, ctx: Context, mode: u32) -> bool {
    stores_override(
        step,
        at,
        Override { uid: Some(ctx.uid), gid: Some(ctx.gid), mode: Some(mode) },
    )
}

/// What is recorded of something that was made in a sandbox: that it is the
/// guest's, its type and its permissions, and no capability.
pub open spec fn records_own<T>(
    step: StepView<T>,
    at: Node,
    ctx: Context,
    kind: u32,
    mode: u32,
) -> bool {
    stores_record(
        step,
        at,
        MetadataView {
            uid: ctx.uid,
            gid: ctx.gid,
            mode: kind | (mode & !0o170000u32),
            capability: None,
        },
    )
}

proof fn lemma_complete_setting(
    at: Node,
    ctx: Context,
    mode: u32,
    log: Seq<Reply>,
    pos: int,
    st: Stat,
)
    requires
        0 <= pos,
        log.len() == pos + 1,
        log[pos] == Reply::Stat(st),
        ctx.uid < 0xffff_fffe,
        ctx.gid < 0xffff_fffe,
    ensures
        stores_own(
            crate::override_stat::setting_override(
                at,
                None,
                Some((ctx.uid, ctx.gid)),
                Some(mode),
                log,
                pos,
            ),
            at,
            ctx,
            mode,
        ),
{
    let o = Override { uid: Some(ctx.uid), gid: Some(ctx.gid), mode: Some(mode) };
    override_round_trip(o);
    let unset = Override { uid: None, gid: None, mode: None };
    assert(crate::override_stat::merged(unset, Some((ctx.uid, ctx.gid)), Some(mode)) == o);
}

/// A new directory, special file or symbolic link under complete semantics is
/// stored as the guest's own. A directory and a special file have the mode that
/// was asked for without what the umask takes away; a link has all permissions.
pub proof fn made_files_are_the_guests(
    fs: FsView,
    ctx: Context,
    req: NodeRequest,
    made: Reply,
    fd: i32,
    st: Stat,
)
    requires
        fs.cfg.semantics == PermissionSemantics::LinuxComplete,
        fs.inodes.contains_key(req.parent),
        !req.labelled,
        !(made is Error),
        ctx.uid < 0xffff_fffe,
        ctx.gid < 0xffff_fffe,
    ensures
        ({
            let name = name_in(fs, req.parent, Slot::Name);
            let log = seq![made, Reply::Stat(st)];
            let opened = seq![Reply::Fd(fd), Reply::Stat(st)];
            &&& exists|m: u32|
                #![trigger is_masked_by(m, req.mode, req.umask)]
                is_masked_by(m, req.mode, req.umask) && stores_own(
                    making_directory(fs, ctx, req, log),
                    name,
                    ctx,
                    m,
                ) && stores_own(making_node(fs, ctx, req, opened), Node::Fd(fd), ctx, m)
            &&& stores_own(
                making_symlink(fs, ctx, req.parent, false, log),
                name,
                ctx,
                0o120777,
            )
        }),
{
    let name = name_in(fs, req.parent, Slot::Name);
    let log = seq![made, Reply::Stat(st)];
    let opened = seq![Reply::Fd(fd), Reply::Stat(st)];
    assert(log[0] == made && log[1] == Reply::Stat(st));
    assert(opened[0] == Reply::Fd(fd) && opened[1] == Reply::Stat(st));
    lemma_words();
    let m = req.mode & !req.umask;
    lemma_masked_by(req.mode, req.umask);
    lemma_complete_setting(name, ctx, m, log, 1, st);
    lemma_complete_setting(name, ctx, 0o120777, log, 1, st);
    lemma_complete_setting(Node::Fd(fd), ctx, m, opened, 1, st);
    assert(is_masked_by(m, req.mode, req.umask));
}

/// The same in a sandbox, of what the host made as asked.
pub proof fn made_sandbox_files_are_the_guests(
    fs: FsView,
    ctx: Context,
    req: NodeRequest,
    made: Reply,
    fd: i32,
    st: Stat,
    error: crate::host::HostError,
)
    requires
        fs.cfg.semantics is Sandbox,
        fs.cfg.semantics->Sandbox_0.xattrs_enabled,
        fs.inodes.contains_key(req.parent),
        !req.labelled,
        !(made is Error),
        req.mode & 0o170000 == 0,
        ctx.uid != 0xffff_ffff,
        ctx.gid != 0xffff_ffff,
        error.raw == 93,
    ensures
        ({
            let name = name_in(fs, req.parent, Slot::Name);
            let log = seq![made, Reply::Stat(st), Reply::Error(error)];
            let opened = seq![Reply::Fd(fd), Reply::Stat(st), Reply::Error(error)];
            let kind = st.mode as u32 & 0o170000;
            &&& kind == 0o040000 ==> exists|m: u32|
                #![trigger is_masked_by(m, req.mode, req.umask)]
                is_masked_by(m, req.mode, req.umask) && records_own(
                    making_directory(fs, ctx, req, log),
                    name,
                    ctx,
                    kind,
                    m,
                )
            &&& kind == 0o100000 ==> exists|m: u32|
                #![trigger is_unmasked(m, req.mode, req.umask)]
                is_unmasked(m, req.mode, req.umask) && m & 0o7000 == req.mode & 0o7000
                    && records_own(making_node(fs, ctx, req, opened), Node::Fd(fd), ctx, kind, m)
            &&& kind == 0o120000 ==> records_own(
                making_symlink(fs, ctx, req.parent, false, log),
                name,
                ctx,
                kind,
                0o777,
            )
        }),
{
    let config = fs.cfg.semantics->Sandbox_0;
    let name = name_in(fs, req.parent, Slot::Name);
    let log = seq![made, Reply::Stat(st), Reply::Error(error)];
    let opened = seq![Reply::Fd(fd), Reply::Stat(st), Reply::Error(error)];
    assert(log[0] == made && log[1] == Reply::Stat(st) && log[2] == Reply::Error(error));
    assert(opened[0] == Reply::Fd(fd) && opened[1] == Reply::Stat(st) && opened[2] == Reply::Error(
        error,
    ));
    let kind = st.mode as u32 & 0o170000;
    let m = req.mode & !req.umask;
    let r = 0o100000u32 | (req.mode & !(req.umask & 0o777));
    let (mode, umask) = (req.mode, req.umask);
    assert(0o120000u32 | 0o777 == 0o120777 && 0o120777u32 & 0o170000 == 0o120000 && 0o120777u32
        & !0o170000u32 == 0o777u32 & !0o170000u32 && (mode & 0o170000 == 0 ==> (mode & !umask)
        & 0o170000 == 0) && (mode & 0o170000 == 0 ==> mode & 0o70000 == 0)) by (bit_vector);
    lemma_masked_by(req.mode, req.umask);
    lemma_unmasked(req.mode, req.umask);
    if kind == 0o040000 {
        lemma_native_setting(config, name, ctx, m, log, 1, st);
        assert(is_masked_by(m, req.mode, req.umask));
    }
    if kind == 0o100000 {
        lemma_native_setting(config, Node::Fd(fd), ctx, r, opened, 1, st);
        assert(is_unmasked(r, req.mode, req.umask));
    }
    if kind == 0o120000 {
        lemma_native_setting(config, name, ctx, 0o120777, log, 1, st);
    }
}

} // verus!
