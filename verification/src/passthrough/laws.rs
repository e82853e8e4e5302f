//! What holds of a served directory whatever the host replies.

use vstd::prelude::*;
use crate::abi::{
    ENOATTR, LINUX_EINVAL, LINUX_EOPNOTSUPP, LINUX_RENAME_EXCHANGE, LINUX_RENAME_WHITEOUT, O_TRUNC,
    S_IFDIR, S_IFLNK, S_IFMT, S_IFREG, S_ISGID, S_ISUID, S_IXGRP,
};
use crate::attributes::{relabelling, setting, stating, viewing};
use crate::config::{PermissionSemantics, SandboxConfig};
use crate::host::{
    bytes_of, count_of, fd_of, finally, stat_of, Attr, Call, CallView, Node, Reply, StepView,
};
use crate::inodes::{denotes, inode_of, same_file, well_numbered};
use crate::opening::{creating, host_flags};
use crate::override_stat::{
    overridden, override_of, override_round_trip, override_text, merged, setting_override, Override,
    UID_MAX,
};
use crate::sandbox::{
    changed, content_change, reading, reading_for, same_kind, settling, updating, with_mode,
    with_owner, writing, Change,
};
use crate::sandbox_metadata::{
    is_capability, native_metadata, record_of, record_round_trip, MetadataView,
};
use crate::stat::{clearing_privileges_is_final, host_bits, unprivileged, Context, Stat};
use super::create::{
    adopting, creating_file, cutting, dressing, labelling_if, making_directory, making_node,
    making_node_complete, making_node_sandbox, making_symlink, opening_new, outfitting,
    CreateRequest, NodeRequest,
};
use super::io::{opening_file, uncut, writing_file};
use super::rename::{grabbing_target, keeping, removing, renaming, unlinking, with_kept};
use super::setattr::{
    resizing, setattr_target, setting_attributes, setting_size, setting_times, touching,
    SetattrRequest,
};
use super::xattr::{fitting, storing_capability, InspectedView, XattrView};
use super::{looking_up, opening_inode, registered, FsView};

verus! {

/// A call of a metadata change: it looks at the file, or replaces its record.
pub open spec fn is_metadata_call(call: CallView, at: Node) -> bool {
    match call {
        CallView::Do(Call::Stat { at: n }) => n == at,
        CallView::Do(Call::AttrSize { at: n, attr, .. }) => n == at && attr == Attr::Record,
        CallView::Do(Call::GetAttr { at: n, attr, .. }) => n == at && attr == Attr::Record,
        CallView::Store { at: n, attr, .. } => n == at && attr == Attr::Record,
        _ => false,
    }
}

proof fn lemma_reading_calls(at: Node, st: Stat, log: Seq<Reply>, pos: int)
    ensures
        match reading(at, st, log, pos) {
            StepView::Call(CallView::Do(call)) => is_metadata_call(CallView::Do(call), at),
            StepView::Call(_) => false,
            _ => true,
        },
    decreases log.len() - pos,
{
    if pos + 1 < log.len() && count_of(log[pos]) is Ok {
        lemma_reading_calls(at, st, log, pos + 2);
    }
}

/// A metadata change touches nothing but the file's record.
pub proof fn metadata_changes_touch_only_the_record(
    config: SandboxConfig,
    at: Node,
    given: Option<Stat>,
    change: Change,
    log: Seq<Reply>,
    pos: int,
)
    ensures
        match updating(config, at, given, change, log, pos) {
            StepView::Call(call) => is_metadata_call(call, at),
            _ => true,
        },
{
    if pos < log.len() && stat_of(log[pos]) is Ok {
        let host = stat_of(log[pos])->Ok_0;
        let st = match given {
            Some(st) => st,
            None => host,
        };
        lemma_reading_calls(at, st, log, pos + 1);
    }
}

/// Only the host's word that the attribute does not exist makes a file native.
pub proof fn only_absence_is_native(at: Node, st: Stat, log: Seq<Reply>, pos: int)
    requires
        0 <= pos,
    ensures
        match reading(at, st, log, pos) {
            StepView::Done(None, next) => {
                &&& pos < next <= log.len()
                &&& log[next - 1] matches Reply::Error(error) && error.raw == ENOATTR
            },
            _ => true,
        },
    decreases log.len() - pos,
{
    if pos + 1 < log.len() && count_of(log[pos]) is Ok {
        only_absence_is_native(at, st, log, pos + 2);
    }
}

/// Bytes that are no record of the file's type are an error: the file is not
/// taken for a native one.
pub proof fn malformed_records_are_errors(
    config: SandboxConfig,
    at: Node,
    st: Stat,
    log: Seq<Reply>,
    pos: int,
)
    requires
        0 <= pos,
        pos + 1 < log.len(),
        count_of(log[pos]) is Ok,
        bytes_of(log[pos + 1]) is Ok,
        match record_of(bytes_of(log[pos + 1])->Ok_0) {
            Some(m) => !same_kind(m, st),
            None => true,
        },
    ensures
        reading(at, st, log, pos) == StepView::<Option<MetadataView>>::Fail(LINUX_EINVAL, pos + 2),
        reading_for(config, at, st, log, pos) == StepView::<Option<MetadataView>>::Fail(
            LINUX_EINVAL,
            pos + 2,
        ),
{
}

/// Where the volume has attributes, or has said nothing of lacking them, a
/// failed read of the record is a failure.
pub proof fn unreadable_records_are_errors(
    config: SandboxConfig,
    at: Node,
    st: Stat,
    log: Seq<Reply>,
    pos: int,
)
    ensures
        match reading(at, st, log, pos) {
            StepView::Fail(error, next) => config.xattrs_enabled || error != LINUX_EOPNOTSUPP
                ==> reading_for(config, at, st, log, pos) == StepView::<
                Option<MetadataView>,
            >::Fail(error, next),
            step => reading_for(config, at, st, log, pos) == step,
        },
{
}

/// What was written as a file's record is read back from it.
pub proof fn written_record_is_read_back(
    at: Node,
    st: Stat,
    m: MetadataView,
    stored: Seq<Reply>,
    log: Seq<Reply>,
    pos: int,
)
    requires
        m.valid(),
        0 <= pos,
        pos + 1 < log.len(),
        count_of(log[pos]) is Ok,
        writing(at, st, m, stored, stored.len() as int) is Call,
        bytes_of(log[pos + 1]) == Ok::<Seq<u8>, crate::host::HostError>(
            writing(at, st, m, stored, stored.len() as int)->Call_0->Store_value,
        ),
    ensures
        reading(at, st, log, pos) == StepView::Done(Some(m), pos + 2),
{
    record_round_trip(m);
}

/// A volume without attributes fails closed: a native file gets no record, a
/// change that needs none succeeds, and every other is refused.
pub proof fn native_only_fails_closed(
    config: SandboxConfig,
    at: Node,
    st: Stat,
    change: Change,
    log: Seq<Reply>,
    pos: int,
)
    requires
        !config.xattrs_enabled,
    ensures
        ({
            let original = native_metadata(config.identity, st.uid, st.gid, st.full_mode());
            settling(config, at, st, None, change, log, pos) == match changed(original, change) {
                None => StepView::<()>::Fail(LINUX_EINVAL, pos),
                Some(m) => if m == original {
                    StepView::Done((), pos)
                } else {
                    StepView::Fail(LINUX_EOPNOTSUPP, pos)
                },
            }
        }),
{
}

/// A change that can be stored leads from metadata that a record can hold to
/// metadata that a record can hold.
pub proof fn changes_keep_metadata_valid(m: MetadataView, change: Change)
    requires
        m.valid(),
        match change.mode {
            Some(mode) => mode & !(S_IFMT | 0o7777) == 0,
            None => true,
        },
    ensures
        match changed(m, change) {
            Some(n) => n.valid() && n.mode & S_IFMT == m.mode & S_IFMT,
            None => true,
        },
{
    let old_mode = m.mode;
    match change.mode {
        Some(mode) => {
            let merged = (old_mode & S_IFMT) | (mode & !S_IFMT);
            assert(((old_mode & 0o170000) | (mode & !0o170000u32)) & 0o170000 == old_mode
                & 0o170000) by (bit_vector);
            assert(mode & !(0o170000u32 | 0o7777) == 0 ==> ((old_mode & 0o170000) | (mode
                & !0o170000u32)) & !(0o170000u32 | 0o7777) == 0) by (bit_vector);
            lemma_unprivileged_stored(merged);
        },
        None => {
            lemma_unprivileged_stored(old_mode);
        },
    }
}

proof fn lemma_unprivileged_stored(mode: u32)
    requires
        mode & !(S_IFMT | 0o7777) == 0,
    ensures
        unprivileged(mode) & !(S_IFMT | 0o7777) == 0,
        unprivileged(mode) & S_IFMT == mode & S_IFMT,
{
    assert(mode & !(0o170000u32 | 0o7777) == 0 ==> {
        let m: u32 = if mode & 0o010 != 0 { mode & !0o4000 & !0o2000 } else { mode & !0o4000 };
        m & !(0o170000u32 | 0o7777) == 0 && m & 0o170000 == mode & 0o170000
    }) by (bit_vector);
}

/// A native file of a served type has metadata that a record can hold.
pub proof fn native_metadata_is_valid(config: SandboxConfig, st: Stat)
    requires
        config.identity.guest_uid != u32::MAX,
        config.identity.guest_gid != u32::MAX,
        st.kind() == S_IFREG || st.kind() == S_IFDIR || st.kind() == S_IFLNK,
    ensures
        native_metadata(config.identity, st.uid, st.gid, st.full_mode()).valid(),
{
    let mode = st.mode;
    assert((mode as u32) & !(0o170000u32 | 0o7777) == 0) by (bit_vector);
}

/// The one record that a request to set attributes writes: a new owner comes
/// without a capability, and without the mode bits that would lend its
/// authority.
pub proof fn new_owner_never_gets_old_privileges(
    fs: FsView,
    ctx: Context,
    req: SetattrRequest,
    log: Seq<Reply>,
)
    requires
        fs.cfg.semantics.sandboxed(),
        req.owner() is Some,
    ensures
        match setting_attributes(fs, ctx, req, log) {
            StepView::Call(CallView::Store { at, attr, value, .. }) => {
                &&& attr == Attr::Record
                &&& setattr_target(fs, req) == Ok::<Node, i32>(at)
                &&& exists|m: MetadataView|
                    {
                        &&& value == #[trigger] m.text()
                        &&& m.capability is None
                        &&& m.mode & S_ISUID == 0
                        &&& (m.mode & S_IXGRP != 0 ==> m.mode & S_ISGID == 0)
                        &&& (req.owner()->Some_0.0 != u32::MAX ==> m.uid == req.owner()->Some_0.0)
                        &&& (req.owner()->Some_0.1 != u32::MAX ==> m.gid == req.owner()->Some_0.1)
                    }
            },
            _ => true,
        },
{
    if let Ok(at) = setattr_target(fs, req) {
        let config = fs.cfg.semantics->Sandbox_0;
        let change = req.record_change();
        lemma_update_store(config, at, change, log, 0);
        match updating(config, at, None, change, log, 0) {
            StepView::Done(_, next) => {
                lemma_no_store_after_update(fs, ctx, req, at, log, next);
            },
            StepView::Call(CallView::Store { value, .. }) => {
                let original = choose|original: MetadataView|
                    (#[trigger] changed(original, change)) is Some && value == changed(
                        original,
                        change,
                    )->Some_0.text();
                let m = changed(original, change)->Some_0;
                let owned = with_owner(original, change.owner);
                let n = with_mode(owned, change.mode)->Some_0;
                clearing_privileges_is_final(n.mode);
                lemma_group_bit_stays(n.mode);
                assert(value == m.text());
            },
            _ => {},
        }
    }
}

proof fn lemma_group_bit_stays(mode: u32)
    ensures
        unprivileged(mode) & S_IXGRP == mode & S_IXGRP,
{
    assert({
        let m: u32 = if mode & 0o010 != 0 { mode & !0o4000 & !0o2000 } else { mode & !0o4000 };
        m & 0o010 == mode & 0o010
    }) by (bit_vector);
}

/// The record that a change writes is the changed metadata of the file.
proof fn lemma_update_store(
    config: SandboxConfig,
    at: Node,
    change: Change,
    log: Seq<Reply>,
    pos: int,
)
    ensures
        match updating(config, at, None, change, log, pos) {
            StepView::Call(CallView::Store { at: n, attr, value, .. }) => {
                &&& n == at
                &&& attr == Attr::Record
                &&& exists|original: MetadataView|
                    (#[trigger] changed(original, change)) is Some && value == changed(
                        original,
                        change,
                    )->Some_0.text()
            },
            _ => true,
        },
{
    if pos < log.len() && stat_of(log[pos]) is Ok {
        let st = stat_of(log[pos])->Ok_0;
        lemma_reading_calls(at, st, log, pos + 1);
        if let StepView::Done(existing, next) = reading_for(config, at, st, log, pos + 1) {
            let original = match existing {
                Some(m) => m,
                None => native_metadata(config.identity, st.uid, st.gid, st.full_mode()),
            };
            assert(changed(original, change) is Some || changed(original, change) is None);
        }
    }
}

/// Looking at a file stores nothing.
pub(crate) proof fn lemma_viewing_calls(
    ctx: Context,
    semantics: PermissionSemantics,
    at: Node,
    log: Seq<Reply>,
    pos: int,
)
    ensures
        match viewing(ctx, semantics, at, log, pos) {
            StepView::Call(call) => is_look(call),
            _ => true,
        },
        match stating(ctx, semantics, at, log, pos) {
            StepView::Call(call) => is_look(call),
            _ => true,
        },
{
    lemma_stating_calls(ctx, semantics, at, log, pos);
    if pos < log.len() && fd_of(log[pos]) is Ok {
        lemma_stating_calls(ctx, semantics, Node::Fd(fd_of(log[pos])->Ok_0), log, pos + 1);
    }
}

pub(crate) proof fn lemma_stating_calls(
    ctx: Context,
    semantics: PermissionSemantics,
    at: Node,
    log: Seq<Reply>,
    pos: int,
)
    ensures
        match stating(ctx, semantics, at, log, pos) {
            StepView::Call(call) => is_look_at(call, at),
            _ => true,
        },
{
    if pos < log.len() && stat_of(log[pos]) is Ok {
        lemma_reading_calls(at, stat_of(log[pos])->Ok_0, log, pos + 1);
    }
}

/// A call that looks at a file under this address.
pub open spec fn is_look_at(call: CallView, at: Node) -> bool {
    match call {
        CallView::Do(Call::Stat { at: n }) => n == at,
        CallView::Do(Call::AttrSize { at: n, .. }) => n == at,
        CallView::Do(Call::GetAttr { at: n, .. }) => n == at,
        _ => false,
    }
}

/// A call that changes nothing.
pub open spec fn is_look(call: CallView) -> bool {
    match call {
        CallView::Do(Call::Stat { .. }) => true,
        CallView::Do(Call::AttrSize { .. }) => true,
        CallView::Do(Call::GetAttr { .. }) => true,
        CallView::Do(Call::Open { flags, .. }) => flags
            == crate::attributes::SANDBOX_STAT_OPEN_FLAGS,
        CallView::Do(Call::Close { .. }) => true,
        _ => false,
    }
}

/// What a sandbox sees of a path is all of one file: the path is resolved once,
/// and the attributes and the record are those of the open file.
pub proof fn sandbox_looks_at_one_file(
    ctx: Context,
    semantics: PermissionSemantics,
    at: Node,
    log: Seq<Reply>,
)
    requires
        semantics.sandboxed(),
        !(at is Fd),
    ensures
        match viewing(ctx, semantics, at, log, 0) {
            StepView::Call(call) => if log.len() == 0 {
                call == CallView::Do(
                    Call::Open {
                        at,
                        flags: crate::attributes::SANDBOX_STAT_OPEN_FLAGS,
                        mode: 0,
                    },
                )
            } else {
                fd_of(log[0]) is Ok && ({
                    let fd = fd_of(log[0])->Ok_0;
                    is_look_at(call, Node::Fd(fd)) || call == CallView::Do(Call::Close { fd })
                })
            },
            _ => true,
        },
{
    if log.len() > 0 && fd_of(log[0]) is Ok {
        lemma_stating_calls(ctx, semantics, Node::Fd(fd_of(log[0])->Ok_0), log, 1);
    }
}

/// Once the record of a sandbox file was replaced, the rest of a request to set
/// attributes stores nothing more.
proof fn lemma_no_store_after_update(
    fs: FsView,
    ctx: Context,
    req: SetattrRequest,
    at: Node,
    log: Seq<Reply>,
    pos: int,
)
    requires
        fs.cfg.semantics.sandboxed(),
    ensures
        !(setting_size(fs, ctx, req, at, log, pos) matches StepView::Call(
            CallView::Store { .. },
        )),
{
    lemma_times_calls(fs, ctx, req, at, log, pos);
    if let StepView::Done(_, next) = resizing(fs, ctx, req.inode, req.attr.size, at, log, pos) {
        lemma_times_calls(fs, ctx, req, at, log, next);
    }
}

proof fn lemma_times_calls(
    fs: FsView,
    ctx: Context,
    req: SetattrRequest,
    at: Node,
    log: Seq<Reply>,
    pos: int,
)
    ensures
        match setting_times(fs, ctx, req, at, log, pos) {
            StepView::Call(CallView::Store { .. }) => false,
            StepView::Call(CallView::Do(Call::Truncate { .. })) => false,
            _ => true,
        },
{
    if let Ok(node) = fs.node_of(req.inode, true) {
        lemma_viewing_calls(ctx, fs.cfg.semantics, node, log, pos);
        if let StepView::Done(_, next) = touching(at, req, log, pos) {
            lemma_viewing_calls(ctx, fs.cfg.semantics, node, log, next);
        }
    }
}

/// A request to set attributes replaces the record of a sandbox file at most
/// once: after the change was made nothing more is stored.
pub proof fn record_is_replaced_once(
    fs: FsView,
    ctx: Context,
    req: SetattrRequest,
    at: Node,
    log: Seq<Reply>,
)
    requires
        fs.cfg.semantics.sandboxed(),
        setattr_target(fs, req) == Ok::<Node, i32>(at),
        updating(fs.cfg.semantics->Sandbox_0, at, None, req.record_change(), log, 0) is Done,
    ensures
        !(setting_attributes(fs, ctx, req, log) matches StepView::Call(CallView::Store { .. })),
{
    let config = fs.cfg.semantics->Sandbox_0;
    let update = updating(config, at, None, req.record_change(), log, 0);
    let next = if req.changes_record() {
        update->Done_1
    } else {
        0
    };
    lemma_no_store_after_update(fs, ctx, req, at, log, next);
}

/// A sandbox cuts a file only once its record lost the capability.
pub proof fn sandbox_resizes_after_metadata(
    fs: FsView,
    ctx: Context,
    req: SetattrRequest,
    log: Seq<Reply>,
)
    requires
        fs.cfg.semantics.sandboxed(),
        setting_attributes(fs, ctx, req, log) matches StepView::Call(
            CallView::Do(Call::Truncate { .. }),
        ),
    ensures
        req.record_change().clear_capability,
        updating(
            fs.cfg.semantics->Sandbox_0,
            setattr_target(fs, req)->Ok_0,
            None,
            req.record_change(),
            log,
            0,
        ) is Done,
{
    let at = setattr_target(fs, req)->Ok_0;
    let config = fs.cfg.semantics->Sandbox_0;
    metadata_changes_touch_only_the_record(config, at, None, req.record_change(), log, 0);
    lemma_times_calls(fs, ctx, req, at, log, 0);
    if let StepView::Done(_, next) = updating(config, at, None, req.record_change(), log, 0) {
        lemma_times_calls(fs, ctx, req, at, log, next);
    }
}

/// A sandbox writes contents only once the file's record lost its capability; a
/// failure to change the record is the answer, and nothing is written.
pub proof fn sandbox_writes_after_metadata(
    fs: FsView,
    ctx: Context,
    fd: i32,
    size: u32,
    offset: u64,
    kill_priv: bool,
    log: Seq<Reply>,
)
    requires
        fs.cfg.semantics.sandboxed(),
    ensures
        ({
            let config = fs.cfg.semantics->Sandbox_0;
            let change = content_change(kill_priv);
            let update = updating(config, Node::Fd(fd), None, change, log, 0);
            &&& change.clear_capability
            &&& writing_file(fs, ctx, fd, size, offset, kill_priv, log) matches StepView::Call(
                CallView::Do(Call::Write { .. }),
            ) ==> update is Done
            &&& update matches StepView::Fail(error, next) ==> writing_file(
                fs,
                ctx,
                fd,
                size,
                offset,
                kill_priv,
                log,
            ) == StepView::<u64>::Fail(error, next)
        }),
{
    metadata_changes_touch_only_the_record(
        fs.cfg.semantics->Sandbox_0,
        Node::Fd(fd),
        None,
        content_change(kill_priv),
        log,
        0,
    );
}

/// A sandbox never lets the host cut a file at its opening: the file is opened
/// as it is, and emptied only once its record was changed.
pub proof fn sandbox_opens_before_cutting(
    fs: FsView,
    ctx: Context,
    inode: u64,
    kill_priv: bool,
    flags: u32,
    log: Seq<Reply>,
)
    requires
        fs.cfg.semantics.sandboxed(),
    ensures
        uncut(fs.cfg.semantics, host_flags(flags)) & O_TRUNC == 0,
        opening_file(fs, ctx, inode, kill_priv, flags, log) matches StepView::Call(
            CallView::Do(Call::Truncate { fd, size }),
        ) ==> size == 0 && opening_inode(
            fs,
            inode,
            uncut(fs.cfg.semantics, host_flags(flags)),
            log,
            0,
        ) == StepView::Done(fd, 1) && updating(
            fs.cfg.semantics->Sandbox_0,
            Node::Fd(fd),
            None,
            content_change(kill_priv),
            log,
            1,
        ) is Done,
{
    let parsed = host_flags(flags);
    assert((parsed & !0x400u32) & 0x400 == 0) by (bit_vector);
    let config = fs.cfg.semantics->Sandbox_0;
    if let StepView::Done(fd, next) = opening_inode(
        fs,
        inode,
        uncut(fs.cfg.semantics, parsed),
        log,
        0,
    ) {
        metadata_changes_touch_only_the_record(
            config,
            Node::Fd(fd),
            None,
            content_change(kill_priv),
            log,
            next,
        );
    }
}

/// A sandbox refuses security contexts, and whiteouts, before it makes any call.
/// A whiteout of an exchange is refused in any case.
pub proof fn sandbox_refuses_labels(
    fs: FsView,
    ctx: Context,
    file: CreateRequest,
    node: NodeRequest,
    parent: u64,
    newdir: u64,
    flags: u32,
    log: Seq<Reply>,
)
    requires
        fs.cfg.semantics.sandboxed(),
        file.labelled,
        node.labelled,
    ensures
        creating_file(fs, ctx, file, log) == StepView::<(super::Entry, i32)>::Fail(
            LINUX_EOPNOTSUPP,
            0,
        ),
        making_directory(fs, ctx, node, log) == StepView::<super::Entry>::Fail(LINUX_EOPNOTSUPP, 0),
        making_node(fs, ctx, node, log) == StepView::<super::Entry>::Fail(LINUX_EOPNOTSUPP, 0),
        making_symlink(fs, ctx, parent, true, log) == StepView::<super::Entry>::Fail(
            LINUX_EOPNOTSUPP,
            0,
        ),
        flags & LINUX_RENAME_WHITEOUT != 0 ==> renaming(fs, ctx, parent, newdir, flags, log).step
            == StepView::<()>::Fail(
            if flags & LINUX_RENAME_EXCHANGE != 0 {
                LINUX_EINVAL
            } else {
                LINUX_EOPNOTSUPP
            },
            0,
        ),
{
}

/// A call that takes a name away.
pub open spec fn is_removal(call: CallView) -> bool {
    call matches CallView::Do(Call::Unlink { .. })
}

/// A step that takes no name away.
pub open spec fn removes_nothing<T>(step: StepView<T>) -> bool {
    match step {
        StepView::Call(call) => !is_removal(call),
        _ => true,
    }
}

pub(crate) proof fn lemma_setting_removes_nothing(
    semantics: PermissionSemantics,
    at: Node,
    given: Option<Stat>,
    owner: Option<(u32, u32)>,
    mode: Option<u32>,
    log: Seq<Reply>,
    pos: int,
)
    ensures
        removes_nothing(setting(semantics, at, given, owner, mode, log, pos)),
{
    if let PermissionSemantics::Sandbox(config) = semantics {
        metadata_changes_touch_only_the_record(
            config,
            at,
            given,
            crate::sandbox::stat_change(owner, mode),
            log,
            pos,
        );
    }
}

proof fn lemma_looking_up_removes_nothing(
    fs: FsView,
    ctx: Context,
    parent: u64,
    log: Seq<Reply>,
    pos: int,
)
    ensures
        removes_nothing(looking_up(fs, ctx, parent, crate::host::Slot::Name, log, pos)),
{
    if let Ok(at) = fs.child_of(parent, crate::host::Slot::Name) {
        lemma_viewing_calls(ctx, fs.cfg.semantics, at, log, pos);
    }
}

proof fn lemma_creating_removes_nothing(at: Node, flags: u32, mode: u32, log: Seq<Reply>, pos: int)
    ensures
        removes_nothing(creating(at, flags, mode, log, pos)),
    decreases log.len() - pos,
{
    if pos + 1 < log.len() {
        lemma_creating_removes_nothing(at, flags, mode, log, pos + 2);
    }
}

proof fn lemma_dressing_removes_nothing(
    fs: FsView,
    ctx: Context,
    parent: u64,
    labelled: bool,
    at: Node,
    symlink: bool,
    mode: Option<u32>,
    log: Seq<Reply>,
    pos: int,
)
    ensures
        removes_nothing(dressing(fs, ctx, parent, labelled, at, symlink, mode, log, pos)),
{
    if let StepView::Done(_, next) = labelling_if(labelled, at, symlink, log, pos) {
        let owner = Some((ctx.uid, ctx.gid));
        lemma_setting_removes_nothing(fs.cfg.semantics, at, None, owner, mode, log, next);
        lemma_looking_up_removes_nothing(fs, ctx, parent, log, next);
        if let StepView::Done(_, last) = setting(
            fs.cfg.semantics,
            at,
            None,
            owner,
            mode,
            log,
            next,
        ) {
            lemma_looking_up_removes_nothing(fs, ctx, parent, log, last);
        }
    }
}

proof fn lemma_outfitting_removes_nothing(
    fs: FsView,
    ctx: Context,
    req: CreateRequest,
    fd: i32,
    created: bool,
    log: Seq<Reply>,
    pos: int,
)
    ensures
        removes_nothing(outfitting(fs, ctx, req, fd, created, log, pos)),
{
    let semantics = fs.cfg.semantics;
    let owner = Some((ctx.uid, ctx.gid));
    let mode = Some(req.guest_mode(semantics));
    lemma_setting_removes_nothing(semantics, Node::Fd(fd), None, owner, mode, log, pos);
    if let StepView::Done(_, a) = adopting(semantics, ctx, req, fd, created, log, pos) {
        if let StepView::Done(_, b) = labelling_if(req.labelled, Node::Fd(fd), false, log, a) {
            if let PermissionSemantics::Sandbox(config) = semantics {
                metadata_changes_touch_only_the_record(
                    config,
                    Node::Fd(fd),
                    None,
                    content_change(req.kill_priv),
                    log,
                    b,
                );
            }
            if let StepView::Done(_, c) = cutting(semantics, req, fd, created, log, b) {
                lemma_viewing_calls(ctx, semantics, Node::Fd(fd), log, c);
            }
        }
    }
}

/// Whatever fails while a file, a directory, a special file or a link is made,
/// no name is taken away: by then it may lead to something else.
pub proof fn creation_removes_nothing(
    fs: FsView,
    ctx: Context,
    file: CreateRequest,
    node: NodeRequest,
    parent: u64,
    labelled: bool,
    log: Seq<Reply>,
)
    ensures
        removes_nothing(creating_file(fs, ctx, file, log)),
        removes_nothing(making_directory(fs, ctx, node, log)),
        removes_nothing(making_node(fs, ctx, node, log)),
        removes_nothing(making_symlink(fs, ctx, parent, labelled, log)),
{
    let semantics = fs.cfg.semantics;
    if let Ok(at) = fs.child_of(file.parent, crate::host::Slot::Name) {
        lemma_creating_removes_nothing(
            at,
            file.open_flags(semantics),
            file.host_mode(semantics),
            log,
            0,
        );
        if let StepView::Done((fd, created), next) = opening_new(semantics, file, at, log) {
            lemma_outfitting_removes_nothing(fs, ctx, file, fd, created, log, next);
        }
    }
    if let Ok(at) = fs.child_of(node.parent, crate::host::Slot::Name) {
        let mode = node.mode & !node.umask;
        lemma_dressing_removes_nothing(
            fs,
            ctx,
            node.parent,
            node.labelled,
            at,
            false,
            Some(mode),
            log,
            1,
        );
        lemma_dressing_removes_nothing(
            fs,
            ctx,
            node.parent,
            node.labelled,
            at,
            false,
            None,
            log,
            1,
        );
        lemma_making_node_removes_nothing(fs, ctx, node, at, log);
    }
    if let Ok(at) = fs.child_of(parent, crate::host::Slot::Name) {
        let mode = Some(super::create::SYMLINK_MODE);
        lemma_dressing_removes_nothing(fs, ctx, parent, labelled, at, true, mode, log, 1);
        lemma_dressing_removes_nothing(fs, ctx, parent, labelled, at, true, None, log, 1);
    }
}

proof fn lemma_making_node_removes_nothing(
    fs: FsView,
    ctx: Context,
    req: NodeRequest,
    at: Node,
    log: Seq<Reply>,
)
    requires
        fs.child_of(req.parent, crate::host::Slot::Name) == Ok::<Node, i32>(at),
    ensures
        removes_nothing(making_node_complete(fs, ctx, req, log)),
        removes_nothing(making_node_sandbox(fs, ctx, req, log)),
{
    let owner = Some((ctx.uid, ctx.gid));
    if log.len() > 0 && fd_of(log[0]) is Ok {
        let fd = fd_of(log[0])->Ok_0;
        let regular = Some(super::create::masked_regular(req.mode, req.umask));
        let mode = Some(req.mode & !req.umask);
        lemma_setting_removes_nothing(fs.cfg.semantics, Node::Fd(fd), None, owner, regular, log, 1);
        if let StepView::Done(_, next) = finally(
            setting(fs.cfg.semantics, Node::Fd(fd), None, owner, regular, log, 1),
            Call::Close { fd },
            log,
        ) {
            lemma_looking_up_removes_nothing(fs, ctx, req.parent, log, next);
        }
        if let StepView::Done(_, next) = labelling_if(req.labelled, Node::Fd(fd), false, log, 1) {
            if let StepView::Done(_, last) = finally(
                setting_override(Node::Fd(fd), None, owner, mode, log, next),
                Call::Close { fd },
                log,
            ) {
                lemma_looking_up_removes_nothing(fs, ctx, req.parent, log, last);
            }
        }
    }
}

/// A call on an open file, whatever its name leads to.
pub open spec fn is_on_descriptor(call: CallView, fd: i32) -> bool {
    match call {
        CallView::Do(Call::Stat { at }) => at == Node::Fd(fd),
        CallView::Do(Call::AttrSize { at, .. }) => at == Node::Fd(fd),
        CallView::Do(Call::GetAttr { at, .. }) => at == Node::Fd(fd),
        CallView::Do(Call::SetAttr { at, .. }) => at == Node::Fd(fd),
        CallView::Do(Call::RemoveAttr { at, .. }) => at == Node::Fd(fd),
        CallView::Do(Call::Chmod { at, .. }) => at == Node::Fd(fd),
        CallView::Do(Call::Truncate { fd: n, .. }) => n == fd,
        CallView::Do(Call::Close { fd: n }) => n == fd,
        CallView::Do(Call::AllocateInode) => true,
        CallView::Store { at, .. } => at == Node::Fd(fd),
        _ => false,
    }
}

/// A file that was created, or opened instead, is worked on through its
/// descriptor alone: what is stored, and what the guest is told, is of the file
/// that it gets a handle of, though its name may lead elsewhere by then.
pub proof fn created_files_are_known_by_descriptor(
    fs: FsView,
    ctx: Context,
    req: CreateRequest,
    at: Node,
    log: Seq<Reply>,
)
    requires
        fs.child_of(req.parent, crate::host::Slot::Name) == Ok::<Node, i32>(at),
        opening_new(fs.cfg.semantics, req, at, log) is Done,
    ensures
        match creating_file(fs, ctx, req, log) {
            StepView::Call(call) => is_on_descriptor(
                call,
                opening_new(fs.cfg.semantics, req, at, log)->Done_0.0,
            ),
            StepView::Done((_, fd), _) => fd == opening_new(
                fs.cfg.semantics,
                req,
                at,
                log,
            )->Done_0.0,
            StepView::Fail(_, _) => true,
        },
{
    let semantics = fs.cfg.semantics;
    let ((fd, created), pos) = match opening_new(semantics, req, at, log) {
        StepView::Done(opened, pos) => (opened, pos),
        _ => ((0, false), 0),
    };
    let node = Node::Fd(fd);
    let owner = Some((ctx.uid, ctx.gid));
    let mode = Some(req.guest_mode(semantics));
    lemma_setting_stays(semantics, fd, owner, mode, log, pos);
    if let StepView::Done(_, a) = adopting(semantics, ctx, req, fd, created, log, pos) {
        if let StepView::Done(_, b) = labelling_if(req.labelled, node, false, log, a) {
            if let PermissionSemantics::Sandbox(config) = semantics {
                metadata_changes_touch_only_the_record(
                    config,
                    node,
                    None,
                    content_change(req.kill_priv),
                    log,
                    b,
                );
            }
            if let StepView::Done(_, c) = cutting(semantics, req, fd, created, log, b) {
                lemma_stating_calls(ctx, semantics, node, log, c);
            }
        }
    }
}

/// A sandbox that is asked to create a file that is there opens it as it is: the
/// host is not asked to cut it, it is emptied only once its record was changed,
/// and without a request to cut it nothing is stored beside it.
pub proof fn existing_files_are_opened_as_they_are(
    fs: FsView,
    ctx: Context,
    req: CreateRequest,
    at: Node,
    log: Seq<Reply>,
    fd: i32,
    pos: int,
)
    requires
        fs.cfg.semantics.sandboxed(),
        !req.labelled,
        fs.child_of(req.parent, crate::host::Slot::Name) == Ok::<Node, i32>(at),
        opening_new(fs.cfg.semantics, req, at, log) == StepView::Done((fd, false), pos),
    ensures
        req.open_flags(fs.cfg.semantics) & O_TRUNC == 0,
        match creating_file(fs, ctx, req, log) {
            StepView::Call(CallView::Store { .. }) => req.cuts(fs.cfg.semantics) && !(updating(
                fs.cfg.semantics->Sandbox_0,
                Node::Fd(fd),
                None,
                content_change(req.kill_priv),
                log,
                pos,
            ) is Done),
            StepView::Call(CallView::Do(Call::Truncate { fd: n, size })) => n == fd && size == 0
                && req.cuts(fs.cfg.semantics) && updating(
                fs.cfg.semantics->Sandbox_0,
                Node::Fd(fd),
                None,
                content_change(req.kill_priv),
                log,
                pos,
            ) is Done,
            _ => true,
        },
{
    let semantics = fs.cfg.semantics;
    let config = semantics->Sandbox_0;
    let node = Node::Fd(fd);
    let parsed = req.host_flags();
    assert((parsed & !0x400u32) & 0x400 == 0) by (bit_vector);
    metadata_changes_touch_only_the_record(
        config,
        node,
        None,
        content_change(req.kill_priv),
        log,
        pos,
    );
    if let StepView::Done(_, c) = cutting(semantics, req, fd, false, log, pos) {
        lemma_stating_calls(ctx, semantics, node, log, c);
    }
}

pub(crate) proof fn lemma_setting_stays(
    semantics: PermissionSemantics,
    fd: i32,
    owner: Option<(u32, u32)>,
    mode: Option<u32>,
    log: Seq<Reply>,
    pos: int,
)
    ensures
        match setting(semantics, Node::Fd(fd), None, owner, mode, log, pos) {
            StepView::Call(call) => is_on_descriptor(call, fd),
            _ => true,
        },
{
    if let PermissionSemantics::Sandbox(config) = semantics {
        metadata_changes_touch_only_the_record(
            config,
            Node::Fd(fd),
            None,
            crate::sandbox::stat_change(owner, mode),
            log,
            pos,
        );
    }
}

/// A descriptor that was opened for a name that goes is kept by an inode, which
/// gave back the one that it had before, or is closed.
pub proof fn grabbed_descriptor_is_kept_or_closed(
    m: Map<u64, crate::inodes::InodeData>,
    fd: i32,
    log: Seq<Reply>,
    pos: int,
)
    requires
        0 <= pos,
    ensures
        match keeping(m, fd, log, pos) {
            StepView::Done(None, next) => pos < next <= log.len() && keeping(
                m,
                fd,
                log.take(next - 1),
                pos,
            ) == StepView::<Option<(u64, i32)>>::Call(CallView::Do(Call::Close { fd })),
            StepView::Done(Some((inode, kept)), next) => {
                &&& kept == fd
                &&& m.contains_key(inode)
                &&& m[inode].unlinked_fd >= 0 ==> pos < next <= log.len() && keeping(
                    m,
                    fd,
                    log.take(next - 1),
                    pos,
                ) == StepView::<Option<(u64, i32)>>::Call(
                    CallView::Do(Call::Close { fd: m[inode].unlinked_fd }),
                )
            },
            StepView::Fail(_, _) => false,
            StepView::Call(_) => true,
        },
{
}

/// Removing a name leaks no descriptor: the one that was opened for it is kept
/// by its inode, or closing it is the last call.
pub proof fn unlink_leaks_nothing(
    m: Map<u64, crate::inodes::InodeData>,
    dir: i32,
    opened: bool,
    flags: u32,
    log: Seq<Reply>,
    pos: int,
)
    requires
        0 <= pos < log.len(),
        fd_of(log[pos]) is Ok,
    ensures
        ({
            let fd = fd_of(log[pos])->Ok_0;
            match removing(m, dir, opened, flags, log, pos) {
                StepView::Call(_) => true,
                StepView::Done(Some((inode, kept)), _) => kept == fd && m.contains_key(inode),
                StepView::Done(None, next) => next <= log.len() && removing(
                    m,
                    dir,
                    opened,
                    flags,
                    log.take(next - 1),
                    pos,
                ) == StepView::<Option<(u64, i32)>>::Call(CallView::Do(Call::Close { fd })),
                StepView::Fail(_, next) => next <= log.len() && removing(
                    m,
                    dir,
                    opened,
                    flags,
                    log.take(next - 1),
                    pos,
                ) == StepView::<Option<(u64, i32)>>::Call(CallView::Do(Call::Close { fd })),
            }
        }),
{
}

/// Renaming leaks no descriptor: the one that was opened for the file that the
/// rename replaces is closed if the rename fails, and else is kept by its inode
/// or closed.
pub proof fn rename_leaks_nothing(
    fs: FsView,
    ctx: Context,
    olddir: u64,
    newdir: u64,
    flags: u32,
    log: Seq<Reply>,
    fd: i32,
    pos: int,
)
    requires
        renaming(fs, ctx, olddir, newdir, flags, Seq::empty()).step is Call,
        grabbing_target(fs, newdir, flags, log) == StepView::Done(Some(fd), pos),
        !(renaming(fs, ctx, olddir, newdir, flags, log).step is Call),
    ensures
        0 < pos < log.len(),
        log[pos] is Error ==> {
            &&& renaming(fs, ctx, olddir, newdir, flags, log.take(pos + 1)).step == StepView::<
                (),
            >::Call(CallView::Do(Call::Close { fd }))
            &&& renaming(fs, ctx, olddir, newdir, flags, log).inodes == fs.inodes
        },
        !(log[pos] is Error) ==> match keeping(fs.inodes, fd, log, pos + 1) {
            StepView::Done(Some((inode, kept)), _) => kept == fd && fs.inodes.contains_key(inode),
            StepView::Done(None, next) => next <= log.len() && renaming(
                fs,
                ctx,
                olddir,
                newdir,
                flags,
                log.take(next - 1),
            ).step == StepView::<()>::Call(CallView::Do(Call::Close { fd })),
            _ => false,
        },
{
    assert forall|k: int| pos <= k <= log.len() implies #[trigger] grabbing_target(
        fs,
        newdir,
        flags,
        log.take(k),
    ) == StepView::Done(Some(fd), pos) by {
        assert forall|i: int| 0 <= i < k implies log.take(k)[i] == log[i] by {}
    }
    if pos < log.len() {
        assert(grabbing_target(fs, newdir, flags, log.take(pos + 1)) == StepView::Done(
            Some(fd),
            pos,
        ));
        if !(log[pos] is Error) {
            grabbed_descriptor_is_kept_or_closed(fs.inodes, fd, log, pos + 1);
            if let StepView::Done(None, next) = keeping(fs.inodes, fd, log, pos + 1) {
                let shorter = log.take(next - 1);
                assert(grabbing_target(fs, newdir, flags, shorter) == StepView::Done(
                    Some(fd),
                    pos,
                ));
            }
        }
    }
}

/// An inode that lost its last name is reached by the descriptor that it kept.
pub proof fn removed_files_stay_reachable(
    fs: FsView,
    parent: u64,
    flags: u32,
    log: Seq<Reply>,
    inode: u64,
    fd: i32,
    end: int,
)
    requires
        fd >= 0,
        unlinking(fs, parent, flags, log) == StepView::Done(Some((inode, fd)), end),
    ensures
        (FsView { inodes: with_kept(fs.inodes, Some((inode, fd))), ..fs }).node_of(inode, true)
            == Ok::<Node, i32>(Node::Fd(fd)),
{
}

/// A file that a rename replaced is reached by the descriptor that its inode
/// kept, for as long as the inode stands for the file.
pub proof fn replaced_files_stay_reachable(
    fs: FsView,
    ctx: Context,
    olddir: u64,
    newdir: u64,
    flags: u32,
    log: Seq<Reply>,
    inode: u64,
    fd: i32,
    pos: int,
    end: int,
)
    requires
        well_numbered(fs.inodes),
        renaming(fs, ctx, olddir, newdir, flags, log).step is Done,
        grabbing_target(fs, newdir, flags, log) == StepView::Done(Some(fd), pos),
        keeping(fs.inodes, fd, log, pos + 1) == StepView::Done(Some((inode, fd)), end),
    ensures
        ({
            let after = renaming(fs, ctx, olddir, newdir, flags, log).inodes;
            after.contains_key(inode) && same_file(after[inode], fs.inodes[inode])
                ==> after[inode].unlinked_fd == fd
        }),
{
    let kept = Some((inode, fd));
    let m = with_kept(fs.inodes, kept);
    assert(m[inode].unlinked_fd == fd);
    assert(denotes(m, inode, m[inode].ino, m[inode].dev));
    assert forall|number: u64, st: Stat|
        ({
            let known = #[trigger] registered(m, number, st);
            known.contains_key(inode) && same_file(known[inode], fs.inodes[inode])
        }) implies registered(m, number, st)[inode].unlinked_fd == fd by {
        if let None = inode_of(m, st.ino, st.dev) {
            if number == inode {
                assert(denotes(m, inode, st.ino, st.dev));
            }
        }
    }
}

/// A security context is stored without a lasting change of the file's mode:
/// where the owner was let write for it, the last call sets the mode back.
pub proof fn labelling_restores_the_mode(at: Node, symlink: bool, log: Seq<Reply>, pos: int)
    requires
        0 <= pos,
        pos + 1 < log.len(),
        stat_of(log[pos]) is Ok,
        !(log[pos + 1] is Error),
    ensures
        match relabelling(at, symlink, log, pos) {
            StepView::Call(_) => true,
            StepView::Done(_, next) => pos + 2 < next <= log.len() && relabelling(
                at,
                symlink,
                log.take(next - 1),
                pos,
            ) == StepView::<()>::Call(
                CallView::Do(Call::Chmod { at, mode: stat_of(log[pos])->Ok_0.mode }),
            ),
            StepView::Fail(_, next) => pos + 2 < next <= log.len() && relabelling(
                at,
                symlink,
                log.take(next - 1),
                pos,
            ) == StepView::<()>::Call(
                CallView::Do(Call::Chmod { at, mode: stat_of(log[pos])->Ok_0.mode }),
            ),
        },
{
}

/// An owner and a mode that were set through a file's attribute are what the
/// guest then sees of the file.
pub proof fn set_owner_and_mode_are_seen(st: Stat, before: Override, uid: u32, gid: u32, mode: u32)
    requires
        uid < UID_MAX,
        gid < UID_MAX,
        mode <= 0xffff,
        mode & S_IFMT != 0,
    ensures
        ({
            let seen = overridden(
                st,
                override_of(override_text(merged(before, Some((uid, gid)), Some(mode)))),
            );
            seen.uid == uid && seen.gid == gid && seen.full_mode() == mode
        }),
{
    override_round_trip(merged(before, Some((uid, gid)), Some(mode)));
    let low = host_bits(mode);
    assert(low as u32 == mode);
    assert(low & 0o170000u16 == 0 ==> (low as u32) & 0o170000 == 0) by (bit_vector);
}

/// A capability that was stored is read back, by a guest with room for it, until
/// the record changes.
pub proof fn stored_capability_is_read_back(
    mapping: crate::sandbox_metadata::IdentityMapping,
    file: InspectedView,
    value: Seq<u8>,
    flags: u32,
    log: Seq<Reply>,
    size: u32,
)
    requires
        file.metadata(mapping).valid(),
        is_capability(value),
        size >= value.len(),
        storing_capability(mapping, file, value, flags, log, log.len() as int) is Call,
    ensures
        ({
            let call = storing_capability(mapping, file, value, flags, log, log.len() as int);
            let written = call->Call_0->Store_value;
            let after = InspectedView { record: record_of(written), ..file };
            &&& call->Call_0 is Store
            &&& after.capability() == Some(value)
            &&& fitting(value, size, 0) == StepView::Done(XattrView::Value(value), 0)
        }),
{
    let m = MetadataView { capability: Some(value), ..file.metadata(mapping) };
    record_round_trip(m);
}

} // verus!
