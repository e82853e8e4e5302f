//! The attributes of a host file as the guest sees and sets them, under each
//! permission semantics.

use vstd::prelude::*;
use crate::abi::{
    EACCES, EPERM, O_CLOEXEC, O_EVTONLY, O_NONBLOCK, O_SYMLINK, S_IWUSR, XATTR_NOFOLLOW,
};
use crate::config::PermissionSemantics;
use crate::host::{
    and_finally, fd_of, finally, run_single, single, stat_of, unit_of, Attr, Call, CallView,
    HostCall, Node, Reply, Step, StepView,
};
use crate::override_stat::{
    get_override, overridden, reading_override, set_xattr_stat, setting_override, stat_xattr_common,
};
use crate::sandbox::{
    read_sandbox_metadata_for_config, reading_for, set_sandbox_stat, stat_change, updating,
};
use crate::stat::{
    apply_sandbox_stat, clear_suid_sgid, host_bits, low_bits, sandbox_stat, unprivileged, Context,
    Stat,
};

verus! {

/// How a file is opened to learn its attributes: without asking for read
/// access, on a symbolic link itself, and without waiting for a writer.
pub const SANDBOX_STAT_OPEN_FLAGS: u32 = O_EVTONLY | O_SYMLINK | O_NONBLOCK | O_CLOEXEC;

/// What the guest sees of a file whose host attributes are `st`.
pub open spec fn translating(
    ctx: Context,
    semantics: PermissionSemantics,
    at: Node,
    st: Stat,
    log: Seq<Reply>,
    pos: int,
) -> StepView<Stat> {
    match semantics {
        PermissionSemantics::LinuxComplete => match reading_override(at, st, log, pos) {
            StepView::Call(call) => StepView::Call(call),
            StepView::Fail(error, next) => StepView::Fail(error, next),
            StepView::Done(o, next) => StepView::Done(overridden(st, o), next),
        },
        PermissionSemantics::LinuxSimplified => StepView::Done(
            Stat { uid: ctx.uid, gid: ctx.gid, ..st },
            pos,
        ),
        PermissionSemantics::Sandbox(config) => match reading_for(config, at, st, log, pos) {
            StepView::Call(call) => StepView::Call(call),
            StepView::Fail(error, next) => StepView::Fail(error, next),
            StepView::Done(record, next) => match sandbox_stat(st, config.identity, record) {
                Ok(seen) => StepView::Done(seen, next),
                Err(error) => StepView::Fail(error, next),
            },
        },
    }
}

/// The guest's view of a file: its host attributes, translated.
pub open spec fn stating(
    ctx: Context,
    semantics: PermissionSemantics,
    at: Node,
    log: Seq<Reply>,
    pos: int,
) -> StepView<Stat> {
    if pos >= log.len() {
        StepView::Call(CallView::Do(Call::Stat { at }))
    } else {
        match stat_of(log[pos]) {
            Err(error) => StepView::Fail(error.linux, pos + 1),
            Ok(st) => translating(ctx, semantics, at, st, log, pos + 1),
        }
    }
}

/// The guest's view of a file. Under sandbox semantics the host attributes and
/// the record must be of one file although the path may be replaced in between,
/// so a path is opened first and both are read from the descriptor.
pub open spec fn viewing(
    ctx: Context,
    semantics: PermissionSemantics,
    at: Node,
    log: Seq<Reply>,
    pos: int,
) -> StepView<Stat> {
    if semantics.sandboxed() && !(at is Fd) {
        if pos >= log.len() {
            StepView::Call(
                CallView::Do(Call::Open { at, flags: SANDBOX_STAT_OPEN_FLAGS, mode: 0 }),
            )
        } else {
            match fd_of(log[pos]) {
                Err(error) => StepView::Fail(error.linux, pos + 1),
                Ok(fd) => finally(
                    stating(ctx, semantics, Node::Fd(fd), log, pos + 1),
                    Call::Close { fd },
                    log,
                ),
            }
        }
    } else {
        stating(ctx, semantics, at, log, pos)
    }
}

/// Learns the guest's view of an open file, or of a path that stays what it is.
pub fn fstat(
    ctx: Context,
    semantics: PermissionSemantics,
    at: Node,
    log: &Vec<Reply>,
    pos: usize,
) -> (r: Step<Stat>)
    ensures
        r@ == stating(ctx, semantics, at, log@, pos as int),
{
    if pos >= log.len() {
        return Step::Call(HostCall::Do(Call::Stat { at }));
    }
    let st: Stat = match log[pos].stat() {
        Err(error) => return Step::Fail(error.linux, pos + 1),
        Ok(st) => st,
    };
    match semantics {
        PermissionSemantics::LinuxComplete => match get_override(at, st, log, pos + 1) {
            Step::Call(call) => Step::Call(call),
            Step::Fail(error, next) => Step::Fail(error, next),
            Step::Done(o, next) => Step::Done(stat_xattr_common(st, o), next),
        },
        PermissionSemantics::LinuxSimplified => Step::Done(
            Stat { uid: ctx.uid, gid: ctx.gid, ..st },
            pos + 1,
        ),
        PermissionSemantics::Sandbox(config) => match read_sandbox_metadata_for_config(
            at,
            st,
            config,
            log,
            pos + 1,
        ) {
            Step::Call(call) => Step::Call(call),
            Step::Fail(error, next) => Step::Fail(error, next),
            Step::Done(stored, next) => match apply_sandbox_stat(
                st,
                config.identity,
                &stored.record,
            ) {
                Ok(seen) => Step::Done(seen, next),
                Err(error) => Step::Fail(error, next),
            },
        },
    }
}

/// Learns the guest's view of a file.
pub fn istat(
    ctx: Context,
    semantics: PermissionSemantics,
    at: Node,
    log: &Vec<Reply>,
    pos: usize,
) -> (r: Step<Stat>)
    ensures
        r@ == viewing(ctx, semantics, at, log@, pos as int),
{
    match at {
        Node::Fd(_) => fstat(ctx, semantics, at, log, pos),
        _ => lstat(ctx, semantics, at, log, pos),
    }
}

/// Learns the guest's view of a file by its path.
pub fn lstat(
    ctx: Context,
    semantics: PermissionSemantics,
    at: Node,
    log: &Vec<Reply>,
    pos: usize,
) -> (r: Step<Stat>)
    requires
        !(at is Fd),
    ensures
        r@ == viewing(ctx, semantics, at, log@, pos as int),
{
    if !semantics.is_sandbox() {
        return fstat(ctx, semantics, at, log, pos);
    }
    if pos >= log.len() {
        return Step::Call(HostCall::Do(Call::Open { at, flags: SANDBOX_STAT_OPEN_FLAGS, mode: 0 }));
    }
    match log[pos].fd() {
        Err(error) => Step::Fail(error.linux, pos + 1),
        Ok(fd) => and_finally(
            fstat(ctx, semantics, Node::Fd(fd), log, pos + 1),
            Call::Close { fd },
            log,
        ),
    }
}

/// Setting the permission bits that the host stores. The host's owner is not
/// touched.
pub open spec fn setting_host(at: Node, mode: Option<u32>, log: Seq<Reply>, pos: int) -> StepView<
    (),
> {
    match mode {
        Some(mode) => single(Call::Chmod { at, mode: host_bits(mode) }, log, pos),
        None => StepView::Done((), pos),
    }
}

/// Setting the owner and the mode of a file: in its attribute, in the host's
/// mode, or in the sandbox record.
pub open spec fn setting(
    semantics: PermissionSemantics,
    at: Node,
    given: Option<Stat>,
    owner: Option<(u32, u32)>,
    mode: Option<u32>,
    log: Seq<Reply>,
    pos: int,
) -> StepView<()> {
    match semantics {
        PermissionSemantics::LinuxComplete => setting_override(at, given, owner, mode, log, pos),
        PermissionSemantics::LinuxSimplified => setting_host(at, mode, log, pos),
        PermissionSemantics::Sandbox(config) => updating(
            config,
            at,
            given,
            stat_change(owner, mode),
            log,
            pos,
        ),
    }
}

/// Sets the permission bits that the host stores.
pub fn set_host_stat(at: Node, mode: Option<u32>, log: &Vec<Reply>, pos: usize) -> (r: Step<()>)
    ensures
        r@ == setting_host(at, mode, log@, pos as int),
{
    match mode {
        Some(mode) => run_single(Call::Chmod { at, mode: low_bits(mode) }, log, pos),
        None => Step::Done((), pos),
    }
}

/// Sets the owner and the mode of a file.
pub fn set_stat(
    semantics: PermissionSemantics,
    at: Node,
    given: Option<Stat>,
    owner: Option<(u32, u32)>,
    mode: Option<u32>,
    log: &Vec<Reply>,
    pos: usize,
) -> (r: Step<()>)
    ensures
        r@ == setting(semantics, at, given, owner, mode, log@, pos as int),
{
    match semantics {
        PermissionSemantics::LinuxComplete => set_xattr_stat(at, given, owner, mode, log, pos),
        PermissionSemantics::LinuxSimplified => set_host_stat(at, mode, log, pos),
        PermissionSemantics::Sandbox(config) => set_sandbox_stat(
            config,
            at,
            given,
            owner,
            mode,
            log,
            pos,
        ),
    }
}

/// The call that stores the request's security context.
pub open spec fn label_call(at: Node, symlink: bool) -> Call {
    Call::SetAttr {
        at,
        attr: Attr::Label,
        options: if symlink {
            XATTR_NOFOLLOW
        } else {
            0
        },
    }
}

/// Storing the request's security context on a file that does not let its owner
/// write attributes: the owner may write for as long as it takes, and the mode
/// is as before whether or not that helped.
pub open spec fn relabelling(at: Node, symlink: bool, log: Seq<Reply>, pos: int) -> StepView<()> {
    if pos >= log.len() {
        StepView::Call(CallView::Do(Call::Stat { at }))
    } else {
        match stat_of(log[pos]) {
            Err(error) => StepView::Fail(error.linux, pos + 1),
            Ok(st) => match single(
                Call::Chmod { at, mode: st.mode | (S_IWUSR as u16) },
                log,
                pos + 1,
            ) {
                StepView::Call(call) => StepView::Call(call),
                StepView::Fail(error, next) => StepView::Fail(error, next),
                StepView::Done(_, next) => finally(
                    single(label_call(at, symlink), log, next),
                    Call::Chmod { at, mode: st.mode },
                    log,
                ),
            },
        }
    }
}

/// Storing the request's security context on a file.
pub open spec fn labelling(at: Node, symlink: bool, log: Seq<Reply>, pos: int) -> StepView<()> {
    if pos >= log.len() {
        StepView::Call(CallView::Do(label_call(at, symlink)))
    } else {
        match unit_of(log[pos]) {
            Ok(_) => StepView::Done((), pos + 1),
            Err(error) => if error.raw == EACCES || error.raw == EPERM {
                relabelling(at, symlink, log, pos + 1)
            } else {
                StepView::Fail(error.linux, pos + 1)
            },
        }
    }
}

/// Stores the request's security context on a file.
pub fn set_secctx(at: Node, symlink: bool, log: &Vec<Reply>, pos: usize) -> (r: Step<()>)
    ensures
        r@ == labelling(at, symlink, log@, pos as int),
{
    let options: u32 = if symlink {
        XATTR_NOFOLLOW
    } else {
        0
    };
    let store = Call::SetAttr { at, attr: Attr::Label, options };
    if pos >= log.len() {
        return Step::Call(HostCall::Do(store));
    }
    match log[pos].unit() {
        Ok(_) => return Step::Done((), pos + 1),
        Err(error) => if error.raw != EACCES && error.raw != EPERM {
            return Step::Fail(error.linux, pos + 1);
        },
    }
    if pos + 1 >= log.len() {
        return Step::Call(HostCall::Do(Call::Stat { at }));
    }
    let st: Stat = match log[pos + 1].stat() {
        Err(error) => return Step::Fail(error.linux, pos + 2),
        Ok(st) => st,
    };
    match run_single(Call::Chmod { at, mode: st.mode | (S_IWUSR as u16) }, log, pos + 2) {
        Step::Call(call) => Step::Call(call),
        Step::Fail(error, next) => Step::Fail(error, next),
        Step::Done(_, next) => and_finally(
            run_single(store, log, next),
            Call::Chmod { at, mode: st.mode },
            log,
        ),
    }
}

/// Removing a file's capability, which need not have one.
pub open spec fn stripping(at: Node, log: Seq<Reply>, pos: int) -> StepView<()> {
    finally(
        StepView::Done((), pos),
        Call::RemoveAttr { at, attr: Attr::Capability, options: 0 },
        log,
    )
}

/// Removes a file's capability. That it had none is no error, and neither is
/// that it keeps it.
pub fn remove_security_capability(at: Node, log: &Vec<Reply>, pos: usize) -> (r: Step<()>)
    ensures
        r@ == stripping(at, log@, pos as int),
{
    and_finally(
        Step::Done((), pos),
        Call::RemoveAttr { at, attr: Attr::Capability, options: 0 },
        log,
    )
}

/// Taking a file's privileges away because its contents changed, or because its
/// owner changes: its capability goes, then the privileged bits of its mode,
/// together with the new owner where there is one.
pub open spec fn shedding(
    ctx: Context,
    semantics: PermissionSemantics,
    at: Node,
    owner: Option<(u32, u32)>,
    log: Seq<Reply>,
    pos: int,
) -> StepView<()> {
    match stripping(at, log, pos) {
        StepView::Call(call) => StepView::Call(call),
        StepView::Fail(error, next) => StepView::Fail(error, next),
        StepView::Done(_, next) => match viewing(ctx, semantics, at, log, next) {
            StepView::Call(call) => StepView::Call(call),
            StepView::Fail(error, next) => StepView::Fail(error, next),
            StepView::Done(st, next) => {
                let mode = unprivileged(st.full_mode());
                if mode != st.full_mode() {
                    setting(semantics, at, Some(st), owner, Some(mode), log, next)
                } else if owner is Some {
                    setting(semantics, at, Some(st), owner, None, log, next)
                } else {
                    StepView::Done((), next)
                }
            },
        },
    }
}

/// Takes a file's privileges away.
pub fn shed_privileges(
    ctx: Context,
    semantics: PermissionSemantics,
    at: Node,
    owner: Option<(u32, u32)>,
    log: &Vec<Reply>,
    pos: usize,
) -> (r: Step<()>)
    ensures
        r@ == shedding(ctx, semantics, at, owner, log@, pos as int),
{
    let next: usize = match remove_security_capability(at, log, pos) {
        Step::Call(call) => return Step::Call(call),
        Step::Fail(error, next) => return Step::Fail(error, next),
        Step::Done(_, next) => next,
    };
    match istat(ctx, semantics, at, log, next) {
        Step::Call(call) => Step::Call(call),
        Step::Fail(error, next) => Step::Fail(error, next),
        Step::Done(st, next) => {
            let mode: u32 = clear_suid_sgid(st.mode as u32);
            if mode != st.mode as u32 {
                set_stat(semantics, at, Some(st), owner, Some(mode), log, next)
            } else if owner.is_some() {
                set_stat(semantics, at, Some(st), owner, None, log, next)
            } else {
                Step::Done((), next)
            }
        },
    }
}

/// The outcome where a failure is passed over.
pub open spec fn tolerated(step: StepView<()>) -> StepView<()> {
    match step {
        StepView::Fail(_, pos) => StepView::Done((), pos),
        step => step,
    }
}

/// Passes over a failure.
pub fn tolerate(step: Step<()>) -> (r: Step<()>)
    ensures
        r@ == tolerated(step@),
{
    match step {
        Step::Fail(_, pos) => Step::Done((), pos),
        step => step,
    }
}

} // verus!
