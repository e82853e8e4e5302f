//! What requests do to the host, in terms of the request alone.
//!
//! Each law looks at an operation from outside: at the calls that it makes, the
//! replies that it gets and the answer that it gives. It says which file and
//! which name a call is about, what is handed to it, and that an operation which
//! succeeds has had its calls granted.

use vstd::prelude::*;
use crate::bits::lemma_words;
use crate::config::PermissionSemantics;
use crate::host::{fd_of, Call, CallView, Node, Reply, Slot, StepView};
use crate::protocol::{lemma_grabbing_target, lemma_keeping_if, lemma_updating};
use crate::sandbox::{content_change, updating};
use crate::stat::Context;
use super::io::{reading_file, writing_file};
use super::laws::{metadata_changes_touch_only_the_record, is_look, lemma_viewing_calls};
use super::rename::{grabbing_target, keeping_if, rename_options, renaming, whiting_out};
use super::{looking_up, FsView};

verus! {

/// The host file of an inode, by volume and number.
pub open spec fn file_of(fs: FsView, inode: u64) -> Node {
    Node::Inode { dev: fs.inodes[inode].dev, ino: fs.inodes[inode].ino }
}

/// The request's name, or its new name, in the host directory of an inode.
pub open spec fn name_in(fs: FsView, dir: u64, slot: Slot) -> Node {
    Node::Child { dev: fs.inodes[dir].dev, ino: fs.inodes[dir].ino, slot }
}

/// How an inode is reached: by the descriptor that it kept when its last name
/// went, or else by its host file.
pub open spec fn reached(fs: FsView, inode: u64) -> Node {
    if fs.inodes[inode].unlinked_fd >= 0 {
        Node::Fd(fs.inodes[inode].unlinked_fd)
    } else {
        file_of(fs, inode)
    }
}

/// A call that changes what a name leads to.
pub open spec fn changes_names(call: CallView) -> bool {
    match call {
        CallView::Do(Call::Rename { .. }) => true,
        CallView::Do(Call::Unlink { .. }) => true,
        CallView::Do(Call::HardLink { .. }) => true,
        CallView::Do(Call::MakeDir { .. }) => true,
        CallView::Do(Call::MakeNode { .. }) => true,
        CallView::Do(Call::MakeLink { .. }) => true,
        CallView::Do(Call::BindSocket { .. }) => true,
        CallView::Do(Call::Open { flags, .. }) => flags & 0x200 != 0,
        _ => false,
    }
}

/// A call that changes the contents of a file.
pub open spec fn changes_contents(call: CallView) -> bool {
    match call {
        CallView::Do(Call::Write { .. }) => true,
        CallView::Do(Call::Truncate { .. }) => true,
        CallView::Do(Call::Preallocate { .. }) => true,
        CallView::Do(Call::PunchHole { .. }) => true,
        CallView::Do(Call::Open { flags, .. }) => flags & 0x400 != 0,
        _ => false,
    }
}

/// The host was asked for a call by an operation, and did not refuse it.
pub open spec fn granted<T>(
    operation: spec_fn(Seq<Reply>) -> StepView<T>,
    log: Seq<Reply>,
    call: CallView,
) -> bool {
    exists|k: int|
        0 <= k < log.len() && #[trigger] operation(log.take(k)) == StepView::<T>::Call(call) && !(
        log[k] is Error)
}

// ---------------------------------------------------------------------------
// Contents

proof fn lemma_look_flags(flags: u32)
    requires
        flags == crate::attributes::SANDBOX_STAT_OPEN_FLAGS,
    ensures
        flags & 0x200 == 0,
        flags & 0x400 == 0,
{
    lemma_words();
}

/// Looking at a file changes neither names nor contents.
pub(crate) proof fn lemma_looks_change_nothing(call: CallView)
    requires
        is_look(call),
    ensures
        !changes_names(call),
        !changes_contents(call),
{
    if let CallView::Do(Call::Open { flags, .. }) = call {
        lemma_look_flags(flags);
    }
}

pub(crate) proof fn lemma_shedding_changes_no_contents(
    ctx: Context,
    semantics: PermissionSemantics,
    at: Node,
    owner: Option<(u32, u32)>,
    log: Seq<Reply>,
    pos: int,
)
    ensures
        match crate::attributes::shedding(ctx, semantics, at, owner, log, pos) {
            StepView::Call(call) => !changes_names(call) && !changes_contents(call) && !(call
                matches CallView::Do(Call::SetTimes { .. })),
            _ => true,
        },
{
    if pos < log.len() {
        lemma_viewing_calls(ctx, semantics, at, log, pos + 1);
        match crate::attributes::viewing(ctx, semantics, at, log, pos + 1) {
            StepView::Call(call) => lemma_looks_change_nothing(call),
            StepView::Done(st, next) => {
                let mode = crate::stat::unprivileged(st.full_mode());
                lemma_setting_keeps_contents(
                    semantics,
                    at,
                    Some(st),
                    owner,
                    Some(mode),
                    log,
                    next,
                );
                lemma_setting_keeps_contents(semantics, at, Some(st), owner, None, log, next);
            },
            _ => {},
        }
    }
}

pub(crate) proof fn lemma_setting_keeps_contents(
    semantics: PermissionSemantics,
    at: Node,
    given: Option<crate::stat::Stat>,
    owner: Option<(u32, u32)>,
    mode: Option<u32>,
    log: Seq<Reply>,
    pos: int,
)
    ensures
        match crate::attributes::setting(semantics, at, given, owner, mode, log, pos) {
            StepView::Call(call) => !changes_names(call) && !changes_contents(call) && !(call
                matches CallView::Do(Call::SetTimes { .. })),
            _ => true,
        },
{
    if let PermissionSemantics::Sandbox(config) = semantics {
        metadata_changes_touch_only_the_record(
            config,
            at,
            given,
            crate::sandbox::stat_change(owner, mode),
            log,
            pos,
        );
    }
}

/// Whatever the semantics, a write writes to the handle's descriptor, as many
/// bytes and at the offset that the guest asked for, and changes no other
/// contents; the count that it answers is the host's reply to that call.
pub proof fn writes_go_where_the_guest_says(
    fs: FsView,
    ctx: Context,
    fd: i32,
    size: u32,
    offset: u64,
    kill_priv: bool,
    log: Seq<Reply>,
)
    ensures
        match writing_file(fs, ctx, fd, size, offset, kill_priv, log) {
            StepView::Call(CallView::Do(Call::Write { fd: f, size: s, offset: o })) => f == fd && s
                == size && o == offset,
            StepView::Call(call) => !changes_names(call) && !changes_contents(call),
            StepView::Done(count, _) => exists|k: int|
                0 <= k < log.len() && #[trigger] writing_file(
                    fs,
                    ctx,
                    fd,
                    size,
                    offset,
                    kill_priv,
                    log.take(k),
                ) == StepView::<u64>::Call(CallView::Do(Call::Write { fd, size, offset })) && log[k]
                    == Reply::Count(count),
            StepView::Fail(_, _) => true,
        },
{
    match fs.cfg.semantics {
        PermissionSemantics::Sandbox(config) => {
            let change = content_change(kill_priv);
            metadata_changes_touch_only_the_record(config, Node::Fd(fd), None, change, log, 0);
            lemma_updating(config, Node::Fd(fd), None, change, log, 0, log.len() as int);
            if let StepView::Done(_, n) = updating(config, Node::Fd(fd), None, change, log, 0) {
                lemma_updating(config, Node::Fd(fd), None, change, log, 0, n);
                if n < log.len() {
                    assert(writing_file(fs, ctx, fd, size, offset, kill_priv, log.take(n))
                        == StepView::<u64>::Call(CallView::Do(Call::Write { fd, size, offset })));
                }
            }
        },
        semantics => {
            if log.len() > 0 {
                assert(writing_file(fs, ctx, fd, size, offset, kill_priv, log.take(0))
                    == StepView::<u64>::Call(CallView::Do(Call::Write { fd, size, offset })));
                lemma_shedding_changes_no_contents(ctx, semantics, Node::Fd(fd), None, log, 1);
            }
        },
    }
}

/// A read reads from the handle's descriptor, as many bytes and at the offset
/// that the guest asked for, and answers the host's count.
pub proof fn reads_come_from_where_the_guest_says(
    fs: FsView,
    inode: u64,
    handle: u64,
    size: u32,
    offset: u64,
    count: u64,
)
    requires
        fs.handles.open.contains_key(handle),
        fs.handles.open[handle].inode == inode,
    ensures
        ({
            let fd = fs.handles.open[handle].fd;
            let read = |log: Seq<Reply>|
                super::io::on_handle(
                    fs,
                    inode,
                    handle,
                    |fd: i32| reading_file(fd, size, offset, log),
                );
            &&& read(Seq::empty()) == StepView::<u64>::Call(
                CallView::Do(Call::Read { fd, size, offset }),
            )
            &&& read(seq![Reply::Count(count)]) == StepView::Done(count, 1)
        }),
{
}

/// An operation on an open file is on the descriptor of that handle, and only if
/// the handle is of the inode.
pub proof fn handles_are_of_their_inode<T>(
    fs: FsView,
    inode: u64,
    handle: u64,
    operation: spec_fn(i32) -> StepView<T>,
)
    ensures
        super::io::on_handle(fs, inode, handle, operation) == if fs.handles.open.contains_key(
            handle,
        ) && fs.handles.open[handle].inode == inode {
            operation(fs.handles.open[handle].fd)
        } else {
            StepView::<T>::Fail(9, 0)
        },
{
}

/// The contents of open files on a host, by descriptor.
pub type Contents = Map<i32, Seq<u8>>;

/// The contents of a file after bytes were written at an offset. What lies
/// between the old end and the offset is zero.
pub open spec fn overwritten(old: Seq<u8>, offset: int, data: Seq<u8>) -> Seq<u8> {
    Seq::new(
        if offset + data.len() > old.len() {
            (offset + data.len()) as nat
        } else {
            old.len()
        },
        |i: int|
            if offset <= i < offset + data.len() {
                data[i - offset]
            } else if i < old.len() {
                old[i]
            } else {
                0u8
            },
    )
}

/// The bytes of a file from an offset on.
pub open spec fn bytes_at(contents: Seq<u8>, offset: int, count: int) -> Seq<u8> {
    contents.subrange(offset, offset + count)
}

/// What a call that was replied to does to the contents on a host: a write puts
/// as many of the guest's bytes as it replies at its offset.
pub open spec fn contents_after(
    contents: Contents,
    call: CallView,
    reply: Reply,
    data: Seq<u8>,
) -> Contents {
    match (call, reply) {
        (CallView::Do(Call::Write { fd, size: _, offset }), Reply::Count(count)) => contents.insert(
            fd,
            overwritten(contents[fd], offset as int, data.take(count as int)),
        ),
        (CallView::Do(Call::Truncate { fd, size }), Reply::Done) => contents.insert(
            fd,
            contents[fd].take(size as int),
        ),
        _ => contents,
    }
}

/// The contents on a host after a write has made its first `k` calls.
pub open spec fn contents_during_write(
    fs: FsView,
    ctx: Context,
    fd: i32,
    size: u32,
    offset: u64,
    kill_priv: bool,
    log: Seq<Reply>,
    k: int,
    contents: Contents,
    data: Seq<u8>,
) -> Contents
    decreases k,
{
    if k <= 0 {
        contents
    } else {
        let before = contents_during_write(
            fs,
            ctx,
            fd,
            size,
            offset,
            kill_priv,
            log,
            k - 1,
            contents,
            data,
        );
        match writing_file(fs, ctx, fd, size, offset, kill_priv, log.take(k - 1)) {
            StepView::Call(call) => contents_after(before, call, log[k - 1], data),
            _ => before,
        }
    }
}

/// The one place in a write's calls at which it writes.
proof fn lemma_write_is_asked_once(
    fs: FsView,
    ctx: Context,
    fd: i32,
    size: u32,
    offset: u64,
    kill_priv: bool,
    log: Seq<Reply>,
    k: int,
)
    requires
        0 <= k < log.len(),
        writing_file(fs, ctx, fd, size, offset, kill_priv, log.take(k)) matches StepView::Call(
            CallView::Do(Call::Write { .. }),
        ),
    ensures
        match fs.cfg.semantics {
            PermissionSemantics::Sandbox(config) => updating(
                config,
                Node::Fd(fd),
                None,
                content_change(kill_priv),
                log,
                0,
            ) == StepView::Done((), k),
            _ => k == 0,
        },
{
    let part = log.take(k);
    match fs.cfg.semantics {
        PermissionSemantics::Sandbox(config) => {
            let change = content_change(kill_priv);
            metadata_changes_touch_only_the_record(config, Node::Fd(fd), None, change, part, 0);
            lemma_updating(config, Node::Fd(fd), None, change, part, 0, k);
            lemma_updating(config, Node::Fd(fd), None, change, log, 0, k);
        },
        semantics => {
            if k > 0 {
                lemma_shedding_changes_no_contents(ctx, semantics, Node::Fd(fd), None, part, 1);
            }
        },
    }
}

proof fn lemma_contents_during_write(
    fs: FsView,
    ctx: Context,
    fd: i32,
    size: u32,
    offset: u64,
    kill_priv: bool,
    log: Seq<Reply>,
    k: int,
    contents: Contents,
    data: Seq<u8>,
    at: int,
)
    requires
        0 <= k <= log.len(),
        0 <= at < log.len(),
        writing_file(fs, ctx, fd, size, offset, kill_priv, log.take(at)) == StepView::<u64>::Call(
            CallView::Do(Call::Write { fd, size, offset }),
        ),
    ensures
        contents_during_write(
            fs,
            ctx,
            fd,
            size,
            offset,
            kill_priv,
            log,
            k,
            contents,
            data,
        ) == if k <= at {
            contents
        } else {
            contents_after(
                contents,
                CallView::Do(Call::Write { fd, size, offset }),
                log[at],
                data,
            )
        },
    decreases k,
{
    if k > 0 {
        lemma_contents_during_write(
            fs,
            ctx,
            fd,
            size,
            offset,
            kill_priv,
            log,
            k - 1,
            contents,
            data,
            at,
        );
        let part = log.take(k - 1);
        writes_go_where_the_guest_says(fs, ctx, fd, size, offset, kill_priv, part);
        if writing_file(fs, ctx, fd, size, offset, kill_priv, part) matches StepView::Call(
            CallView::Do(Call::Write { .. }),
        ) {
            lemma_write_is_asked_once(fs, ctx, fd, size, offset, kill_priv, log, k - 1);
            lemma_write_is_asked_once(fs, ctx, fd, size, offset, kill_priv, log, at);
        }
    }
}

/// On a host that does as it is told, a write that succeeds changes the file at
/// the offset of the request and nowhere else, and what is then read there is what
/// was written.
pub proof fn written_bytes_are_read_back(
    fs: FsView,
    ctx: Context,
    fd: i32,
    size: u32,
    offset: u64,
    kill_priv: bool,
    log: Seq<Reply>,
    count: u64,
    contents: Contents,
    data: Seq<u8>,
)
    requires
        writing_file(fs, ctx, fd, size, offset, kill_priv, log) == StepView::Done(
            count,
            log.len() as int,
        ),
        count <= data.len(),
        contents.contains_key(fd),
    ensures
        ({
            let after = contents_during_write(
                fs,
                ctx,
                fd,
                size,
                offset,
                kill_priv,
                log,
                log.len() as int,
                contents,
                data,
            );
            &&& bytes_at(after[fd], offset as int, count as int) == data.take(count as int)
            &&& forall|i: int|
                0 <= i < contents[fd].len() && !(offset <= i < offset + count) ==> #[trigger]
                after[fd][i] == contents[fd][i]
            &&& forall|other: i32| other != fd ==> #[trigger] after[other] == contents[other]
        }),
{
    writes_go_where_the_guest_says(fs, ctx, fd, size, offset, kill_priv, log);
    let at = choose|k: int|
        0 <= k < log.len() && #[trigger] writing_file(
            fs,
            ctx,
            fd,
            size,
            offset,
            kill_priv,
            log.take(k),
        ) == StepView::<u64>::Call(CallView::Do(Call::Write { fd, size, offset })) && log[k]
            == Reply::Count(count);
    lemma_contents_during_write(
        fs,
        ctx,
        fd,
        size,
        offset,
        kill_priv,
        log,
        log.len() as int,
        contents,
        data,
        at,
    );
    let piece = data.take(count as int);
    let after = overwritten(contents[fd], offset as int, piece);
    assert(bytes_at(after, offset as int, count as int) =~= piece);
}

// ---------------------------------------------------------------------------
// Names

/// What a rename's replies have come to when the host is asked to rename.
proof fn lemma_rename_position(
    fs: FsView,
    ctx: Context,
    olddir: u64,
    newdir: u64,
    flags: u32,
    log: Seq<Reply>,
)
    requires
        renaming(fs, ctx, olddir, newdir, flags, log).step matches StepView::Call(
            CallView::Do(Call::Rename { .. }),
        ),
    ensures
        grabbing_target(fs, newdir, flags, log) matches StepView::Done(_, n) && n == log.len(),
{
    lemma_grabbing_target(fs, newdir, flags, log, log.len() as int);
    if let StepView::Done(doomed, n) = grabbing_target(fs, newdir, flags, log) {
        if n < log.len() {
            lemma_after_rename(fs, ctx, olddir, newdir, flags, log);
        }
    }
}

/// What follows the host's rename makes no rename, and no name but a whiteout.
proof fn lemma_after_rename(
    fs: FsView,
    ctx: Context,
    olddir: u64,
    newdir: u64,
    flags: u32,
    log: Seq<Reply>,
)
    requires
        grabbing_target(fs, newdir, flags, log) matches StepView::Done(_, n) && n < log.len(),
    ensures
        match renaming(fs, ctx, olddir, newdir, flags, log).step {
            StepView::Call(CallView::Do(Call::Open { at, flags: f, mode })) => f & 0x200 != 0
                ==> flags & 4 != 0 && fs.inodes.contains_key(olddir) && at == name_in(
                fs,
                olddir,
                Slot::Name,
            ),
            StepView::Call(call) => !changes_names(call),
            _ => true,
        },
{
    lemma_grabbing_target(fs, newdir, flags, log, log.len() as int);
    if let StepView::Done(doomed, n) = grabbing_target(fs, newdir, flags, log) {
        lemma_keeping_if(fs.inodes, doomed, log, n + 1, log.len() as int);
        if let StepView::Done(kept, m) = keeping_if(fs.inodes, doomed, log, n + 1) {
            lemma_lookup_changes_nothing(fs, ctx, newdir, Slot::NewName, log, m);
            if fs.inodes.contains_key(olddir) {
                let from = name_in(fs, olddir, Slot::Name);
                if m < log.len() && fd_of(log[m]) is Ok {
                    lemma_setting_keeps_contents(
                        fs.cfg.semantics,
                        Node::Fd(fd_of(log[m])->Ok_0),
                        None,
                        None,
                        Some(super::rename::WHITEOUT_MODE),
                        log,
                        m + 1,
                    );
                }
                if let StepView::Done(_, o) = whiting_out(fs.cfg.semantics, from, log, m) {
                    lemma_lookup_changes_nothing(fs, ctx, newdir, Slot::NewName, log, o);
                }
            }
        }
    }
}

pub(crate) proof fn lemma_lookup_changes_nothing(
    fs: FsView,
    ctx: Context,
    parent: u64,
    slot: Slot,
    log: Seq<Reply>,
    pos: int,
)
    ensures
        match looking_up(fs, ctx, parent, slot, log, pos) {
            StepView::Call(call) => !changes_names(call) && !changes_contents(call),
            _ => true,
        },
{
    if let Ok(at) = fs.child_of(parent, slot) {
        lemma_viewing_calls(ctx, fs.cfg.semantics, at, log, pos);
        if let StepView::Call(call) = crate::attributes::viewing(
            ctx,
            fs.cfg.semantics,
            at,
            log,
            pos,
        ) {
            lemma_looks_change_nothing(call);
        }
    }
}

/// The host's options of a rename: it replaces nothing, or exchanges, exactly
/// where the guest asked for that.
pub open spec fn rename_flags_agree(host: u32, guest: u32) -> bool {
    &&& host & 4 != 0 <==> guest & 1 != 0
    &&& host & 2 != 0 <==> guest & 2 != 0
    &&& host & !6u32 == 0
}

/// A rename moves the request's name in the old directory to its new name in the
/// new directory, with the options that the guest asked for. The only other name
/// that it makes is the whiteout, under the old name, where the guest asked for
/// one. It succeeds only if the host made the rename.
pub proof fn rename_moves_the_name(
    fs: FsView,
    ctx: Context,
    olddir: u64,
    newdir: u64,
    flags: u32,
    log: Seq<Reply>,
)
    ensures
        match renaming(fs, ctx, olddir, newdir, flags, log).step {
            StepView::Call(CallView::Do(Call::Rename { from, to, flags: f })) => {
                &&& fs.inodes.contains_key(olddir) && fs.inodes.contains_key(newdir)
                &&& from == name_in(fs, olddir, Slot::Name)
                &&& to == name_in(fs, newdir, Slot::NewName)
                &&& rename_flags_agree(f, flags)
            },
            StepView::Call(CallView::Do(Call::Open { at, flags: f, mode })) => f & 0x200 != 0
                ==> flags & 4 != 0 && fs.inodes.contains_key(olddir) && at == name_in(
                fs,
                olddir,
                Slot::Name,
            ),
            StepView::Call(call) => !changes_names(call),
            StepView::Done(_, _) => exists|k: int, f: u32|
                0 <= k < log.len() && rename_flags_agree(f, flags) && #[trigger] renaming(
                    fs,
                    ctx,
                    olddir,
                    newdir,
                    flags,
                    log.take(k),
                ).step == #[trigger] rename_call(
                    name_in(fs, olddir, Slot::Name),
                    name_in(fs, newdir, Slot::NewName),
                    f,
                ) && !(log[k] is Error),
            StepView::Fail(_, _) => true,
        },
{
    let f = rename_options(flags);
    assert({
        let a: u32 = if flags & 1 != 0 { 0u32 | 4 } else { 0u32 };
        let b: u32 = if flags & 2 != 0 { a | 2 } else { a };
        (b & 4 != 0 <==> flags & 1 != 0) && (b & 2 != 0 <==> flags & 2 != 0) && b & !6u32 == 0
    }) by (bit_vector);
    lemma_words();
    lemma_grabbing_target(fs, newdir, flags, log, log.len() as int);
    if let StepView::Done(doomed, n) = grabbing_target(fs, newdir, flags, log) {
        if n < log.len() {
            lemma_after_rename(fs, ctx, olddir, newdir, flags, log);
            lemma_grabbing_target(fs, newdir, flags, log, n);
            if renaming(fs, ctx, olddir, newdir, flags, log).step is Done {
                assert(renaming(fs, ctx, olddir, newdir, flags, log.take(n)).step == rename_call(
                    name_in(fs, olddir, Slot::Name),
                    name_in(fs, newdir, Slot::NewName),
                    f,
                ));
            }
        }
    }
}

/// The step at which the host is asked to rename.
pub open spec fn rename_call(from: Node, to: Node, flags: u32) -> StepView<()> {
    StepView::Call(CallView::Do(Call::Rename { from, to, flags }))
}

/// What names lead to on a host.
pub type Names = Map<Node, u64>;

/// What a call that was replied to does to names on a host. A rename moves the
/// binding, or exchanges two.
pub open spec fn names_after(names: Names, call: CallView, reply: Reply) -> Names {
    if reply is Error {
        names
    } else {
        match call {
            CallView::Do(Call::Rename { from, to, flags }) => if flags & 2 != 0 {
                names.insert(to, names[from]).insert(from, names[to])
            } else {
                names.remove(from).insert(to, names[from])
            },
            CallView::Do(Call::MakeDir { at, .. }) => names.insert(at, arbitrary()),
            CallView::Do(Call::MakeNode { at, .. }) => names.insert(at, arbitrary()),
            CallView::Do(Call::MakeLink { at }) => names.insert(at, arbitrary()),
            CallView::Do(Call::BindSocket { at }) => names.insert(at, arbitrary()),
            CallView::Do(Call::HardLink { from, to }) => names.insert(to, names[from]),
            CallView::Do(Call::Unlink { .. }) => arbitrary(),
            CallView::Do(Call::Open { at, flags, .. }) => if flags & 0x200 != 0
                && !names.contains_key(at) {
                names.insert(at, arbitrary())
            } else {
                names
            },
            _ => names,
        }
    }
}

/// What names lead to on a host after a rename has made its first `k` calls.
pub open spec fn names_during_rename(
    fs: FsView,
    ctx: Context,
    olddir: u64,
    newdir: u64,
    flags: u32,
    log: Seq<Reply>,
    k: int,
    names: Names,
) -> Names
    decreases k,
{
    if k <= 0 {
        names
    } else {
        let before = names_during_rename(fs, ctx, olddir, newdir, flags, log, k - 1, names);
        match renaming(fs, ctx, olddir, newdir, flags, log.take(k - 1)).step {
            StepView::Call(call) => names_after(before, call, log[k - 1]),
            _ => before,
        }
    }
}

proof fn lemma_names_during_rename(
    fs: FsView,
    ctx: Context,
    olddir: u64,
    newdir: u64,
    flags: u32,
    log: Seq<Reply>,
    k: int,
    names: Names,
    at: int,
    f: u32,
)
    requires
        flags & 4 == 0,
        0 <= k <= log.len(),
        0 <= at < log.len(),
        renaming(fs, ctx, olddir, newdir, flags, log.take(at)).step == rename_call(
            name_in(fs, olddir, Slot::Name),
            name_in(fs, newdir, Slot::NewName),
            f,
        ),
    ensures
        names_during_rename(fs, ctx, olddir, newdir, flags, log, k, names) == if k <= at {
            names
        } else {
            names_after(
                names,
                CallView::Do(
                    Call::Rename {
                        from: name_in(fs, olddir, Slot::Name),
                        to: name_in(fs, newdir, Slot::NewName),
                        flags: f,
                    },
                ),
                log[at],
            )
        },
    decreases k,
{
    if k > 0 {
        lemma_names_during_rename(fs, ctx, olddir, newdir, flags, log, k - 1, names, at, f);
        let part = log.take(k - 1);
        rename_moves_the_name(fs, ctx, olddir, newdir, flags, part);
        if renaming(fs, ctx, olddir, newdir, flags, part).step matches StepView::Call(
            CallView::Do(Call::Rename { .. }),
        ) {
            lemma_rename_position(fs, ctx, olddir, newdir, flags, part);
            lemma_rename_position(fs, ctx, olddir, newdir, flags, log.take(at));
            lemma_grabbing_target(fs, newdir, flags, log, k - 1);
            lemma_grabbing_target(fs, newdir, flags, log, at);
            lemma_grabbing_target(fs, newdir, flags, log.take(at), at);
            lemma_grabbing_target(fs, newdir, flags, part, k - 1);
            if k - 1 < at {
                assert(log.take(at).take(k - 1) =~= part);
                lemma_grabbing_target(fs, newdir, flags, log.take(at), k - 1);
            } else {
                assert(part.take(at) =~= log.take(at));
                lemma_grabbing_target(fs, newdir, flags, part, at);
            }
        }
    }
}

/// On a host that does as it is told, a rename that succeeds leaves the new name
/// in the new directory leading to the file that the old name in the old directory
/// led to, the old name gone, and every other name as it was. One that exchanges
/// leaves the old name leading to what the new one led to.
pub proof fn renamed_files_are_found(
    fs: FsView,
    ctx: Context,
    olddir: u64,
    newdir: u64,
    flags: u32,
    log: Seq<Reply>,
    names: Names,
)
    requires
        flags & 4 == 0,
        renaming(fs, ctx, olddir, newdir, flags, log).step is Done,
    ensures
        ({
            let from = name_in(fs, olddir, Slot::Name);
            let to = name_in(fs, newdir, Slot::NewName);
            let after = names_during_rename(
                fs,
                ctx,
                olddir,
                newdir,
                flags,
                log,
                log.len() as int,
                names,
            );
            &&& after.contains_key(to) && after[to] == names[from]
            &&& flags & 2 == 0 ==> !after.contains_key(from)
            &&& flags & 2 != 0 ==> after.contains_key(from) && after[from] == names[to]
            &&& forall|other: Node|
                other != from && other != to ==> (#[trigger] after.contains_key(other)
                    <==> names.contains_key(other)) && after[other] == names[other]
        }),
{
    rename_moves_the_name(fs, ctx, olddir, newdir, flags, log);
    let (at, f) = choose|k: int, f: u32|
        0 <= k < log.len() && rename_flags_agree(f, flags) && #[trigger] renaming(
            fs,
            ctx,
            olddir,
            newdir,
            flags,
            log.take(k),
        ).step == #[trigger] rename_call(
            name_in(fs, olddir, Slot::Name),
            name_in(fs, newdir, Slot::NewName),
            f,
        ) && !(log[k] is Error);
    lemma_names_during_rename(
        fs,
        ctx,
        olddir,
        newdir,
        flags,
        log,
        log.len() as int,
        names,
        at,
        f,
    );
}

} // verus!
