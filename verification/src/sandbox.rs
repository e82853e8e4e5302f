//! Reading, changing and writing the guest metadata of a host file.
//!
//! The metadata lives in one attribute of the file. A file without it is
//! native: its metadata is the host's, with the owner mapped. A change reads the
//! record, or starts from the native metadata, and replaces the record as a
//! whole.

use vstd::prelude::*;
use crate::abi::{
    ENOATTR, ERANGE, LINUX_EINVAL, LINUX_EOPNOTSUPP, S_IFMT, XATTR_NOFOLLOW,
};
use crate::config::SandboxConfig;
use crate::host::{
    bytes_of, count_of, stat_of, unit_of, Attr, Call, CallView, HostCall, Node, Reply, Step,
    StepView,
};
use crate::sandbox_metadata::{native_metadata, record_of, GuestMetadata, MetadataView};
use crate::stat::{clear_suid_sgid, unprivileged, Stat};

verus! {

/// The record of a file, if it has one.
pub struct Stored {
    pub record: Option<GuestMetadata>,
}

/// The contents of an optional record.
pub open spec fn record_view(record: Option<GuestMetadata>) -> Option<MetadataView> {
    match record {
        Some(m) => Some(m@),
        None => None,
    }
}

impl View for Stored {
    type V = Option<MetadataView>;

    open spec fn view(&self) -> Option<MetadataView> {
        record_view(self.record)
    }
}

/// The option by which a path call stays on a symbolic link.
pub open spec fn link_options(st: Stat) -> u32 {
    if st.is_link() {
        XATTR_NOFOLLOW
    } else {
        0
    }
}

/// The options of a call on the record. A descriptor already denotes the link
/// itself, so only a path needs the option.
pub open spec fn record_options(at: Node, st: Stat) -> u32 {
    if at is Fd {
        0
    } else {
        link_options(st)
    }
}

/// The option by which a path call on an attribute stays on a symbolic link.
pub fn sandbox_xattr_options(st: Stat) -> (r: u32)
    ensures
        r == link_options(st),
{
    if st.is_symlink() {
        XATTR_NOFOLLOW
    } else {
        0
    }
}

pub fn sandbox_xattr_options_for_handle(at: Node, st: Stat) -> (r: u32)
    ensures
        r == record_options(at, st),
{
    match at {
        Node::Fd(_) => 0,
        _ => sandbox_xattr_options(st),
    }
}

/// A record belongs to a file of the same type.
pub open spec fn same_kind(m: MetadataView, st: Stat) -> bool {
    m.mode & S_IFMT == st.kind()
}

/// What the bytes of the attribute mean: a record of the file's type, else an
/// error.
pub open spec fn interpreted(value: Seq<u8>, st: Stat, pos: int) -> StepView<Option<MetadataView>> {
    match record_of(value) {
        Some(m) => if same_kind(m, st) {
            StepView::Done(Some(m), pos)
        } else {
            StepView::Fail(LINUX_EINVAL, pos)
        },
        None => StepView::Fail(LINUX_EINVAL, pos),
    }
}

/// Reading the record of a file: its size, then its value, and again from the
/// start if the value grew in between. Only the error that the attribute does
/// not exist means that the file is native.
pub open spec fn reading(at: Node, st: Stat, log: Seq<Reply>, pos: int) -> StepView<
    Option<MetadataView>,
>
    decreases log.len() - pos,
{
    let options = record_options(at, st);
    if pos >= log.len() {
        StepView::Call(CallView::Do(Call::AttrSize { at, attr: Attr::Record, options }))
    } else {
        match count_of(log[pos]) {
            Err(error) => if error.raw == ENOATTR {
                StepView::Done(None, pos + 1)
            } else {
                StepView::Fail(error.linux, pos + 1)
            },
            Ok(size) => if pos + 1 >= log.len() {
                StepView::Call(
                    CallView::Do(Call::GetAttr { at, attr: Attr::Record, size, options }),
                )
            } else {
                match bytes_of(log[pos + 1]) {
                    Err(error) => if error.raw == ERANGE {
                        reading(at, st, log, pos + 2)
                    } else if error.raw == ENOATTR {
                        StepView::Done(None, pos + 2)
                    } else {
                        StepView::Fail(error.linux, pos + 2)
                    },
                    Ok(value) => interpreted(value, st, pos + 2),
                }
            },
        }
    }
}

/// Reads the record of a file whose host attributes are `st`.
pub fn read_sandbox_metadata(at: Node, st: Stat, log: &Vec<Reply>, from: usize) -> (r: Step<Stored>)
    ensures
        r@ == reading(at, st, log@, from as int),
{
    let options: u32 = sandbox_xattr_options_for_handle(at, st);
    let mut pos: usize = from;
    loop
        invariant
            options == record_options(at, st),
            reading(at, st, log@, from as int) == reading(at, st, log@, pos as int),
        decreases log.len() - pos,
    {
        if pos >= log.len() {
            return Step::Call(HostCall::Do(Call::AttrSize { at, attr: Attr::Record, options }));
        }
        let size = match log[pos].count() {
            Err(error) => {
                return if error.raw == ENOATTR {
                    Step::Done(Stored { record: None }, pos + 1)
                } else {
                    Step::Fail(error.linux, pos + 1)
                };
            },
            Ok(size) => size,
        };
        if pos + 1 >= log.len() {
            return Step::Call(
                HostCall::Do(Call::GetAttr { at, attr: Attr::Record, size, options }),
            );
        }
        match log[pos + 1].bytes() {
            Err(error) => {
                if error.raw == ERANGE {
                    pos = pos + 2;
                } else if error.raw == ENOATTR {
                    return Step::Done(Stored { record: None }, pos + 2);
                } else {
                    return Step::Fail(error.linux, pos + 2);
                }
            },
            Ok(value) => {
                return match GuestMetadata::parse(value.as_slice()) {
                    Err(_) => Step::Fail(LINUX_EINVAL, pos + 2),
                    Ok(m) => if m.matches_file_kind(st.mode as u32) {
                        Step::Done(Stored { record: Some(m) }, pos + 2)
                    } else {
                        Step::Fail(LINUX_EINVAL, pos + 2)
                    },
                };
            },
        }
    }
}

/// Reading the record where the volume may lack attributes: on such a volume
/// the error that says so means that the file is native. The read is still
/// made, so an existing record is never passed over.
pub open spec fn reading_for(
    config: SandboxConfig,
    at: Node,
    st: Stat,
    log: Seq<Reply>,
    pos: int,
) -> StepView<Option<MetadataView>> {
    match reading(at, st, log, pos) {
        StepView::Fail(error, next) => if !config.xattrs_enabled && error == LINUX_EOPNOTSUPP {
            StepView::Done(None, next)
        } else {
            StepView::Fail(error, next)
        },
        step => step,
    }
}

pub fn read_sandbox_metadata_for_config(
    at: Node,
    st: Stat,
    config: SandboxConfig,
    log: &Vec<Reply>,
    pos: usize,
) -> (r: Step<Stored>)
    ensures
        r@ == reading_for(config, at, st, log@, pos as int),
{
    match read_sandbox_metadata(at, st, log, pos) {
        Step::Fail(error, next) => if !config.xattrs_enabled && error == LINUX_EOPNOTSUPP {
            Step::Done(Stored { record: None }, next)
        } else {
            Step::Fail(error, next)
        },
        step => step,
    }
}

/// Replacing the record of a file by `m`, which must be of the file's type.
pub open spec fn writing(
    at: Node,
    st: Stat,
    m: MetadataView,
    log: Seq<Reply>,
    pos: int,
) -> StepView<()> {
    if !same_kind(m, st) {
        StepView::Fail(LINUX_EINVAL, pos)
    } else if pos >= log.len() {
        StepView::Call(
            CallView::Store {
                at,
                attr: Attr::Record,
                value: m.text(),
                options: record_options(at, st),
            },
        )
    } else {
        match unit_of(log[pos]) {
            Ok(_) => StepView::Done((), pos + 1),
            Err(error) => StepView::Fail(error.linux, pos + 1),
        }
    }
}

pub fn write_sandbox_metadata(
    at: Node,
    st: Stat,
    metadata: &GuestMetadata,
    log: &Vec<Reply>,
    pos: usize,
) -> (r: Step<()>)
    ensures
        r@ == writing(at, st, metadata@, log@, pos as int),
{
    if !metadata.matches_file_kind(st.mode as u32) {
        return Step::Fail(LINUX_EINVAL, pos);
    }
    if pos >= log.len() {
        return Step::Call(
            HostCall::Store {
                at,
                attr: Attr::Record,
                value: metadata.encode(),
                options: sandbox_xattr_options_for_handle(at, st),
            },
        );
    }
    match log[pos].unit() {
        Ok(_) => Step::Done((), pos + 1),
        Err(error) => Step::Fail(error.linux, pos + 1),
    }
}

/// A change of guest metadata. An owner or group of all ones stays as it is.
#[derive(Debug, Clone, Copy, PartialEq, Eq)]
pub struct Change {
    pub owner: Option<(u32, u32)>,
    pub mode: Option<u32>,
    pub clear_capability: bool,
    pub clear_mode_privileges: bool,
    /// Whether a native file gets a record although nothing changes.
    pub persist_unchanged: bool,
}

/// The metadata with an owner set.
pub open spec fn with_owner(m: MetadataView, owner: Option<(u32, u32)>) -> MetadataView {
    match owner {
        Some((uid, gid)) => MetadataView {
            uid: if uid != u32::MAX {
                uid
            } else {
                m.uid
            },
            gid: if gid != u32::MAX {
                gid
            } else {
                m.gid
            },
            ..m
        },
        None => m,
    }
}

/// The metadata with the permission bits of `mode`. A file type in `mode` must
/// be the file's own.
pub open spec fn with_mode(m: MetadataView, mode: Option<u32>) -> Option<MetadataView> {
    match mode {
        Some(mode) => if mode & S_IFMT != 0 && mode & S_IFMT != m.mode & S_IFMT {
            None
        } else {
            Some(MetadataView { mode: (m.mode & S_IFMT) | (mode & !S_IFMT), ..m })
        },
        None => Some(m),
    }
}

/// The metadata after a change, or nothing where the change is refused.
pub open spec fn changed(m: MetadataView, change: Change) -> Option<MetadataView> {
    match with_mode(with_owner(m, change.owner), change.mode) {
        Some(n) => Some(
            MetadataView {
                mode: if change.clear_mode_privileges {
                    unprivileged(n.mode)
                } else {
                    n.mode
                },
                capability: if change.clear_capability {
                    None
                } else {
                    n.capability
                },
                ..n
            },
        ),
        None => None,
    }
}

/// What is done about a change, once the record has been read.
pub open spec fn settling(
    config: SandboxConfig,
    at: Node,
    st: Stat,
    existing: Option<MetadataView>,
    change: Change,
    log: Seq<Reply>,
    pos: int,
) -> StepView<()> {
    let original = match existing {
        Some(m) => m,
        None => native_metadata(config.identity, st.uid, st.gid, st.full_mode()),
    };
    match changed(original, change) {
        None => StepView::Fail(LINUX_EINVAL, pos),
        Some(m) => if existing is None && m == original && (!change.persist_unchanged
            || !config.xattrs_enabled) {
            StepView::Done((), pos)
        } else if existing is None && !config.xattrs_enabled {
            StepView::Fail(LINUX_EOPNOTSUPP, pos)
        } else {
            writing(at, st, m, log, pos)
        },
    }
}

/// Changing the metadata of a file: its host attributes, its record, and the
/// new record where one is needed. `given` stands for the host attributes where
/// they are known, although they are asked for again.
pub open spec fn updating(
    config: SandboxConfig,
    at: Node,
    given: Option<Stat>,
    change: Change,
    log: Seq<Reply>,
    pos: int,
) -> StepView<()> {
    if pos >= log.len() {
        StepView::Call(CallView::Do(Call::Stat { at }))
    } else {
        match stat_of(log[pos]) {
            Err(error) => StepView::Fail(error.linux, pos + 1),
            Ok(host) => {
                let st = match given {
                    Some(st) => st,
                    None => host,
                };
                match reading_for(config, at, st, log, pos + 1) {
                    StepView::Call(call) => StepView::Call(call),
                    StepView::Fail(error, next) => StepView::Fail(error, next),
                    StepView::Done(existing, next) => settling(
                        config,
                        at,
                        st,
                        existing,
                        change,
                        log,
                        next,
                    ),
                }
            },
        }
    }
}

/// Applies a change to metadata.
fn apply_change(mut m: GuestMetadata, change: Change) -> (r: Option<GuestMetadata>)
    ensures
        record_view(r) == changed(m@, change),
{
    if let Some((uid, gid)) = change.owner {
        if uid != u32::MAX {
            m.uid = uid;
        }
        if gid != u32::MAX {
            m.gid = gid;
        }
    }
    if let Some(mode) = change.mode {
        let requested: u32 = mode & S_IFMT;
        let current: u32 = m.mode & S_IFMT;
        if requested != 0 && requested != current {
            return None;
        }
        m.mode = current | (mode & !S_IFMT);
    }
    if change.clear_capability {
        m.capability = None;
    }
    if change.clear_mode_privileges {
        m.mode = clear_suid_sgid(m.mode);
    }
    Some(m)
}

/// Changes the metadata of a file.
pub fn update_sandbox_metadata(
    config: SandboxConfig,
    at: Node,
    given: Option<Stat>,
    change: Change,
    log: &Vec<Reply>,
    pos: usize,
) -> (r: Step<()>)
    ensures
        r@ == updating(config, at, given, change, log@, pos as int),
{
    if pos >= log.len() {
        return Step::Call(HostCall::Do(Call::Stat { at }));
    }
    let host: Stat = match log[pos].stat() {
        Err(error) => return Step::Fail(error.linux, pos + 1),
        Ok(host) => host,
    };
    let st: Stat = match given {
        Some(st) => st,
        None => host,
    };
    let (stored, next) = match read_sandbox_metadata_for_config(at, st, config, log, pos + 1) {
        Step::Call(call) => return Step::Call(call),
        Step::Fail(error, next) => return Step::Fail(error, next),
        Step::Done(stored, next) => (stored, next),
    };
    match stored.record {
        Some(m) => match apply_change(m, change) {
            None => Step::Fail(LINUX_EINVAL, next),
            Some(m) => write_sandbox_metadata(at, st, &m, log, next),
        },
        None => {
            let original = GuestMetadata::from_native(
                config.identity,
                st.uid,
                st.gid,
                st.mode as u32,
            );
            let (uid, gid, mode): (u32, u32, u32) = (original.uid, original.gid, original.mode);
            match apply_change(original, change) {
                None => Step::Fail(LINUX_EINVAL, next),
                Some(m) => {
                    let unchanged: bool = m.uid == uid && m.gid == gid && m.mode == mode;
                    if unchanged && (!change.persist_unchanged || !config.xattrs_enabled) {
                        return Step::Done((), next);
                    }
                    if !config.xattrs_enabled {
                        return Step::Fail(LINUX_EOPNOTSUPP, next);
                    }
                    write_sandbox_metadata(at, st, &m, log, next)
                },
            }
        },
    }
}

/// The change that goes before the contents of a file change: its capability
/// goes, and its privileged mode bits where that was asked.
pub open spec fn content_change(clear_mode_privileges: bool) -> Change {
    Change {
        owner: None,
        mode: None,
        clear_capability: true,
        clear_mode_privileges,
        persist_unchanged: false,
    }
}

/// Takes a file's capability away, and where asked its privileged mode bits,
/// before its contents change.
pub fn prepare_sandbox_content_mutation(
    config: SandboxConfig,
    at: Node,
    clear_mode_privileges: bool,
    log: &Vec<Reply>,
    pos: usize,
) -> (r: Step<()>)
    ensures
        r@ == updating(config, at, None, content_change(clear_mode_privileges), log@, pos as int),
{
    update_sandbox_metadata(
        config,
        at,
        None,
        Change {
            owner: None,
            mode: None,
            clear_capability: true,
            clear_mode_privileges,
            persist_unchanged: false,
        },
        log,
        pos,
    )
}

/// The change that sets an owner and a mode, and leaves a record behind.
pub open spec fn stat_change(owner: Option<(u32, u32)>, mode: Option<u32>) -> Change {
    Change {
        owner,
        mode,
        clear_capability: false,
        clear_mode_privileges: false,
        persist_unchanged: true,
    }
}

/// Sets the owner and the mode of a file.
pub fn set_sandbox_stat(
    config: SandboxConfig,
    at: Node,
    given: Option<Stat>,
    owner: Option<(u32, u32)>,
    mode: Option<u32>,
    log: &Vec<Reply>,
    pos: usize,
) -> (r: Step<()>)
    ensures
        r@ == updating(config, at, given, stat_change(owner, mode), log@, pos as int),
{
    update_sandbox_metadata(
        config,
        at,
        given,
        Change {
            owner,
            mode,
            clear_capability: false,
            clear_mode_privileges: false,
            persist_unchanged: true,
        },
        log,
        pos,
    )
}

} // verus!
