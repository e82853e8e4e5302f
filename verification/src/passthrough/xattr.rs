//! Extended attributes.
//!
//! Outside a sandbox the guest's attributes are the host's, but for the host's
//! own, which are refused and not listed. The one that holds the Linux owner and
//! mode is not listed either, though a guest that knows its name reaches it. In a
//! sandbox a guest attribute stands behind a prefix, and a file capability is part
//! of the record.

use vstd::prelude::*;
use crate::abi::{
    ERANGE, LINUX_EACCES, LINUX_EEXIST, LINUX_EINVAL, LINUX_ENODATA, LINUX_ENOSYS, LINUX_EOPNOTSUPP,
    LINUX_ERANGE, LINUX_XATTR_CREATE, LINUX_XATTR_REPLACE, XATTR_CREATE, XATTR_REPLACE,
};
use crate::bytes::{
    append_bytes, bytes_equal, copy_bytes, has_prefix, split_bytes, split_fields, starts_with, views,
};
use crate::config::PermissionSemantics;
use crate::host::{
    bytes_of, count_of, run_single, single, stat_of, Attr, Call, CallView, HostCall, Node, Reply,
    Step, StepView, MACOS_XATTR_PREFIX, SECURITY_CAPABILITY, XATTR_KEY,
};
use crate::sandbox::{
    link_options, read_sandbox_metadata, reading, sandbox_xattr_options, write_sandbox_metadata,
    writing, Stored,
};
use crate::sandbox_metadata::{
    carrier_name, guest_name_from_carrier, is_capability, native_metadata, user_xattr_host_name,
    validate_capability, GuestMetadata, IdentityMapping, MetadataView, NameError,
    MAX_HOST_XATTR_NAME_LEN, USER_PREFIX,
};
use crate::stat::Stat;
use super::{FsView, PassthroughFs};

verus! {

/// The answer to a request for an attribute, or for the list of names: its size,
/// where the guest has no room, or its bytes.
#[derive(Debug, PartialEq, Eq)]
pub enum XattrReply {
    Count(u32),
    Value(Vec<u8>),
}

/// The contents of an `XattrReply`.
#[verifier::ext_equal]
pub enum XattrView {
    Count(u32),
    Value(Seq<u8>),
}

impl View for XattrReply {
    type V = XattrView;

    open spec fn view(&self) -> XattrView {
        match *self {
            XattrReply::Count(count) => XattrView::Count(count),
            XattrReply::Value(value) => XattrView::Value(value@),
        }
    }
}

/// The low half of a size, which is all that the protocol carries.
pub open spec fn size32(n: int) -> u32 {
    (n % 0x1_0000_0000) as u32
}

fn low_size(n: u64) -> (r: u32)
    ensures
        r == size32(n as int),
{
    (n % 0x1_0000_0000) as u32
}

/// Bytes as an answer to a guest with room for `size` bytes: their number where
/// it has none, and an error where they do not fit.
pub open spec fn fitting(value: Seq<u8>, size: u32, pos: int) -> StepView<XattrView> {
    if size == 0 {
        StepView::Done(XattrView::Count(size32(value.len() as int)), pos)
    } else if value.len() > size {
        StepView::Fail(LINUX_ERANGE, pos)
    } else {
        StepView::Done(XattrView::Value(value), pos)
    }
}

fn fit(value: Vec<u8>, size: u32, pos: usize) -> (r: Step<XattrReply>)
    ensures
        r@ == fitting(value@, size, pos as int),
{
    if size == 0 {
        return Step::Done(XattrReply::Count(low_size(value.len() as u64)), pos);
    }
    if value.len() as u64 > size as u64 {
        return Step::Fail(LINUX_ERANGE, pos);
    }
    Step::Done(XattrReply::Value(value), pos)
}

/// The name is that of the file capability.
pub open spec fn names_capability(name: Seq<u8>) -> bool {
    name == SECURITY_CAPABILITY@.drop_last()
}

fn is_capability_name(name: &[u8]) -> (r: bool)
    ensures
        r == names_capability(name@),
{
    let whole: &[u8] = &SECURITY_CAPABILITY;
    let capability = vstd::slice::slice_subrange(whole, 0, whole.len() - 1);
    assert(capability@ =~= SECURITY_CAPABILITY@.drop_last());
    bytes_equal(name, capability)
}

/// Why the guest may not use an attribute of this name in a sandbox.
pub open spec fn carrier_error(name: Seq<u8>) -> Option<i32> {
    if !has_prefix(name, USER_PREFIX@) {
        Some(LINUX_EOPNOTSUPP)
    } else if carrier_name(name).len() > MAX_HOST_XATTR_NAME_LEN {
        Some(LINUX_ERANGE)
    } else {
        None
    }
}

fn check_carrier(name: &[u8]) -> (r: Option<i32>)
    ensures
        r == carrier_error(name@),
{
    match user_xattr_host_name(name) {
        Ok(_) => None,
        Err(NameError::TooLong) => Some(LINUX_ERANGE),
        Err(NameError::UnsupportedNamespace) => Some(LINUX_EOPNOTSUPP),
    }
}

/// The host's options for storing an attribute.
pub open spec fn store_options(flags: u32) -> u32 {
    let f = 0u32;
    let f = if flags & LINUX_XATTR_CREATE != 0 {
        f | XATTR_CREATE
    } else {
        f
    };
    if flags & LINUX_XATTR_REPLACE != 0 {
        f | XATTR_REPLACE
    } else {
        f
    }
}

fn host_store_options(flags: u32) -> (r: u32)
    ensures
        r == store_options(flags),
{
    let mut options: u32 = 0;
    if flags & LINUX_XATTR_CREATE != 0 {
        options = options | XATTR_CREATE;
    }
    if flags & LINUX_XATTR_REPLACE != 0 {
        options = options | XATTR_REPLACE;
    }
    options
}

/// A file of a sandbox: how it is addressed, its host attributes, and its
/// record.
pub struct Inspected {
    pub at: Node,
    pub st: Stat,
    pub stored: Stored,
}

/// The contents of an `Inspected`.
#[verifier::ext_equal]
pub struct InspectedView {
    pub at: Node,
    pub st: Stat,
    pub record: Option<MetadataView>,
}

impl View for Inspected {
    type V = InspectedView;

    open spec fn view(&self) -> InspectedView {
        InspectedView { at: self.at, st: self.st, record: self.stored@ }
    }
}

impl InspectedView {
    /// The file's metadata: that of its record, or the native one.
    pub open spec fn metadata(self, mapping: IdentityMapping) -> MetadataView {
        match self.record {
            Some(m) => m,
            None => native_metadata(mapping, self.st.uid, self.st.gid, self.st.full_mode()),
        }
    }

    /// The capability of the record.
    pub open spec fn capability(self) -> Option<Seq<u8>> {
        match self.record {
            Some(m) => m.capability,
            None => None,
        }
    }
}

/// Learning what a sandbox needs of a file before it touches an attribute.
pub open spec fn inspecting(fs: FsView, inode: u64, log: Seq<Reply>) -> StepView<InspectedView> {
    match fs.node_of(inode, true) {
        Err(error) => StepView::Fail(error, 0),
        Ok(at) => if log.len() == 0 {
            StepView::Call(CallView::Do(Call::Stat { at }))
        } else {
            match stat_of(log[0]) {
                Err(error) => StepView::Fail(error.linux, 1),
                Ok(st) => match reading(at, st, log, 1) {
                    StepView::Call(call) => StepView::Call(call),
                    StepView::Fail(error, next) => StepView::Fail(error, next),
                    StepView::Done(record, next) => StepView::Done(
                        InspectedView { at, st, record },
                        next,
                    ),
                },
            }
        },
    }
}

/// Storing a capability in the record of a file.
pub open spec fn storing_capability(
    mapping: IdentityMapping,
    file: InspectedView,
    value: Seq<u8>,
    flags: u32,
    log: Seq<Reply>,
    pos: int,
) -> StepView<()> {
    let m = file.metadata(mapping);
    if flags & LINUX_XATTR_CREATE != 0 && m.capability is Some {
        StepView::Fail(LINUX_EEXIST, pos)
    } else if flags & LINUX_XATTR_REPLACE != 0 && m.capability is None {
        StepView::Fail(LINUX_ENODATA, pos)
    } else {
        writing(file.at, file.st, MetadataView { capability: Some(value), ..m }, log, pos)
    }
}

/// Storing an attribute in a sandbox.
pub open spec fn sandbox_storing(
    fs: FsView,
    mapping: IdentityMapping,
    inode: u64,
    name: Seq<u8>,
    value: Seq<u8>,
    flags: u32,
    log: Seq<Reply>,
) -> StepView<()> {
    if names_capability(name) {
        if !is_capability(value) {
            StepView::Fail(LINUX_EINVAL, 0)
        } else {
            match inspecting(fs, inode, log) {
                StepView::Call(call) => StepView::Call(call),
                StepView::Fail(error, next) => StepView::Fail(error, next),
                StepView::Done(file, next) => storing_capability(
                    mapping,
                    file,
                    value,
                    flags,
                    log,
                    next,
                ),
            }
        }
    } else if carrier_error(name) is Some {
        StepView::Fail(carrier_error(name)->Some_0, 0)
    } else {
        match inspecting(fs, inode, log) {
            StepView::Call(call) => StepView::Call(call),
            StepView::Fail(error, next) => StepView::Fail(error, next),
            StepView::Done(file, next) => single(
                Call::SetAttr {
                    at: file.at,
                    attr: Attr::Carrier,
                    options: store_options(flags) | link_options(file.st),
                },
                log,
                next,
            ),
        }
    }
}

/// Why attributes are not served at all.
pub open spec fn xattr_refusal(fs: FsView) -> Option<i32> {
    if !fs.cfg.serves_xattr() {
        Some(LINUX_ENOSYS)
    } else {
        match fs.cfg.semantics {
            PermissionSemantics::Sandbox(config) => if config.xattrs_enabled {
                None
            } else {
                Some(LINUX_EOPNOTSUPP)
            },
            _ => None,
        }
    }
}

/// Why the guest may not use a host attribute of this name: it is the stored name
/// of the Linux owner and mode, terminator and all, which no name of a guest is,
/// or one of the host's own, for which `foreign` is the error.
pub open spec fn host_name_error(name: Seq<u8>, foreign: i32) -> Option<i32> {
    if name == XATTR_KEY@ {
        Some(LINUX_EACCES)
    } else if has_prefix(name, MACOS_XATTR_PREFIX@) {
        Some(foreign)
    } else {
        None
    }
}

fn check_host_name(name: &[u8], foreign: i32) -> (r: Option<i32>)
    ensures
        r == host_name_error(name@, foreign),
{
    if bytes_equal(name, &XATTR_KEY) {
        Some(LINUX_EACCES)
    } else if starts_with(name, &MACOS_XATTR_PREFIX) {
        Some(foreign)
    } else {
        None
    }
}

/// Storing the request's value in the attribute `name`.
pub open spec fn storing_xattr(
    fs: FsView,
    inode: u64,
    name: Seq<u8>,
    value: Seq<u8>,
    flags: u32,
    log: Seq<Reply>,
) -> StepView<()> {
    if xattr_refusal(fs) is Some {
        StepView::Fail(xattr_refusal(fs)->Some_0, 0)
    } else {
        match fs.cfg.semantics {
            PermissionSemantics::Sandbox(config) => sandbox_storing(
                fs,
                config.identity,
                inode,
                name,
                value,
                flags,
                log,
            ),
            _ => match host_name_error(name, LINUX_EOPNOTSUPP) {
                Some(error) => StepView::Fail(error, 0),
                None => match fs.node_of(inode, true) {
                    Err(error) => StepView::Fail(error, 0),
                    Ok(at) => single(
                        Call::SetAttr { at, attr: Attr::Guest, options: store_options(flags) },
                        log,
                        0,
                    ),
                },
            },
        }
    }
}

/// Reading an attribute for a guest with room for `size` bytes.
pub open spec fn fetching(
    at: Node,
    attr: Attr,
    size: u32,
    options: u32,
    log: Seq<Reply>,
    pos: int,
) -> StepView<XattrView> {
    if size == 0 {
        if pos >= log.len() {
            StepView::Call(CallView::Do(Call::AttrSize { at, attr, options }))
        } else {
            match count_of(log[pos]) {
                Err(error) => StepView::Fail(error.linux, pos + 1),
                Ok(count) => StepView::Done(XattrView::Count(size32(count as int)), pos + 1),
            }
        }
    } else if pos >= log.len() {
        StepView::Call(CallView::Do(Call::GetAttr { at, attr, size: size as u64, options }))
    } else {
        match bytes_of(log[pos]) {
            Err(error) => StepView::Fail(error.linux, pos + 1),
            Ok(value) => StepView::Done(XattrView::Value(value), pos + 1),
        }
    }
}

fn fetch(at: Node, attr: Attr, size: u32, options: u32, log: &Vec<Reply>, pos: usize) -> (r: Step<
    XattrReply,
>)
    ensures
        r@ == fetching(at, attr, size, options, log@, pos as int),
{
    if size == 0 {
        if pos >= log.len() {
            return Step::Call(HostCall::Do(Call::AttrSize { at, attr, options }));
        }
        return match log[pos].count() {
            Err(error) => Step::Fail(error.linux, pos + 1),
            Ok(count) => Step::Done(XattrReply::Count(low_size(count)), pos + 1),
        };
    }
    if pos >= log.len() {
        return Step::Call(HostCall::Do(Call::GetAttr { at, attr, size: size as u64, options }));
    }
    match log[pos].bytes() {
        Err(error) => Step::Fail(error.linux, pos + 1),
        Ok(value) => Step::Done(XattrReply::Value(copy_bytes(value.as_slice())), pos + 1),
    }
}

/// Reading an attribute in a sandbox.
pub open spec fn sandbox_fetching(
    fs: FsView,
    inode: u64,
    name: Seq<u8>,
    size: u32,
    log: Seq<Reply>,
) -> StepView<XattrView> {
    if names_capability(name) {
        match inspecting(fs, inode, log) {
            StepView::Call(call) => StepView::Call(call),
            StepView::Fail(error, next) => StepView::Fail(error, next),
            StepView::Done(file, next) => match file.capability() {
                None => StepView::Fail(LINUX_ENODATA, next),
                Some(capability) => fitting(capability, size, next),
            },
        }
    } else if carrier_error(name) is Some {
        StepView::Fail(carrier_error(name)->Some_0, 0)
    } else {
        match inspecting(fs, inode, log) {
            StepView::Call(call) => StepView::Call(call),
            StepView::Fail(error, next) => StepView::Fail(error, next),
            StepView::Done(file, next) => fetching(
                file.at,
                Attr::Carrier,
                size,
                link_options(file.st),
                log,
                next,
            ),
        }
    }
}

/// Reading the attribute `name`.
pub open spec fn fetching_xattr(
    fs: FsView,
    inode: u64,
    name: Seq<u8>,
    size: u32,
    log: Seq<Reply>,
) -> StepView<XattrView> {
    if xattr_refusal(fs) is Some {
        StepView::Fail(xattr_refusal(fs)->Some_0, 0)
    } else if fs.cfg.semantics.sandboxed() {
        sandbox_fetching(fs, inode, name, size, log)
    } else {
        match host_name_error(name, LINUX_ENODATA) {
            Some(error) => StepView::Fail(error, 0),
            None => match fs.node_of(inode, true) {
                Err(error) => StepView::Fail(error, 0),
                Ok(at) => fetching(at, Attr::Guest, size, 0, log, 0),
            },
        }
    }
}

/// Removing an attribute in a sandbox.
pub open spec fn sandbox_removing(
    fs: FsView,
    inode: u64,
    name: Seq<u8>,
    log: Seq<Reply>,
) -> StepView<()> {
    if names_capability(name) {
        match inspecting(fs, inode, log) {
            StepView::Call(call) => StepView::Call(call),
            StepView::Fail(error, next) => StepView::Fail(error, next),
            StepView::Done(file, next) => match file.record {
                None => StepView::Fail(LINUX_ENODATA, next),
                Some(m) => if m.capability is None {
                    StepView::Fail(LINUX_ENODATA, next)
                } else {
                    writing(file.at, file.st, MetadataView { capability: None, ..m }, log, next)
                },
            },
        }
    } else if carrier_error(name) is Some {
        StepView::Fail(carrier_error(name)->Some_0, 0)
    } else {
        match inspecting(fs, inode, log) {
            StepView::Call(call) => StepView::Call(call),
            StepView::Fail(error, next) => StepView::Fail(error, next),
            StepView::Done(file, next) => single(
                Call::RemoveAttr {
                    at: file.at,
                    attr: Attr::Carrier,
                    options: link_options(file.st),
                },
                log,
                next,
            ),
        }
    }
}

/// Removing the attribute `name`.
pub open spec fn removing_xattr(
    fs: FsView,
    inode: u64,
    name: Seq<u8>,
    log: Seq<Reply>,
) -> StepView<()> {
    if xattr_refusal(fs) is Some {
        StepView::Fail(xattr_refusal(fs)->Some_0, 0)
    } else if fs.cfg.semantics.sandboxed() {
        sandbox_removing(fs, inode, name, log)
    } else {
        match host_name_error(name, LINUX_ENODATA) {
            Some(error) => StepView::Fail(error, 0),
            None => match fs.node_of(inode, true) {
                Err(error) => StepView::Fail(error, 0),
                Ok(at) => single(
                    Call::RemoveAttr { at, attr: Attr::Guest, options: 0 },
                    log,
                    0,
                ),
            },
        }
    }
}

/// How many bytes of names the host is asked for.
pub const LIST_SIZE: u64 = 512;

/// The attribute holds the Linux owner and mode.
pub open spec fn is_override(name: Seq<u8>) -> bool {
    has_prefix(name, XATTR_KEY@.drop_last())
}

/// The attribute is one of the host's own.
pub open spec fn is_foreign(name: Seq<u8>) -> bool {
    has_prefix(name, MACOS_XATTR_PREFIX@)
}

/// What the guest does not see takes this many bytes of the list.
pub open spec fn hidden_size(name: Seq<u8>) -> nat {
    if is_override(name) {
        XATTR_KEY@.len()
    } else if is_foreign(name) {
        name.len() + 1
    } else {
        0
    }
}

/// What is left of `total` bytes without what the guest does not see. A list
/// that lacks its last terminator, which the host does not give, may leave
/// nothing.
pub open spec fn visible_size(names: Seq<Seq<u8>>, total: nat) -> nat
    decreases names.len(),
{
    if names.len() == 0 {
        total
    } else {
        let before = visible_size(names.drop_last(), total);
        let hidden = hidden_size(names.last());
        if hidden <= before {
            (before - hidden) as nat
        } else {
            0
        }
    }
}

/// The names that the guest sees, each with its terminator.
pub open spec fn visible_names(names: Seq<Seq<u8>>) -> Seq<u8>
    decreases names.len(),
{
    if names.len() == 0 {
        Seq::empty()
    } else {
        let before = visible_names(names.drop_last());
        let name = names.last();
        if name.len() == 0 || is_override(name) || is_foreign(name) {
            before
        } else {
            before + name.push(0)
        }
    }
}

/// The guest's names among the host's, each with its terminator.
pub open spec fn carried_names(names: Seq<Seq<u8>>) -> Seq<u8>
    decreases names.len(),
{
    if names.len() == 0 {
        Seq::empty()
    } else {
        let before = carried_names(names.drop_last());
        match carried(names.last()) {
            Some(guest) => before + guest.push(0),
            None => before,
        }
    }
}

/// The guest's name of a host attribute, if it is a guest's.
pub open spec fn carried(name: Seq<u8>) -> Option<Seq<u8>> {
    if exists|guest: Seq<u8>| name == #[trigger] carrier_name(guest) && has_prefix(
        guest,
        USER_PREFIX@,
    ) {
        Some(
            choose|guest: Seq<u8>|
                name == #[trigger] carrier_name(guest) && has_prefix(guest, USER_PREFIX@),
        )
    } else {
        None
    }
}

/// The list of names in a sandbox.
pub open spec fn sandbox_names(raw: Seq<u8>, file: InspectedView) -> Seq<u8> {
    let names = carried_names(split_fields(raw, 0));
    if file.capability() is Some {
        names + SECURITY_CAPABILITY@
    } else {
        names
    }
}

/// Listing the host's names: their size, then the names, and again from the
/// start if they grew in between.
pub open spec fn gathering(at: Node, options: u32, log: Seq<Reply>, pos: int) -> StepView<Seq<u8>>
    decreases log.len() - pos,
{
    if pos >= log.len() {
        StepView::Call(CallView::Do(Call::ListSize { at, options }))
    } else {
        match count_of(log[pos]) {
            Err(error) => StepView::Fail(error.linux, pos + 1),
            Ok(size) => if pos + 1 >= log.len() {
                StepView::Call(CallView::Do(Call::ListAttrs { at, size, options }))
            } else {
                match bytes_of(log[pos + 1]) {
                    Err(error) => if error.raw == ERANGE {
                        gathering(at, options, log, pos + 2)
                    } else {
                        StepView::Fail(error.linux, pos + 2)
                    },
                    Ok(raw) => StepView::Done(raw, pos + 2),
                }
            },
        }
    }
}

/// Listing names in a sandbox.
pub open spec fn sandbox_listing(fs: FsView, inode: u64, size: u32, log: Seq<Reply>) -> StepView<
    XattrView,
> {
    match inspecting(fs, inode, log) {
        StepView::Call(call) => StepView::Call(call),
        StepView::Fail(error, next) => StepView::Fail(error, next),
        StepView::Done(file, next) => match gathering(file.at, link_options(file.st), log, next) {
            StepView::Call(call) => StepView::Call(call),
            StepView::Fail(error, next) => StepView::Fail(error, next),
            StepView::Done(raw, next) => fitting(sandbox_names(raw, file), size, next),
        },
    }
}

/// The host's list of names as an answer to the guest.
pub open spec fn host_list(raw: Seq<u8>, size: u32, pos: int) -> StepView<XattrView> {
    let names = split_fields(raw, 0);
    if size == 0 {
        StepView::Done(XattrView::Count(size32(visible_size(names, raw.len()) as int)), pos)
    } else if visible_names(names).len() > size {
        StepView::Fail(LINUX_ERANGE, pos)
    } else {
        StepView::Done(XattrView::Value(visible_names(names)), pos)
    }
}

/// Listing names.
pub open spec fn listing_xattr(fs: FsView, inode: u64, size: u32, log: Seq<Reply>) -> StepView<
    XattrView,
> {
    if xattr_refusal(fs) is Some {
        StepView::Fail(xattr_refusal(fs)->Some_0, 0)
    } else if fs.cfg.semantics.sandboxed() {
        sandbox_listing(fs, inode, size, log)
    } else {
        match fs.node_of(inode, true) {
            Err(error) => StepView::Fail(error, 0),
            Ok(at) => if log.len() == 0 {
                StepView::Call(CallView::Do(Call::ListAttrs { at, size: LIST_SIZE, options: 0 }))
            } else {
                match bytes_of(log[0]) {
                    Err(error) => StepView::Fail(error.linux, 1),
                    Ok(raw) => host_list(raw, size, 1),
                }
            },
        }
    }
}

/// A list of names as the host gives it: each name, not empty and without a NUL,
/// with its terminator.
pub open spec fn name_list(names: Seq<Seq<u8>>) -> Seq<u8>
    decreases names.len(),
{
    if names.len() == 0 {
        Seq::empty()
    } else {
        name_list(names.drop_last()) + names.last().push(0)
    }
}

/// The fields of a list of names are the names, and an empty field behind the
/// last terminator.
pub(crate) proof fn lemma_name_list_fields(names: Seq<Seq<u8>>)
    requires
        forall|i: int| 0 <= i < names.len() ==> !(#[trigger] names[i]).contains(0u8),
    ensures
        split_fields(name_list(names), 0) == names.push(Seq::empty()),
    decreases names.len(),
{
    if names.len() == 0 {
        assert(names.push(Seq::empty()) =~= seq![Seq::<u8>::empty()]);
    } else {
        let before = names.drop_last();
        assert forall|i: int| 0 <= i < before.len() implies !(#[trigger] before[i]).contains(
            0u8,
        ) by {
            assert(before[i] == names[i]);
        }
        lemma_name_list_fields(before);
        lemma_append_field(name_list(before), names.last(), before);
        let text = name_list(before) + names.last();
        assert(name_list(names) =~= text.push(0));
        assert(name_list(names).drop_last() =~= text);
        assert(names.push(Seq::empty()) =~= before.push(names.last()).push(Seq::empty()));
    }
}

/// Bytes without a separator go to the last field.
proof fn lemma_append_field(s: Seq<u8>, name: Seq<u8>, before: Seq<Seq<u8>>)
    requires
        split_fields(s, 0) == before.push(Seq::empty()),
        !name.contains(0u8),
    ensures
        split_fields(s + name, 0) == before.push(name),
    decreases name.len(),
{
    if name.len() == 0 {
        assert(s + name =~= s);
        assert(name =~= Seq::empty());
    } else {
        let init = name.drop_last();
        assert(name.contains(name[name.len() - 1]));
        assert forall|j: int| 0 <= j < init.len() implies init[j] != 0 by {
            assert(name.contains(name[j]));
        }
        lemma_append_field(s, init, before);
        assert((s + name).drop_last() =~= s + init);
        assert((s + name).last() == name.last());
        assert(before.push(init).drop_last() =~= before);
        assert(init.push(name.last()) =~= name);
    }
}

/// The size that the guest is told is the size of the list that it then gets.
/// The only exception is an attribute whose name goes on behind that of the
/// Linux owner and mode: it is hidden as a whole, but counted as if it did not
/// go on.
pub proof fn count_is_size_of_list(names: Seq<Seq<u8>>)
    requires
        forall|i: int|
            0 <= i < names.len() ==> !(#[trigger] names[i]).contains(0u8) && names[i].len() > 0,
        forall|i: int|
            0 <= i < names.len() && is_override(#[trigger] names[i]) ==> names[i].len() + 1
                == XATTR_KEY@.len(),
    ensures
        visible_size(split_fields(name_list(names), 0), name_list(names).len())
            == visible_names(split_fields(name_list(names), 0)).len(),
{
    lemma_name_list_fields(names);
    lemma_count(names, name_list(names).len(), 0);
    let fields = names.push(Seq::empty());
    assert(fields.drop_last() =~= names);
    assert(!is_override(Seq::empty()) && !is_foreign(Seq::empty()));
}

/// Taking the hidden names off a total that has `rest` bytes beyond the names
/// leaves the visible ones and the rest.
proof fn lemma_count(names: Seq<Seq<u8>>, total: nat, rest: nat)
    requires
        forall|i: int|
            0 <= i < names.len() ==> (#[trigger] names[i]).len() > 0,
        forall|i: int|
            0 <= i < names.len() && is_override(#[trigger] names[i]) ==> names[i].len() + 1
                == XATTR_KEY@.len(),
        total == name_list(names).len() + rest,
    ensures
        visible_size(names, total) == visible_names(names).len() + rest,
    decreases names.len(),
{
    if names.len() > 0 {
        let before = names.drop_last();
        assert(names.last() == names[names.len() - 1]);
        assert forall|i: int| 0 <= i < before.len() implies (#[trigger] before[i]).len() > 0 by {
            assert(before[i] == names[i]);
        }
        assert forall|i: int|
            0 <= i < before.len() && is_override(#[trigger] before[i]) implies before[i].len() + 1
            == XATTR_KEY@.len() by {
            assert(before[i] == names[i]);
        }
        lemma_count(before, total, rest + names.last().len() + 1);
    }
}

/// A guest's name behind the carrier prefix leads back to the name.
pub proof fn carried_is_inverse(guest: Seq<u8>)
    requires
        has_prefix(guest, USER_PREFIX@),
    ensures
        carried(carrier_name(guest)) == Some(guest),
{
    let name = carrier_name(guest);
    let found = choose|other: Seq<u8>|
        name == #[trigger] carrier_name(other) && has_prefix(other, USER_PREFIX@);
    crate::sandbox_metadata::carrier_names_are_distinct(found, guest);
}

/// The guest's names among the host's.
fn carried_list(raw: &Vec<u8>) -> (r: Vec<u8>)
    ensures
        r@ == carried_names(split_fields(raw@, 0)),
{
    let fields = split_bytes(raw.as_slice(), 0);
    let ghost names = split_fields(raw@, 0);
    let mut out: Vec<u8> = Vec::new();
    let mut i: usize = 0;
    while i < fields.len()
        invariant
            i <= fields.len(),
            names == views(fields@),
            out@ == carried_names(names.take(i as int)),
        decreases fields.len() - i,
    {
        let ghost taken = names.take(i + 1);
        assert(taken.drop_last() =~= names.take(i as int));
        assert(taken.last() == fields@[i as int]@);
        if let Some(guest) = guest_name_from_carrier(fields[i].as_slice()) {
            if starts_with(guest, &USER_PREFIX) {
                proof {
                    carried_is_inverse(guest@);
                }
                let ghost before = out@;
                append_bytes(&mut out, guest);
                out.push(0);
                assert(out@ =~= before + guest@.push(0));
            } else {
                proof {
                    assert forall|other: Seq<u8>|
                        fields@[i as int]@ == #[trigger] carrier_name(other) implies other
                        == guest@ by {
                        crate::sandbox_metadata::carrier_names_are_distinct(other, guest@);
                    }
                }
            }
        }
        i = i + 1;
    }
    assert(names.take(i as int) =~= names);
    out
}

/// What is left of the size of the host's list.
fn count_visible(raw: &Vec<u8>) -> (r: usize)
    ensures
        r == visible_size(split_fields(raw@, 0), raw@.len()),
{
    let whole: &[u8] = &XATTR_KEY;
    let own = vstd::slice::slice_subrange(whole, 0, whole.len() - 1);
    assert(own@ =~= XATTR_KEY@.drop_last());
    let fields = split_bytes(raw.as_slice(), 0);
    let ghost names = split_fields(raw@, 0);
    let mut left: usize = raw.len();
    let mut i: usize = 0;
    while i < fields.len()
        invariant
            i <= fields.len(),
            names == views(fields@),
            own@ == XATTR_KEY@.drop_last(),
            left == visible_size(names.take(i as int), raw@.len()),
        decreases fields.len() - i,
    {
        let ghost taken = names.take(i + 1);
        assert(taken.drop_last() =~= names.take(i as int));
        assert(taken.last() == fields@[i as int]@);
        let name = fields[i].as_slice();
        if starts_with(name, own) {
            left = left.saturating_sub(XATTR_KEY.len());
        } else if starts_with(name, &MACOS_XATTR_PREFIX) {
            left = left.saturating_sub(name.len()).saturating_sub(1);
        }
        i = i + 1;
    }
    assert(names.take(i as int) =~= names);
    left
}

/// The names that the guest sees of the host's list.
fn visible_list(raw: &Vec<u8>) -> (r: Vec<u8>)
    ensures
        r@ == visible_names(split_fields(raw@, 0)),
{
    let whole: &[u8] = &XATTR_KEY;
    let own = vstd::slice::slice_subrange(whole, 0, whole.len() - 1);
    assert(own@ =~= XATTR_KEY@.drop_last());
    let fields = split_bytes(raw.as_slice(), 0);
    let ghost names = split_fields(raw@, 0);
    let mut out: Vec<u8> = Vec::new();
    let mut i: usize = 0;
    while i < fields.len()
        invariant
            i <= fields.len(),
            names == views(fields@),
            own@ == XATTR_KEY@.drop_last(),
            out@ == visible_names(names.take(i as int)),
        decreases fields.len() - i,
    {
        let ghost taken = names.take(i + 1);
        assert(taken.drop_last() =~= names.take(i as int));
        assert(taken.last() == fields@[i as int]@);
        let name = fields[i].as_slice();
        if name.len() != 0 && !starts_with(name, own) && !starts_with(name, &MACOS_XATTR_PREFIX) {
            let ghost before = out@;
            append_bytes(&mut out, name);
            out.push(0);
            assert(out@ =~= before + name@.push(0));
        }
        i = i + 1;
    }
    assert(names.take(i as int) =~= names);
    out
}

/// Bytes of the host.
pub struct RawList {
    pub bytes: Vec<u8>,
}

impl View for RawList {
    type V = Seq<u8>;

    open spec fn view(&self) -> Seq<u8> {
        self.bytes@
    }
}

fn gather(at: Node, options: u32, log: &Vec<Reply>, from: usize) -> (r: Step<RawList>)
    ensures
        r@ == gathering(at, options, log@, from as int),
{
    let mut pos: usize = from;
    loop
        invariant
            gathering(at, options, log@, from as int) == gathering(at, options, log@, pos as int),
        decreases log.len() - pos,
    {
        if pos >= log.len() {
            return Step::Call(HostCall::Do(Call::ListSize { at, options }));
        }
        let size: u64 = match log[pos].count() {
            Err(error) => return Step::Fail(error.linux, pos + 1),
            Ok(size) => size,
        };
        if pos + 1 >= log.len() {
            return Step::Call(HostCall::Do(Call::ListAttrs { at, size, options }));
        }
        match log[pos + 1].bytes() {
            Err(error) => {
                if error.raw != ERANGE {
                    return Step::Fail(error.linux, pos + 2);
                }
            },
            Ok(raw) => {
                return Step::Done(RawList { bytes: copy_bytes(raw.as_slice()) }, pos + 2);
            },
        }
        pos = pos + 2;
    }
}

impl PassthroughFs {
    fn check_xattr(&self) -> (r: Option<i32>)
        ensures
            r == xattr_refusal(self@),
    {
        if !self.cfg.xattr_supported() {
            return Some(LINUX_ENOSYS);
        }
        match self.cfg.semantics {
            PermissionSemantics::Sandbox(config) => if config.xattrs_enabled {
                None
            } else {
                Some(LINUX_EOPNOTSUPP)
            },
            _ => None,
        }
    }

    fn sandbox_inode_metadata(&self, inode: u64, log: &Vec<Reply>) -> (r: Step<Inspected>)
        ensures
            r@ == inspecting(self@, inode, log@),
    {
        let at = match self.inode_to_handle(inode, true) {
            Err(error) => return Step::Fail(error, 0),
            Ok(at) => at,
        };
        if log.len() == 0 {
            return Step::Call(HostCall::Do(Call::Stat { at }));
        }
        let st: Stat = match log[0].stat() {
            Err(error) => return Step::Fail(error.linux, 1),
            Ok(st) => st,
        };
        match read_sandbox_metadata(at, st, log, 1) {
            Step::Call(call) => Step::Call(call),
            Step::Fail(error, next) => Step::Fail(error, next),
            Step::Done(stored, next) => Step::Done(Inspected { at, st, stored }, next),
        }
    }

    fn sandbox_setxattr(
        &self,
        mapping: IdentityMapping,
        inode: u64,
        name: &[u8],
        value: &[u8],
        flags: u32,
        log: &Vec<Reply>,
    ) -> (r: Step<()>)
        ensures
            r@ == sandbox_storing(self@, mapping, inode, name@, value@, flags, log@),
    {
        let capability: bool = is_capability_name(name);
        if capability {
            if !validate_capability(value) {
                return Step::Fail(LINUX_EINVAL, 0);
            }
        } else if let Some(error) = check_carrier(name) {
            return Step::Fail(error, 0);
        }
        let (file, next) = match self.sandbox_inode_metadata(inode, log) {
            Step::Call(call) => return Step::Call(call),
            Step::Fail(error, next) => return Step::Fail(error, next),
            Step::Done(file, next) => (file, next),
        };
        if !capability {
            let options: u32 = host_store_options(flags) | sandbox_xattr_options(file.st);
            return run_single(
                Call::SetAttr { at: file.at, attr: Attr::Carrier, options },
                log,
                next,
            );
        }
        let ghost seen = file@;
        let (at, st) = (file.at, file.st);
        let mut metadata = match file.stored.record {
            Some(m) => m,
            None => GuestMetadata::from_native(mapping, st.uid, st.gid, st.mode as u32),
        };
        assert(metadata@ == seen.metadata(mapping));
        if flags & LINUX_XATTR_CREATE != 0 && metadata.capability.is_some() {
            return Step::Fail(LINUX_EEXIST, next);
        }
        if flags & LINUX_XATTR_REPLACE != 0 && metadata.capability.is_none() {
            return Step::Fail(LINUX_ENODATA, next);
        }
        metadata.capability = Some(copy_bytes(value));
        write_sandbox_metadata(at, st, &metadata, log, next)
    }

    /// Stores the request's value in the attribute `name`.
    pub fn setxattr(
        &self,
        inode: u64,
        name: &[u8],
        value: &[u8],
        flags: u32,
        log: &Vec<Reply>,
    ) -> (r: Step<()>)
        ensures
            r@ == storing_xattr(self@, inode, name@, value@, flags, log@),
    {
        if let Some(error) = self.check_xattr() {
            return Step::Fail(error, 0);
        }
        if let PermissionSemantics::Sandbox(config) = self.cfg.semantics {
            return self.sandbox_setxattr(config.identity, inode, name, value, flags, log);
        }
        if let Some(error) = check_host_name(name, LINUX_EOPNOTSUPP) {
            return Step::Fail(error, 0);
        }
        match self.inode_to_handle(inode, true) {
            Err(error) => Step::Fail(error, 0),
            Ok(at) => run_single(
                Call::SetAttr { at, attr: Attr::Guest, options: host_store_options(flags) },
                log,
                0,
            ),
        }
    }

    fn sandbox_getxattr(&self, inode: u64, name: &[u8], size: u32, log: &Vec<Reply>) -> (r: Step<
        XattrReply,
    >)
        ensures
            r@ == sandbox_fetching(self@, inode, name@, size, log@),
    {
        let capability: bool = is_capability_name(name);
        if !capability {
            if let Some(error) = check_carrier(name) {
                return Step::Fail(error, 0);
            }
        }
        let (file, next) = match self.sandbox_inode_metadata(inode, log) {
            Step::Call(call) => return Step::Call(call),
            Step::Fail(error, next) => return Step::Fail(error, next),
            Step::Done(file, next) => (file, next),
        };
        if !capability {
            return fetch(file.at, Attr::Carrier, size, sandbox_xattr_options(file.st), log, next);
        }
        match file.stored.record {
            None => Step::Fail(LINUX_ENODATA, next),
            Some(m) => match m.capability {
                None => Step::Fail(LINUX_ENODATA, next),
                Some(capability) => fit(capability, size, next),
            },
        }
    }

    /// Reads the attribute `name`, for a guest with room for `size` bytes.
    pub fn getxattr(&self, inode: u64, name: &[u8], size: u32, log: &Vec<Reply>) -> (r: Step<
        XattrReply,
    >)
        ensures
            r@ == fetching_xattr(self@, inode, name@, size, log@),
    {
        if let Some(error) = self.check_xattr() {
            return Step::Fail(error, 0);
        }
        if self.cfg.semantics.is_sandbox() {
            return self.sandbox_getxattr(inode, name, size, log);
        }
        if let Some(error) = check_host_name(name, LINUX_ENODATA) {
            return Step::Fail(error, 0);
        }
        match self.inode_to_handle(inode, true) {
            Err(error) => Step::Fail(error, 0),
            Ok(at) => fetch(at, Attr::Guest, size, 0, log, 0),
        }
    }

    fn sandbox_listxattr(&self, inode: u64, size: u32, log: &Vec<Reply>) -> (r: Step<XattrReply>)
        ensures
            r@ == sandbox_listing(self@, inode, size, log@),
    {
        let (file, next) = match self.sandbox_inode_metadata(inode, log) {
            Step::Call(call) => return Step::Call(call),
            Step::Fail(error, next) => return Step::Fail(error, next),
            Step::Done(file, next) => (file, next),
        };
        let (raw, next) = match gather(file.at, sandbox_xattr_options(file.st), log, next) {
            Step::Call(call) => return Step::Call(call),
            Step::Fail(error, next) => return Step::Fail(error, next),
            Step::Done(raw, next) => (raw, next),
        };
        let mut names = carried_list(&raw.bytes);
        let capable: bool = match &file.stored.record {
            Some(m) => m.capability.is_some(),
            None => false,
        };
        if capable {
            append_bytes(&mut names, &SECURITY_CAPABILITY);
        }
        assert(names@ == sandbox_names(raw@, file@));
        fit(names, size, next)
    }

    /// Lists the names of the attributes, for a guest with room for `size` bytes.
    pub fn listxattr(&self, inode: u64, size: u32, log: &Vec<Reply>) -> (r: Step<XattrReply>)
        ensures
            r@ == listing_xattr(self@, inode, size, log@),
    {
        if let Some(error) = self.check_xattr() {
            return Step::Fail(error, 0);
        }
        if self.cfg.semantics.is_sandbox() {
            return self.sandbox_listxattr(inode, size, log);
        }
        let at = match self.inode_to_handle(inode, true) {
            Err(error) => return Step::Fail(error, 0),
            Ok(at) => at,
        };
        if log.len() == 0 {
            return Step::Call(HostCall::Do(Call::ListAttrs { at, size: LIST_SIZE, options: 0 }));
        }
        let raw = match log[0].bytes() {
            Err(error) => return Step::Fail(error.linux, 1),
            Ok(raw) => raw,
        };
        if size == 0 {
            return Step::Done(XattrReply::Count(low_size(count_visible(raw) as u64)), 1);
        }
        let names = visible_list(raw);
        if names.len() as u64 > size as u64 {
            Step::Fail(LINUX_ERANGE, 1)
        } else {
            Step::Done(XattrReply::Value(names), 1)
        }
    }

    fn sandbox_removexattr(&self, inode: u64, name: &[u8], log: &Vec<Reply>) -> (r: Step<()>)
        ensures
            r@ == sandbox_removing(self@, inode, name@, log@),
    {
        let capability: bool = is_capability_name(name);
        if !capability {
            if let Some(error) = check_carrier(name) {
                return Step::Fail(error, 0);
            }
        }
        let (file, next) = match self.sandbox_inode_metadata(inode, log) {
            Step::Call(call) => return Step::Call(call),
            Step::Fail(error, next) => return Step::Fail(error, next),
            Step::Done(file, next) => (file, next),
        };
        let (at, st) = (file.at, file.st);
        if !capability {
            return run_single(
                Call::RemoveAttr { at, attr: Attr::Carrier, options: sandbox_xattr_options(st) },
                log,
                next,
            );
        }
        match file.stored.record {
            None => Step::Fail(LINUX_ENODATA, next),
            Some(m) => {
                if m.capability.is_none() {
                    return Step::Fail(LINUX_ENODATA, next);
                }
                let mut metadata = m;
                metadata.capability = None;
                write_sandbox_metadata(at, st, &metadata, log, next)
            },
        }
    }

    /// Removes the attribute `name`.
    pub fn removexattr(&self, inode: u64, name: &[u8], log: &Vec<Reply>) -> (r: Step<()>)
        ensures
            r@ == removing_xattr(self@, inode, name@, log@),
    {
        if let Some(error) = self.check_xattr() {
            return Step::Fail(error, 0);
        }
        if self.cfg.semantics.is_sandbox() {
            return self.sandbox_removexattr(inode, name, log);
        }
        if let Some(error) = check_host_name(name, LINUX_ENODATA) {
            return Step::Fail(error, 0);
        }
        match self.inode_to_handle(inode, true) {
            Err(error) => Step::Fail(error, 0),
            Ok(at) => run_single(
                Call::RemoveAttr { at, attr: Attr::Guest, options: 0 },
                log,
                0,
            ),
        }
    }
}

} // verus!
