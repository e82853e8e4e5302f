//! What requests on extended attributes ask of the host, and what the guest is
//! answered, call by call.

use vstd::prelude::*;
use crate::bytes::{has_prefix, split_fields};
use crate::config::PermissionSemantics;
use crate::host::{
    Attr, Call, CallView, HostError, Reply, StepView, MACOS_XATTR_PREFIX, SECURITY_CAPABILITY,
    XATTR_KEY,
};
use crate::sandbox_metadata::{
    carrier_name, is_capability, record_of, MetadataView, USER_PREFIX, USER_XATTR_CARRIER_PREFIX,
    XATTR_NAME_C,
};
use crate::stat::Stat;
use super::attribute_laws::{mapped, stores_record};
use super::effects::reached;
use super::xattr::{
    carried, carried_is_inverse, carried_names, fetching_xattr, inspecting, lemma_name_list_fields,
    listing_xattr, name_list, names_capability, removing_xattr, sandbox_names, storing_xattr,
    visible_names, InspectedView, XattrView,
};
use super::FsView;

verus! {

/// The bytes of `com.apple.`, behind which the host has its own attributes.
pub open spec fn foreign_prefix() -> Seq<u8> {
    seq![0x63u8, 0x6f, 0x6d, 0x2e, 0x61, 0x70, 0x70, 0x6c, 0x65, 0x2e]
}

/// The bytes of `user.`, behind which a guest has attributes in a sandbox.
pub open spec fn guest_prefix() -> Seq<u8> {
    seq![0x75u8, 0x73, 0x65, 0x72, 0x2e]
}

/// The bytes of `user.virtiofs.`, behind which a sandbox has the guest's.
pub open spec fn carrier_prefix() -> Seq<u8> {
    seq![0x75u8, 0x73, 0x65, 0x72, 0x2e, 0x76, 0x69, 0x72, 0x74, 0x69, 0x6f, 0x66, 0x73, 0x2e]
}

/// The bytes of `security.capability`.
pub open spec fn capability_bytes() -> Seq<u8> {
    seq![
        0x73u8,
        0x65,
        0x63,
        0x75,
        0x72,
        0x69,
        0x74,
        0x79,
        0x2e,
        0x63,
        0x61,
        0x70,
        0x61,
        0x62,
        0x69,
        0x6c,
        0x69,
        0x74,
        0x79,
    ]
}

/// The bytes of `user.containers.override_stat`.
pub open spec fn override_bytes() -> Seq<u8> {
    guest_prefix() + seq![
        0x63u8,
        0x6f,
        0x6e,
        0x74,
        0x61,
        0x69,
        0x6e,
        0x65,
        0x72,
        0x73,
        0x2e,
        0x6f,
        0x76,
        0x65,
        0x72,
        0x72,
        0x69,
        0x64,
        0x65,
        0x5f,
        0x73,
        0x74,
        0x61,
        0x74,
    ]
}

/// The bytes of `user.torkbot.sandbox.metadata`.
pub open spec fn record_bytes() -> Seq<u8> {
    guest_prefix() + seq![
        0x74u8,
        0x6f,
        0x72,
        0x6b,
        0x62,
        0x6f,
        0x74,
        0x2e,
        0x73,
        0x61,
        0x6e,
        0x64,
        0x62,
        0x6f,
        0x78,
        0x2e,
        0x6d,
        0x65,
        0x74,
        0x61,
        0x64,
        0x61,
        0x74,
        0x61,
    ]
}

/// `name` starts with `prefix`.
pub open spec fn starts_with(name: Seq<u8>, prefix: Seq<u8>) -> bool {
    name.len() >= prefix.len() && name.subrange(0, prefix.len() as int) == prefix
}

proof fn lemma_names()
    ensures
        MACOS_XATTR_PREFIX@ == foreign_prefix(),
        USER_PREFIX@ == guest_prefix(),
        USER_XATTR_CARRIER_PREFIX@ == carrier_prefix(),
        SECURITY_CAPABILITY@ == capability_bytes().push(0),
        SECURITY_CAPABILITY@.drop_last() == capability_bytes(),
        XATTR_KEY@ == override_bytes().push(0),
        XATTR_KEY@.drop_last() == override_bytes(),
        XATTR_NAME_C@ == record_bytes().push(0),
{
    assert(MACOS_XATTR_PREFIX@ =~= foreign_prefix());
    assert(USER_PREFIX@ =~= guest_prefix());
    assert(USER_XATTR_CARRIER_PREFIX@ =~= carrier_prefix());
    assert(SECURITY_CAPABILITY@ =~= capability_bytes().push(0));
    assert(SECURITY_CAPABILITY@.drop_last() =~= capability_bytes());
    assert(XATTR_KEY@ =~= override_bytes().push(0));
    assert(XATTR_KEY@.drop_last() =~= override_bytes());
    assert(XATTR_NAME_C@ =~= record_bytes().push(0));
}

proof fn lemma_prefix(name: Seq<u8>, prefix: Seq<u8>)
    ensures
        has_prefix(name, prefix) == starts_with(name, prefix),
{
    if name.len() >= prefix.len() {
        assert(name.take(prefix.len() as int) =~= name.subrange(0, prefix.len() as int));
    }
}

/// The name that each attribute has on the host.
pub proof fn attributes_have_host_names(guest: Seq<u8>, label: Seq<u8>)
    ensures
        Attr::Override.name_text(guest, label) == override_bytes().push(0),
        Attr::Record.name_text(guest, label) == record_bytes().push(0),
        Attr::Capability.name_text(guest, label) == capability_bytes().push(0),
        Attr::Guest.name_text(guest, label) == guest.push(0),
        Attr::Carrier.name_text(guest, label) == (carrier_prefix() + guest).push(0),
        Attr::Label.name_text(guest, label) == label.push(0),
{
    lemma_names();
}

/// Attributes are served where that is configured, and never under simplified
/// semantics nor in a sandbox on a volume without them.
pub proof fn attributes_are_served_as_configured(
    fs: FsView,
    inode: u64,
    name: Seq<u8>,
    value: Seq<u8>,
    flags: u32,
    size: u32,
    log: Seq<Reply>,
)
    ensures
        !fs.cfg.xattr || fs.cfg.semantics is LinuxSimplified ==> {
            &&& storing_xattr(fs, inode, name, value, flags, log) == StepView::<()>::Fail(38, 0)
            &&& fetching_xattr(fs, inode, name, size, log) == StepView::<XattrView>::Fail(38, 0)
            &&& removing_xattr(fs, inode, name, log) == StepView::<()>::Fail(38, 0)
            &&& listing_xattr(fs, inode, size, log) == StepView::<XattrView>::Fail(38, 0)
        },
        fs.cfg.xattr ==> match fs.cfg.semantics {
            PermissionSemantics::Sandbox(config) => !config.xattrs_enabled ==> {
                &&& storing_xattr(fs, inode, name, value, flags, log) == StepView::<()>::Fail(
                    95,
                    0,
                )
                &&& fetching_xattr(fs, inode, name, size, log) == StepView::<XattrView>::Fail(
                    95,
                    0,
                )
                &&& removing_xattr(fs, inode, name, log) == StepView::<()>::Fail(95, 0)
                &&& listing_xattr(fs, inode, size, log) == StepView::<XattrView>::Fail(95, 0)
            },
            _ => true,
        },
{
}

/// The host's options `o` are the guest's: create or replace, exactly as asked;
/// and that a link is not followed where `link`.
pub open spec fn stores_as(o: u32, flags: u32, link: bool) -> bool {
    &&& o & 2 != 0 <==> flags & 1 != 0
    &&& o & 4 != 0 <==> flags & 2 != 0
    &&& o & 1 != 0 <==> link
    &&& o & !7u32 == 0
}

proof fn lemma_stores_as(flags: u32)
    ensures
        stores_as(super::xattr::store_options(flags), flags, false),
        stores_as(super::xattr::store_options(flags) | 0, flags, false),
        stores_as(super::xattr::store_options(flags) | 1, flags, true),
{
    assert({
        let a: u32 = if flags & 1 != 0 { 0u32 | 2 } else { 0u32 };
        let b: u32 = if flags & 2 != 0 { a | 4 } else { a };
        &&& (b & 2 != 0 <==> flags & 1 != 0)
        &&& (b & 4 != 0 <==> flags & 2 != 0)
        &&& b & 1 == 0
        &&& b & !7u32 == 0
        &&& b | 0 == b
        &&& ((b | 1) & 2 != 0 <==> flags & 1 != 0)
        &&& ((b | 1) & 4 != 0 <==> flags & 2 != 0)
        &&& (b | 1) & 1 != 0
        &&& (b | 1) & !7u32 == 0
    }) by (bit_vector);
}

/// Under complete semantics the guest's attributes are the host's, under their own
/// names. The host's own are not stored, and not there to be read or removed.
pub proof fn complete_attributes_are_the_hosts(
    fs: FsView,
    inode: u64,
    name: Seq<u8>,
    value: Seq<u8>,
    flags: u32,
    size: u32,
    log: Seq<Reply>,
    granted: Reply,
    error: HostError,
    count: u64,
    bytes: Vec<u8>,
)
    requires
        fs.cfg.xattr,
        fs.cfg.semantics == PermissionSemantics::LinuxComplete,
        fs.inodes.contains_key(inode),
        !name.contains(0u8),
        !(granted is Error),
    ensures
        ({
            let at = reached(fs, inode);
            let store = |log: Seq<Reply>| storing_xattr(fs, inode, name, value, flags, log);
            let fetch = |log: Seq<Reply>| fetching_xattr(fs, inode, name, size, log);
            let remove = |log: Seq<Reply>| removing_xattr(fs, inode, name, log);
            let none = Seq::<Reply>::empty();
            let refused = seq![Reply::Error(error)];
            if starts_with(name, foreign_prefix()) {
                &&& store(log) == StepView::<()>::Fail(95, 0)
                &&& fetch(log) == StepView::<XattrView>::Fail(61, 0)
                &&& remove(log) == StepView::<()>::Fail(61, 0)
            } else {
                &&& exists|o: u32| #[trigger]
                    stores_as(o, flags, false) && store(none) == StepView::<()>::Call(
                        CallView::Do(Call::SetAttr { at, attr: Attr::Guest, options: o }),
                    )
                &&& store(seq![granted]) == StepView::Done((), 1)
                &&& store(refused) == StepView::<()>::Fail(error.linux, 1)
                &&& remove(none) == StepView::<()>::Call(
                    CallView::Do(Call::RemoveAttr { at, attr: Attr::Guest, options: 0 }),
                )
                &&& remove(seq![granted]) == StepView::Done((), 1)
                &&& remove(refused) == StepView::<()>::Fail(error.linux, 1)
                &&& fetch(refused) == StepView::<XattrView>::Fail(error.linux, 1)
                &&& size == 0 ==> {
                    &&& fetch(none) == StepView::<XattrView>::Call(
                        CallView::Do(Call::AttrSize { at, attr: Attr::Guest, options: 0 }),
                    )
                    &&& count <= u32::MAX ==> fetch(seq![Reply::Count(count)]) == StepView::Done(
                        XattrView::Count(count as u32),
                        1,
                    )
                }
                &&& size > 0 ==> {
                    &&& fetch(none) == StepView::<XattrView>::Call(
                        CallView::Do(
                            Call::GetAttr { at, attr: Attr::Guest, size: size as u64, options: 0 },
                        ),
                    )
                    &&& fetch(seq![Reply::Bytes(bytes)]) == StepView::Done(
                        XattrView::Value(bytes@),
                        1,
                    )
                }
            }
        }),
{
    lemma_names();
    lemma_prefix(name, foreign_prefix());
    lemma_stores_as(flags);
    if name == XATTR_KEY@ {
        assert(name[29] == 0);
    }
}

/// Before an attribute is touched in a sandbox, the file and its record are looked
/// at: an inode that is not known, a file that cannot be looked at and a record
/// that cannot be read are refused.
pub proof fn sandbox_attributes_look_at_the_record(
    fs: FsView,
    inode: u64,
    log: Seq<Reply>,
    st: Stat,
    size: u64,
    value: Vec<u8>,
    absent: HostError,
    error: HostError,
)
    requires
        absent.raw == 93,
        error.raw != 93,
    ensures
        ({
            let at = reached(fs, inode);
            let run = |log: Seq<Reply>| inspecting(fs, inode, log);
            let looked = Reply::Stat(st);
            let kind = st.mode as u32 & 0o170000;
            let options = if at is Fd || kind != 0o120000 {
                0u32
            } else {
                1
            };
            &&& !fs.inodes.contains_key(inode) ==> run(log) == StepView::<InspectedView>::Fail(9, 0)
            &&& fs.inodes.contains_key(inode) ==> {
                &&& run(Seq::empty()) == StepView::<InspectedView>::Call(
                    CallView::Do(Call::Stat { at }),
                )
                &&& run(seq![Reply::Error(error)]) == StepView::<InspectedView>::Fail(
                    error.linux,
                    1,
                )
                &&& run(seq![looked]) == StepView::<InspectedView>::Call(
                    CallView::Do(Call::AttrSize { at, attr: Attr::Record, options }),
                )
                &&& run(seq![looked, Reply::Error(error)]) == StepView::<InspectedView>::Fail(
                    error.linux,
                    2,
                )
                &&& run(seq![looked, Reply::Error(absent)]) == StepView::Done(
                    InspectedView { at, st, record: None },
                    2,
                )
                &&& run(seq![looked, Reply::Count(size)]) == StepView::<InspectedView>::Call(
                    CallView::Do(Call::GetAttr { at, attr: Attr::Record, size, options }),
                )
                &&& run(seq![looked, Reply::Count(size), Reply::Bytes(value)]) == match record_of(
                    value@,
                ) {
                    Some(m) => if m.mode & 0o170000 == kind {
                        StepView::Done(InspectedView { at, st, record: Some(m) }, 3)
                    } else {
                        StepView::Fail(22, 3)
                    },
                    None => StepView::Fail(22, 3),
                }
            }
        }),
{
    reveal_with_fuel(crate::sandbox::reading, 2);
}

/// In a sandbox a guest's attribute of the namespace `user` is carried by an
/// attribute of the host behind a prefix, as long as the host can have that name.
/// No other name is carried.
pub proof fn sandbox_attributes_are_carried(
    fs: FsView,
    inode: u64,
    name: Seq<u8>,
    value: Seq<u8>,
    flags: u32,
    size: u32,
    log: Seq<Reply>,
    st: Stat,
    absent: HostError,
)
    requires
        fs.cfg.xattr,
        fs.cfg.semantics is Sandbox,
        fs.cfg.semantics->Sandbox_0.xattrs_enabled,
        fs.inodes.contains_key(inode),
        name != capability_bytes(),
        absent.raw == 93,
    ensures
        ({
            let at = reached(fs, inode);
            let link = st.mode as u32 & 0o170000 == 0o120000;
            let options = if link {
                1u32
            } else {
                0
            };
            let seen = seq![Reply::Stat(st), Reply::Error(absent)];
            let store = |log: Seq<Reply>| storing_xattr(fs, inode, name, value, flags, log);
            let fetch = |log: Seq<Reply>| fetching_xattr(fs, inode, name, size, log);
            let remove = |log: Seq<Reply>| removing_xattr(fs, inode, name, log);
            let refusal = if !starts_with(name, guest_prefix()) {
                95i32
            } else {
                34
            };
            if !starts_with(name, guest_prefix()) || name.len() + 14 > 127 {
                &&& store(log) == StepView::<()>::Fail(refusal, 0)
                &&& fetch(log) == StepView::<XattrView>::Fail(refusal, 0)
                &&& remove(log) == StepView::<()>::Fail(refusal, 0)
            } else {
                &&& exists|o: u32| #[trigger]
                    stores_as(o, flags, link) && store(seen) == StepView::<()>::Call(
                        CallView::Do(Call::SetAttr { at, attr: Attr::Carrier, options: o }),
                    )
                &&& remove(seen) == StepView::<()>::Call(
                    CallView::Do(Call::RemoveAttr { at, attr: Attr::Carrier, options }),
                )
                &&& size == 0 ==> fetch(seen) == StepView::<XattrView>::Call(
                    CallView::Do(Call::AttrSize { at, attr: Attr::Carrier, options }),
                )
                &&& size > 0 ==> fetch(seen) == StepView::<XattrView>::Call(
                    CallView::Do(
                        Call::GetAttr { at, attr: Attr::Carrier, size: size as u64, options },
                    ),
                )
            }
        }),
{
    reveal_with_fuel(crate::sandbox::reading, 2);
    lemma_names();
    lemma_prefix(name, guest_prefix());
    lemma_stores_as(flags);
    let seen = seq![Reply::Stat(st), Reply::Error(absent)];
    assert(seen[0] == Reply::Stat(st) && seen[1] == Reply::Error(absent));
    assert(carrier_name(name).len() == name.len() + 14);
}

/// In a sandbox a capability is stored in the file's record, beside what the
/// record says, or beside what a file without one has. Only a capability of a
/// known layout is stored.
pub proof fn sandbox_capabilities_are_recorded(
    fs: FsView,
    inode: u64,
    value: Seq<u8>,
    flags: u32,
    log: Seq<Reply>,
    st: Stat,
    absent: HostError,
    size: u64,
    bytes: Vec<u8>,
    m: MetadataView,
)
    requires
        fs.cfg.xattr,
        fs.cfg.semantics is Sandbox,
        fs.cfg.semantics->Sandbox_0.xattrs_enabled,
        fs.inodes.contains_key(inode),
        absent.raw == 93,
        record_of(bytes@) == Some(m),
        m.mode & 0o170000 == st.mode as u32 & 0o170000,
    ensures
        ({
            let identity = fs.cfg.semantics->Sandbox_0.identity;
            let at = reached(fs, inode);
            let name = capability_bytes();
            let native = seq![Reply::Stat(st), Reply::Error(absent)];
            let recorded = seq![Reply::Stat(st), Reply::Count(size), Reply::Bytes(bytes)];
            let store = |log: Seq<Reply>| storing_xattr(fs, inode, name, value, flags, log);
            let remove = |log: Seq<Reply>| removing_xattr(fs, inode, name, log);
            let had = m.capability is Some;
            &&& !is_capability(value) ==> store(log) == StepView::<()>::Fail(22, 0)
            &&& is_capability(value) ==> {
                &&& flags & 2 != 0 ==> store(native) == StepView::<()>::Fail(61, 2)
                &&& flags & 2 == 0 ==> stores_record(
                    store(native),
                    at,
                    MetadataView { capability: Some(value), ..mapped(identity, st) },
                )
                &&& flags & 1 != 0 && had ==> store(recorded) == StepView::<()>::Fail(17, 3)
                &&& flags & 2 != 0 && !had ==> store(recorded) == StepView::<()>::Fail(61, 3)
                &&& (flags & 1 == 0 || !had) && (flags & 2 == 0 || had) ==> stores_record(
                    store(recorded),
                    at,
                    MetadataView { capability: Some(value), ..m },
                )
            }
            &&& remove(native) == StepView::<()>::Fail(61, 2)
            &&& !had ==> remove(recorded) == StepView::<()>::Fail(61, 3)
            &&& had ==> stores_record(
                remove(recorded),
                at,
                MetadataView { capability: None, ..m },
            )
        }),
{
    reveal_with_fuel(crate::sandbox::reading, 2);
    lemma_names();
    assert(names_capability(capability_bytes()));
}

/// In a sandbox a capability is read from the file's record: its length for a
/// guest without room, all of it for one with enough, and an error in between.
pub proof fn sandbox_capabilities_are_read(
    fs: FsView,
    inode: u64,
    size: u32,
    st: Stat,
    absent: HostError,
    record_size: u64,
    bytes: Vec<u8>,
    m: MetadataView,
)
    requires
        fs.cfg.xattr,
        fs.cfg.semantics is Sandbox,
        fs.cfg.semantics->Sandbox_0.xattrs_enabled,
        fs.inodes.contains_key(inode),
        absent.raw == 93,
        record_of(bytes@) == Some(m),
        m.mode & 0o170000 == st.mode as u32 & 0o170000,
    ensures
        ({
            let fetch = |log: Seq<Reply>| fetching_xattr(fs, inode, capability_bytes(), size, log);
            let native = seq![Reply::Stat(st), Reply::Error(absent)];
            let recorded = seq![Reply::Stat(st), Reply::Count(record_size), Reply::Bytes(bytes)];
            &&& fetch(native) == StepView::<XattrView>::Fail(61, 2)
            &&& match m.capability {
                None => fetch(recorded) == StepView::<XattrView>::Fail(61, 3),
                Some(value) => {
                    &&& size == 0 && value.len() <= u32::MAX ==> fetch(recorded) == StepView::Done(
                        XattrView::Count(value.len() as u32),
                        3,
                    )
                    &&& 0 < size < value.len() ==> fetch(recorded) == StepView::<XattrView>::Fail(
                        34,
                        3,
                    )
                    &&& size > 0 && size >= value.len() ==> fetch(recorded) == StepView::Done(
                        XattrView::Value(value),
                        3,
                    )
                },
            }
        }),
{
    reveal_with_fuel(crate::sandbox::reading, 2);
    lemma_names();
    assert(names_capability(capability_bytes()));
}

/// Under complete semantics the guest sees the host's names, each with its
/// terminator and in the host's order, but for the host's own and the one that
/// holds the owner and mode.
pub proof fn complete_lists_hide_the_hosts(names: Seq<Seq<u8>>)
    requires
        forall|i: int|
            0 <= i < names.len() ==> !(#[trigger] names[i]).contains(0u8) && names[i].len() > 0,
    ensures
        visible_names(split_fields(name_list(names), 0)) == name_list(
            names.filter(
                |name: Seq<u8>|
                    !starts_with(name, foreign_prefix()) && !starts_with(name, override_bytes()),
            ),
        ),
{
    lemma_name_list_fields(names);
    let fields = names.push(Seq::empty());
    assert(fields.drop_last() =~= names);
    assert(visible_names(fields) == visible_names(names));
    lemma_visible(names);
}

proof fn lemma_visible(names: Seq<Seq<u8>>)
    requires
        forall|i: int| 0 <= i < names.len() ==> (#[trigger] names[i]).len() > 0,
    ensures
        visible_names(names) == name_list(
            names.filter(
                |name: Seq<u8>|
                    !starts_with(name, foreign_prefix()) && !starts_with(name, override_bytes()),
            ),
        ),
    decreases names.len(),
{
    reveal(Seq::filter);
    let seen = |name: Seq<u8>|
        !starts_with(name, foreign_prefix()) && !starts_with(name, override_bytes());
    if names.len() > 0 {
        let before = names.drop_last();
        let last = names.last();
        assert forall|i: int| 0 <= i < before.len() implies (#[trigger] before[i]).len() > 0 by {
            assert(before[i] == names[i]);
        }
        lemma_visible(before);
        assert(last == names[names.len() - 1]);
        lemma_names();
        lemma_prefix(last, foreign_prefix());
        lemma_prefix(last, override_bytes());
        let shown = before.filter(seen);
        assert(shown.push(last).drop_last() =~= shown);
        assert(name_list(shown.push(last)) == name_list(shown) + last.push(0));
    }
}

/// In a sandbox the guest sees the names that are carried for it, without the
/// prefix, in the host's order, and then that of a capability where the file has
/// one. Nothing else of the host is seen.
pub proof fn sandbox_lists_show_the_carried(names: Seq<Seq<u8>>, file: InspectedView)
    requires
        forall|i: int|
            0 <= i < names.len() ==> !(#[trigger] names[i]).contains(0u8) && names[i].len() > 0,
    ensures
        ({
            let guests = names.filter(
                |name: Seq<u8>| starts_with(name, carrier_prefix() + guest_prefix()),
            ).map_values(|name: Seq<u8>| name.subrange(14, name.len() as int));
            let capable = match file.record {
                Some(m) => m.capability is Some,
                None => false,
            };
            sandbox_names(name_list(names), file) == if capable {
                name_list(guests) + capability_bytes().push(0)
            } else {
                name_list(guests)
            }
        }),
{
    lemma_names();
    lemma_name_list_fields(names);
    let fields = names.push(Seq::empty());
    assert(fields.drop_last() =~= names);
    lemma_carried(Seq::empty());
    assert(!starts_with(Seq::<u8>::empty(), carrier_prefix() + guest_prefix()));
    assert(carried_names(fields) == carried_names(names));
    lemma_carried_list(names);
}

/// A name is a guest's exactly where it starts with both prefixes.
proof fn lemma_carried(name: Seq<u8>)
    ensures
        carried(name) == if starts_with(name, carrier_prefix() + guest_prefix()) {
            Some(name.subrange(14, name.len() as int))
        } else {
            None
        },
{
    lemma_names();
    let whole = carrier_prefix() + guest_prefix();
    if starts_with(name, whole) {
        let guest = name.subrange(14, name.len() as int);
        assert forall|i: int| 0 <= i < 19 implies name[i] == whole[i] by {
            assert(name.subrange(0, 19)[i] == name[i]);
        }
        assert(carrier_name(guest) =~= name);
        assert(guest.take(5) =~= guest_prefix());
        carried_is_inverse(guest);
    } else if exists|guest: Seq<u8>| name == #[trigger] carrier_name(guest) && has_prefix(
        guest,
        USER_PREFIX@,
    ) {
        let guest = choose|guest: Seq<u8>|
            name == #[trigger] carrier_name(guest) && has_prefix(guest, USER_PREFIX@);
        assert forall|i: int| 0 <= i < 5 implies guest[i] == guest_prefix()[i] by {
            assert(guest.take(5)[i] == guest[i]);
        }
        assert(name.subrange(0, 19) =~= whole);
    }
}

proof fn lemma_carried_list(names: Seq<Seq<u8>>)
    ensures
        carried_names(names) == name_list(
            names.filter(
                |name: Seq<u8>| starts_with(name, carrier_prefix() + guest_prefix()),
            ).map_values(|name: Seq<u8>| name.subrange(14, name.len() as int)),
        ),
    decreases names.len(),
{
    reveal(Seq::filter);
    let mine = |name: Seq<u8>| starts_with(name, carrier_prefix() + guest_prefix());
    let guest_of = |name: Seq<u8>| name.subrange(14, name.len() as int);
    if names.len() == 0 {
        assert(names.filter(mine).map_values(guest_of) =~= Seq::empty());
    } else {
        let last = names.last();
        lemma_carried_list(names.drop_last());
        lemma_carried(last);
        let before = names.drop_last().filter(mine);
        if mine(last) {
            let after = before.push(last).map_values(guest_of);
            assert(after.drop_last() =~= before.map_values(guest_of));
            assert(after.last() == guest_of(last));
            assert(names.filter(mine) == before.push(last));
        }
    }
}

/// A list is asked of the file that the inode is reached by, and answered as it
/// fits: its length to a guest without room, all of it to one with enough. Under
/// complete semantics the host is asked for as many names as a list can have.
pub proof fn lists_are_of_the_inode(
    fs: FsView,
    inode: u64,
    size: u32,
    log: Seq<Reply>,
    raw: Vec<u8>,
    error: HostError,
)
    requires
        fs.cfg.xattr,
        fs.cfg.semantics == PermissionSemantics::LinuxComplete,
        fs.inodes.contains_key(inode),
    ensures
        ({
            let run = |log: Seq<Reply>| listing_xattr(fs, inode, size, log);
            let shown = visible_names(split_fields(raw@, 0));
            &&& run(Seq::empty()) == StepView::<XattrView>::Call(
                CallView::Do(
                    Call::ListAttrs { at: reached(fs, inode), size: 512, options: 0 },
                ),
            )
            &&& run(seq![Reply::Error(error)]) == StepView::<XattrView>::Fail(error.linux, 1)
            &&& size > 0 && shown.len() <= size ==> run(seq![Reply::Bytes(raw)]) == StepView::Done(
                XattrView::Value(shown),
                1,
            )
            &&& size > 0 && shown.len() > size ==> run(seq![Reply::Bytes(raw)]) == StepView::<
                XattrView,
            >::Fail(34, 1)
        }),
{
}

/// The same in a sandbox, where the list's length is asked for first, and again
/// where the list has grown.
pub proof fn sandbox_lists_are_of_the_inode(
    fs: FsView,
    inode: u64,
    size: u32,
    st: Stat,
    absent: HostError,
    room: u64,
    raw: Vec<u8>,
    grown: HostError,
    error: HostError,
)
    requires
        fs.cfg.xattr,
        fs.cfg.semantics is Sandbox,
        fs.cfg.semantics->Sandbox_0.xattrs_enabled,
        fs.inodes.contains_key(inode),
        absent.raw == 93,
        grown.raw == 34,
        error.raw != 34,
    ensures
        ({
            let at = reached(fs, inode);
            let run = |log: Seq<Reply>| listing_xattr(fs, inode, size, log);
            let (looked, none) = (Reply::Stat(st), Reply::Error(absent));
            let options = if st.mode as u32 & 0o170000 == 0o120000 {
                1u32
            } else {
                0
            };
            let ask = StepView::<XattrView>::Call(CallView::Do(Call::ListSize { at, options }));
            let shown = sandbox_names(raw@, InspectedView { at, st, record: None });
            let answer = run(seq![looked, none, Reply::Count(room), Reply::Bytes(raw)]);
            &&& run(seq![looked, none]) == ask
            &&& run(seq![looked, none, Reply::Error(error)]) == StepView::<XattrView>::Fail(
                error.linux,
                3,
            )
            &&& run(seq![looked, none, Reply::Count(room)]) == StepView::<XattrView>::Call(
                CallView::Do(Call::ListAttrs { at, size: room, options }),
            )
            &&& run(seq![looked, none, Reply::Count(room), Reply::Error(grown)]) == ask
            &&& run(seq![looked, none, Reply::Count(room), Reply::Error(error)]) == StepView::<
                XattrView,
            >::Fail(error.linux, 4)
            &&& size == 0 && shown.len() <= u32::MAX ==> answer == StepView::Done(
                XattrView::Count(shown.len() as u32),
                4,
            )
            &&& 0 < size < shown.len() ==> answer == StepView::<XattrView>::Fail(34, 4)
            &&& size > 0 && size >= shown.len() ==> answer == StepView::Done(
                XattrView::Value(shown),
                4,
            )
        }),
{
    reveal_with_fuel(crate::sandbox::reading, 2);
    reveal_with_fuel(super::xattr::gathering, 3);
}

/// A guest without room is told the length of the list that it then gets.
pub proof fn complete_lists_are_measured(
    fs: FsView,
    inode: u64,
    names: Seq<Seq<u8>>,
    raw: Vec<u8>,
)
    requires
        fs.cfg.xattr,
        fs.cfg.semantics == PermissionSemantics::LinuxComplete,
        fs.inodes.contains_key(inode),
        forall|i: int|
            0 <= i < names.len() ==> !(#[trigger] names[i]).contains(0u8) && names[i].len() > 0,
        forall|i: int|
            0 <= i < names.len() && starts_with(#[trigger] names[i], override_bytes()) ==> names[i]
                == override_bytes(),
        raw@ == name_list(names),
        raw@.len() <= u32::MAX,
    ensures
        listing_xattr(fs, inode, 0, seq![Reply::Bytes(raw)]) == StepView::Done(
            XattrView::Count(
                name_list(
                    names.filter(
                        |name: Seq<u8>|
                            !starts_with(name, foreign_prefix()) && !starts_with(
                                name,
                                override_bytes(),
                            ),
                    ),
                ).len() as u32,
            ),
            1,
        ),
{
    lemma_names();
    assert forall|i: int|
        0 <= i < names.len() && super::xattr::is_override(#[trigger] names[i]) implies names[i].len()
        + 1 == XATTR_KEY@.len() by {
        lemma_prefix(names[i], override_bytes());
    }
    super::xattr::count_is_size_of_list(names);
    complete_lists_hide_the_hosts(names);
    let fields = split_fields(raw@, 0);
    lemma_visible_size(fields, raw@.len());
}

proof fn lemma_visible_size(names: Seq<Seq<u8>>, total: nat)
    ensures
        super::xattr::visible_size(names, total) <= total,
    decreases names.len(),
{
    if names.len() > 0 {
        lemma_visible_size(names.drop_last(), total);
    }
}

} // verus!
