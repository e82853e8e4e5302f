//! The guest's ownership, mode and file capability as they are stored beside a
//! host file: one canonical line of text, `uid:gid:0mode:capability`.

use vstd::prelude::*;
use crate::abi::{S_IFDIR, S_IFLNK, S_IFMT, S_IFREG};
use crate::bytes::{
    append_bytes, join_fields, lemma_join_split, lemma_split_join, split_bytes, split_fields,
    starts_with, has_prefix,
};
use crate::text::{
    digits, lemma_digits_exclude, lemma_digits_injective, parse_canonical, push_digits,
};

verus! {

/// The name of the extended attribute that holds the record, `user.torkbot.sandbox.metadata`,
/// with its terminator.
pub const XATTR_NAME_C: [u8; 30] = [
    'u' as u8, 's' as u8, 'e' as u8, 'r' as u8, '.' as u8, 't' as u8, 'o' as u8, 'r' as u8,
    'k' as u8, 'b' as u8, 'o' as u8, 't' as u8, '.' as u8, 's' as u8, 'a' as u8, 'n' as u8,
    'd' as u8, 'b' as u8, 'o' as u8, 'x' as u8, '.' as u8, 'm' as u8, 'e' as u8, 't' as u8,
    'a' as u8, 'd' as u8, 'a' as u8, 't' as u8, 'a' as u8, 0,
];

/// What stands before a guest's attribute name on the host, `user.virtiofs.`.
pub const USER_XATTR_CARRIER_PREFIX: [u8; 14] = [
    'u' as u8, 's' as u8, 'e' as u8, 'r' as u8, '.' as u8, 'v' as u8, 'i' as u8, 'r' as u8,
    't' as u8, 'i' as u8, 'o' as u8, 'f' as u8, 's' as u8, '.' as u8,
];

/// The namespace of the attributes that a guest may store, `user.`.
pub const USER_PREFIX: [u8; 5] = [
    'u' as u8, 's' as u8, 'e' as u8, 'r' as u8, '.' as u8,
];

/// The longest attribute name that the host takes.
pub const MAX_HOST_XATTR_NAME_LEN: usize = 127;

/// The identity that stands for every principal outside the mapping.
pub const OVERFLOW_ID: u32 = 65_534;

pub const VFS_CAP_FLAGS_MASK: u32 = 0x0000_0001;

pub const VFS_CAP_REVISION_MASK: u32 = 0xff00_0000;

pub const VFS_CAP_REVISION_2: u32 = 0x0200_0000;

pub const VFS_CAP_REVISION_3: u32 = 0x0300_0000;

pub const VFS_CAP_REVISION_2_SIZE: usize = 20;

pub const VFS_CAP_REVISION_3_SIZE: usize = 24;

/// The byte between the fields of a record.
pub const FIELD_SEPARATOR: u8 = 0x3a;

/// The one host principal that the guest knows, and the guest's name for it.
#[derive(Debug, Clone, Copy, PartialEq, Eq, Structural)]
pub struct IdentityMapping {
    pub host_uid: u32,
    pub host_gid: u32,
    pub guest_uid: u32,
    pub guest_gid: u32,
}

impl IdentityMapping {
    /// The guest's user for a host user: the mapped one, or the overflow identity.
    pub open spec fn uid_of(self, host_uid: u32) -> u32 {
        if host_uid == self.host_uid {
            self.guest_uid
        } else {
            OVERFLOW_ID
        }
    }

    /// The guest's group for a host group: the mapped one, or the overflow identity.
    pub open spec fn gid_of(self, host_gid: u32) -> u32 {
        if host_gid == self.host_gid {
            self.guest_gid
        } else {
            OVERFLOW_ID
        }
    }

    pub fn guest_uid_for(self, host_uid: u32) -> (r: u32)
        ensures
            r == self.uid_of(host_uid),
    {
        if host_uid == self.host_uid {
            self.guest_uid
        } else {
            OVERFLOW_ID
        }
    }

    pub fn guest_gid_for(self, host_gid: u32) -> (r: u32)
        ensures
            r == self.gid_of(host_gid),
    {
        if host_gid == self.host_gid {
            self.guest_gid
        } else {
            OVERFLOW_ID
        }
    }
}

/// What the guest sees of a file beyond what the host stores natively.
#[derive(Debug, Clone, PartialEq, Eq)]
pub struct GuestMetadata {
    pub uid: u32,
    pub gid: u32,
    pub mode: u32,
    pub capability: Option<Vec<u8>>,
}

/// The contents of a `GuestMetadata`.
#[verifier::ext_equal]
pub struct MetadataView {
    pub uid: u32,
    pub gid: u32,
    pub mode: u32,
    pub capability: Option<Seq<u8>>,
}

impl View for GuestMetadata {
    type V = MetadataView;

    open spec fn view(&self) -> MetadataView {
        MetadataView {
            uid: self.uid,
            gid: self.gid,
            mode: self.mode,
            capability: capability_view(self.capability),
        }
    }
}

/// The contents of an optional capability.
pub open spec fn capability_view(capability: Option<Vec<u8>>) -> Option<Seq<u8>> {
    match capability {
        Some(value) => Some(value@),
        None => None,
    }
}

/// The header of a file capability: its first four bytes, least significant first.
pub open spec fn capability_magic(value: Seq<u8>) -> u32 {
    (value[0] + 0x100 * value[1] + 0x1_0000 * value[2] + 0x100_0000 * value[3]) as u32
}

/// `value` is a Linux file capability: revision 2 in 20 bytes or revision 3 in
/// 24, with no flag but the effective bit.
pub open spec fn is_capability(value: Seq<u8>) -> bool {
    &&& value.len() >= 4
    &&& capability_magic(value) & !(VFS_CAP_REVISION_MASK | VFS_CAP_FLAGS_MASK) == 0
    &&& {
        let revision = capability_magic(value) & VFS_CAP_REVISION_MASK;
        ||| revision == VFS_CAP_REVISION_2 && value.len() == VFS_CAP_REVISION_2_SIZE
        ||| revision == VFS_CAP_REVISION_3 && value.len() == VFS_CAP_REVISION_3_SIZE
    }
}

/// `mode` is the mode of a regular file, a directory or a symbolic link, with
/// no bit beyond the file type and the permissions.
pub open spec fn is_stored_mode(mode: u32) -> bool {
    let kind = mode & S_IFMT;
    &&& kind == S_IFREG || kind == S_IFDIR || kind == S_IFLNK
    &&& mode & !(S_IFMT | 0o7777) == 0
}

/// An absent capability, or one of a known layout.
pub open spec fn is_stored_capability(capability: Option<Seq<u8>>) -> bool {
    match capability {
        Some(value) => is_capability(value),
        None => true,
    }
}

impl MetadataView {
    /// The metadata that a record can hold.
    pub open spec fn valid(self) -> bool {
        &&& self.uid != u32::MAX
        &&& self.gid != u32::MAX
        &&& is_stored_mode(self.mode)
        &&& is_stored_capability(self.capability)
    }

    /// The four fields of the record.
    pub open spec fn fields(self) -> Seq<Seq<u8>> {
        seq![
            digits(self.uid as nat, 10),
            digits(self.gid as nat, 10),
            mode_text(self.mode),
            capability_text(self.capability),
        ]
    }

    /// The record as it is stored.
    pub open spec fn text(self) -> Seq<u8> {
        join_fields(self.fields(), FIELD_SEPARATOR)
    }
}

/// The metadata whose record is `value`, if `value` is a record.
pub open spec fn record_of(value: Seq<u8>) -> Option<MetadataView> {
    if exists|m: MetadataView| m.valid() && #[trigger] m.text() == value {
        Some(choose|m: MetadataView| m.valid() && #[trigger] m.text() == value)
    } else {
        None
    }
}

/// A mode in a record: octal digits behind a zero.
pub open spec fn mode_text(mode: u32) -> Seq<u8> {
    seq![0x30u8] + digits(mode as nat, 8)
}

/// A capability in a record: a dash for none, else its bytes in hexadecimal.
pub open spec fn capability_text(capability: Option<Seq<u8>>) -> Seq<u8> {
    match capability {
        Some(value) => hex_text(value),
        None => seq![0x2du8],
    }
}

/// The capability that a field of a record says, if it says one: an outer `None`
/// where the field is malformed.
pub open spec fn capability_of(field: Seq<u8>) -> Option<Option<Seq<u8>>> {
    if exists|c: Option<Seq<u8>>| is_stored_capability(c) && #[trigger] capability_text(c)
        == field {
        Some(
            choose|c: Option<Seq<u8>>|
                is_stored_capability(c) && #[trigger] capability_text(c) == field,
        )
    } else {
        None
    }
}

/// The hexadecimal digit, in lower case, of a value below sixteen.
pub open spec fn hex_digit(d: int) -> u8 {
    if d < 10 {
        (0x30 + d) as u8
    } else {
        (0x57 + d) as u8
    }
}

/// Two hexadecimal digits for each byte of `s`.
pub open spec fn hex_text(s: Seq<u8>) -> Seq<u8> {
    Seq::new(
        2 * s.len(),
        |i: int|
            if i % 2 == 0 {
                hex_digit(s[i / 2] as int / 16)
            } else {
                hex_digit(s[i / 2] as int % 16)
            },
    )
}

/// The metadata that a file without a record has.
pub open spec fn native_metadata(
    mapping: IdentityMapping,
    host_uid: u32,
    host_gid: u32,
    host_mode: u32,
) -> MetadataView {
    MetadataView {
        uid: mapping.uid_of(host_uid),
        gid: mapping.gid_of(host_gid),
        mode: host_mode,
        capability: None,
    }
}

/// A record could not be read.
#[derive(Debug, Clone, Copy, PartialEq, Eq, Structural)]
pub struct ParseError;

/// A guest's attribute name that has no place on the host.
#[derive(Debug, Clone, Copy, PartialEq, Eq, Structural)]
pub enum NameError {
    UnsupportedNamespace,
    TooLong,
}

/// The hexadecimal digits of different bytes differ.
proof fn lemma_hex_digit_injective(a: int, b: int)
    requires
        0 <= a < 16,
        0 <= b < 16,
        hex_digit(a) == hex_digit(b),
    ensures
        a == b,
{
}

/// Byte strings with the same hexadecimal digits are equal.
pub proof fn lemma_hex_injective(a: Seq<u8>, b: Seq<u8>)
    requires
        hex_text(a) == hex_text(b),
    ensures
        a == b,
{
    assert(hex_text(a).len() == 2 * a.len());
    assert(hex_text(b).len() == 2 * b.len());
    assert forall|i: int| 0 <= i < a.len() implies a[i] == b[i] by {
        assert(hex_text(a)[2 * i] == hex_digit(a[i] as int / 16));
        assert(hex_text(b)[2 * i] == hex_digit(b[i] as int / 16));
        assert(hex_text(a)[2 * i + 1] == hex_digit(a[i] as int % 16));
        assert(hex_text(b)[2 * i + 1] == hex_digit(b[i] as int % 16));
        lemma_hex_digit_injective(a[i] as int / 16, b[i] as int / 16);
        lemma_hex_digit_injective(a[i] as int % 16, b[i] as int % 16);
    }
    assert(a =~= b);
}

/// No field of a record holds the separator.
proof fn lemma_fields_exclude_separator(m: MetadataView)
    ensures
        forall|i: int| 0 <= i < 4 ==> !(#[trigger] m.fields()[i]).contains(FIELD_SEPARATOR),
{
    lemma_digits_exclude(m.uid as nat, 10, FIELD_SEPARATOR);
    lemma_digits_exclude(m.gid as nat, 10, FIELD_SEPARATOR);
    lemma_digits_exclude(m.mode as nat, 8, FIELD_SEPARATOR);
    let octal = digits(m.mode as nat, 8);
    let mode = mode_text(m.mode);
    assert forall|j: int| 0 <= j < mode.len() implies mode[j] != FIELD_SEPARATOR by {
        if j > 0 {
            assert(mode[j] == octal[j - 1]);
            assert(octal.contains(octal[j - 1]));
        }
    }
}

/// Records of different metadata differ.
pub proof fn lemma_text_injective(a: MetadataView, b: MetadataView)
    requires
        a.text() == b.text(),
        a.valid(),
        b.valid(),
    ensures
        a == b,
{
    lemma_fields_exclude_separator(a);
    lemma_fields_exclude_separator(b);
    lemma_join_split(a.fields(), FIELD_SEPARATOR);
    lemma_join_split(b.fields(), FIELD_SEPARATOR);
    assert(a.fields()[0] == b.fields()[0]);
    assert(a.fields()[1] == b.fields()[1]);
    assert(a.fields()[2] == b.fields()[2]);
    assert(a.fields()[3] == b.fields()[3]);
    lemma_digits_injective(a.uid as nat, b.uid as nat, 10);
    lemma_digits_injective(a.gid as nat, b.gid as nat, 10);
    assert(mode_text(a.mode).skip(1) =~= digits(a.mode as nat, 8));
    assert(mode_text(b.mode).skip(1) =~= digits(b.mode as nat, 8));
    lemma_digits_injective(a.mode as nat, b.mode as nat, 8);
    lemma_capability_text_injective(a.capability, b.capability);
}

proof fn lemma_capability_text_injective(a: Option<Seq<u8>>, b: Option<Seq<u8>>)
    requires
        capability_text(a) == capability_text(b),
        is_stored_capability(a),
        is_stored_capability(b),
    ensures
        a == b,
{
    assert(capability_text(None).len() == 1);
    match (a, b) {
        (Some(x), Some(y)) => {
            lemma_hex_injective(x, y);
        },
        (Some(x), None) => {
            assert(hex_text(x).len() == 2 * x.len());
        },
        (None, Some(y)) => {
            assert(hex_text(y).len() == 2 * y.len());
        },
        (None, None) => {},
    }
}

/// Reading a record gives back the metadata that it was written from.
pub proof fn record_round_trip(m: MetadataView)
    requires
        m.valid(),
    ensures
        record_of(m.text()) == Some(m),
{
    let found = choose|other: MetadataView| other.valid() && #[trigger] other.text() == m.text();
    lemma_text_injective(found, m);
}

/// Records are canonical: what was read is valid, and writing it again gives
/// the same bytes.
pub proof fn record_is_canonical(value: Seq<u8>)
    ensures
        match record_of(value) {
            Some(m) => m.valid() && m.text() == value,
            None => forall|m: MetadataView| m.valid() ==> value != #[trigger] m.text(),
        },
{
}

/// A host principal is mapped component by component: a foreign group does not
/// change the user, nor a foreign user the group, and whatever is not the
/// mapped principal has the overflow identity.
pub proof fn identity_components_are_independent(
    mapping: IdentityMapping,
    host_uid: u32,
    host_gid: u32,
    mode: u32,
)
    ensures
        ({
            let m = native_metadata(mapping, host_uid, host_gid, mode);
            &&& host_uid == mapping.host_uid ==> m.uid == mapping.guest_uid
            &&& host_uid != mapping.host_uid ==> m.uid == 65534
            &&& host_gid == mapping.host_gid ==> m.gid == mapping.guest_gid
            &&& host_gid != mapping.host_gid ==> m.gid == 65534
            &&& m.mode == mode
            &&& m.capability is None
        }),
{
}

/// The carrier names of different attributes differ, and each leads back to
/// its attribute.
pub proof fn carrier_names_are_distinct(a: Seq<u8>, b: Seq<u8>)
    ensures
        carrier_name(a) == carrier_name(b) ==> a == b,
{
    let n = USER_XATTR_CARRIER_PREFIX@.len() as int;
    assert(carrier_name(a).skip(n) =~= a);
    assert(carrier_name(b).skip(n) =~= b);
}

/// Reading a capability field gives back the capability that it was written from.
pub proof fn capability_round_trip(c: Option<Seq<u8>>)
    requires
        is_stored_capability(c),
    ensures
        capability_of(capability_text(c)) == Some(c),
{
    let found = choose|other: Option<Seq<u8>>|
        is_stored_capability(other) && #[trigger] capability_text(other) == capability_text(c);
    lemma_capability_text_injective(found, c);
}

/// A field says that there is no capability exactly if it is a dash, and says a
/// capability exactly if it is its bytes in lower-case hexadecimal and they have a
/// known layout; any other field is malformed.
pub proof fn capability_fields_are_exact(field: Seq<u8>, d: Seq<u8>)
    ensures
        capability_of(field) == Some(None::<Seq<u8>>) <==> field == seq![0x2du8],
        capability_of(field) == Some(Some(d)) <==> field == hex_text(d) && is_capability(d),
        capability_of(field) is None <==> field != seq![0x2du8] && forall|e: Seq<u8>|
            is_capability(e) ==> field != #[trigger] hex_text(e),
{
    if field == seq![0x2du8] {
        capability_round_trip(None);
    }
    if field == hex_text(d) && is_capability(d) {
        capability_round_trip(Some(d));
    }
    match capability_of(field) {
        Some(c) => {
            assert(is_stored_capability(c) && capability_text(c) == field);
            if let Some(e) = c {
                assert(field == hex_text(e));
            }
        },
        None => {
            assert(capability_text(None) != field);
            assert forall|e: Seq<u8>| is_capability(e) implies field != #[trigger] hex_text(e) by {
                assert(capability_text(Some(e)) == hex_text(e));
            }
        },
    }
}

/// Whether `value` has the layout of a Linux file capability.
pub fn validate_capability(value: &[u8]) -> (r: bool)
    ensures
        r == is_capability(value@),
{
    if value.len() != VFS_CAP_REVISION_2_SIZE && value.len() != VFS_CAP_REVISION_3_SIZE {
        return false;
    }
    let magic: u32 = value[0] as u32 + 0x100 * value[1] as u32 + 0x1_0000 * value[2] as u32
        + 0x100_0000 * value[3] as u32;
    if magic & !(VFS_CAP_REVISION_MASK | VFS_CAP_FLAGS_MASK) != 0 {
        return false;
    }
    let revision: u32 = magic & VFS_CAP_REVISION_MASK;
    if revision == VFS_CAP_REVISION_2 {
        value.len() == VFS_CAP_REVISION_2_SIZE
    } else if revision == VFS_CAP_REVISION_3 {
        value.len() == VFS_CAP_REVISION_3_SIZE
    } else {
        false
    }
}

/// Reads a mode field: the exact text of a mode that a record can hold.
fn parse_canonical_mode(value: &[u8]) -> (r: Result<u32, ParseError>)
    ensures
        match r {
            Ok(mode) => is_stored_mode(mode) && value@ == mode_text(mode),
            Err(_) => forall|mode: u32|
                is_stored_mode(mode) ==> value@ != #[trigger] mode_text(mode),
        },
{
    if value.len() == 0 || value[0] != 0x30 {
        assert forall|mode: u32| is_stored_mode(mode) implies value@ != #[trigger] mode_text(
            mode,
        ) by {
            assert(mode_text(mode)[0] == 0x30);
        }
        return Err(ParseError);
    }
    let octal = vstd::slice::slice_subrange(value, 1, value.len());
    let parsed = parse_canonical(octal, 8);
    assert forall|mode: u32| value@ == #[trigger] mode_text(mode) implies octal@ == digits(
        mode as nat,
        8,
    ) by {
        assert(mode_text(mode).skip(1) =~= digits(mode as nat, 8));
        assert(octal@ =~= value@.skip(1));
    }
    match parsed {
        None => Err(ParseError),
        Some(mode) => {
            assert(value@ =~= mode_text(mode));
            let kind: u32 = mode & S_IFMT;
            if (kind == S_IFREG || kind == S_IFDIR || kind == S_IFLNK) && mode & !(S_IFMT
                | 0o7777) == 0 {
                Ok(mode)
            } else {
                assert forall|other: u32|
                    is_stored_mode(other) implies value@ != #[trigger] mode_text(other) by {
                    if value@ == mode_text(other) {
                        lemma_digits_injective(mode as nat, other as nat, 8);
                    }
                }
                Err(ParseError)
            }
        },
    }
}

/// The value of a hexadecimal digit in lower case.
fn hex_value(b: u8) -> (r: Option<u8>)
    ensures
        match r {
            Some(d) => d < 16 && b == hex_digit(d as int),
            None => forall|d: int| 0 <= d < 16 ==> b != #[trigger] hex_digit(d),
        },
{
    if 0x30 <= b && b <= 0x39 {
        Some(b - 0x30)
    } else if 0x61 <= b && b <= 0x66 {
        Some(b - 0x57)
    } else {
        None
    }
}

/// Reads a capability field: a dash, or the lower-case hexadecimal digits of a
/// file capability. Everything else is malformed.
pub fn parse_capability(value: &[u8]) -> (r: Result<Option<Vec<u8>>, ParseError>)
    ensures
        match r {
            Ok(capability) => capability_of(value@) == Some(capability_view(capability)),
            Err(_) => capability_of(value@) is None,
        },
{
    if value.len() == 1 && value[0] == 0x2d {
        assert(value@ =~= seq![0x2du8]);
        proof {
            capability_round_trip(None);
        }
        return Ok(None);
    }
    assert(value@ != seq![0x2du8]) by {
        assert(seq![0x2du8][0] == 0x2d);
    }
    if value.len() == 0 || value.len() % 2 != 0 {
        assert forall|c: Option<Seq<u8>>| is_stored_capability(c) implies value@
            != #[trigger] capability_text(c) by {
            if let Some(s) = c {
                assert(hex_text(s).len() == 2 * s.len());
            }
        }
        return Err(ParseError);
    }
    let mut decoded: Vec<u8> = Vec::new();
    let mut i: usize = 0;
    while i < value.len() / 2
        invariant
            i <= value.len() / 2,
            value.len() % 2 == 0,
            decoded.len() == i,
            value@ != seq![0x2du8],
            value@.take(2 * i) == hex_text(decoded@),
        decreases value.len() / 2 - i,
    {
        let high = hex_value(value[2 * i]);
        let low = hex_value(value[2 * i + 1]);
        match (high, low) {
            (Some(h), Some(l)) => {
                let byte: u8 = 16 * h + l;
                let ghost before = decoded@;
                decoded.push(byte);
                proof {
                    assert(byte as int / 16 == h as int);
                    assert(byte as int % 16 == l as int);
                    let longer = value@.take(2 * (i + 1));
                    let text = hex_text(decoded@);
                    assert forall|j: int| 0 <= j < text.len() implies text[j] == longer[j] by {
                        if j < 2 * i {
                            assert(hex_text(before)[j] == value@.take(2 * i)[j]);
                            assert(decoded@[j / 2] == before[j / 2]);
                        } else {
                            assert(j / 2 == i);
                        }
                    }
                    assert(longer =~= text);
                }
            },
            _ => {
                proof {
                    assert forall|c: Option<Seq<u8>>| is_stored_capability(c) implies value@
                        != #[trigger] capability_text(c) by {
                        if let Some(s) = c {
                            if value@ == hex_text(s) {
                                let byte = s[i as int] as int;
                                assert(hex_text(s)[2 * i as int] == hex_digit(byte / 16));
                                assert(hex_text(s)[2 * i + 1] == hex_digit(byte % 16));
                            }
                        }
                    }
                }
                return Err(ParseError);
            },
        }
        i = i + 1;
    }
    assert(value@.take(2 * i) =~= value@);
    if validate_capability(decoded.as_slice()) {
        proof {
            capability_round_trip(Some(decoded@));
        }
        Ok(Some(decoded))
    } else {
        proof {
            assert forall|c: Option<Seq<u8>>| is_stored_capability(c) implies value@
                != #[trigger] capability_text(c) by {
                if let Some(s) = c {
                    if value@ == hex_text(s) {
                        lemma_hex_injective(s, decoded@);
                    }
                }
            }
        }
        Err(ParseError)
    }
}

/// Appends the hexadecimal digits of `value`.
fn push_hex(out: &mut Vec<u8>, value: &[u8])
    ensures
        final(out)@ == old(out)@ + hex_text(value@),
{
    let ghost start = out@;
    let mut i: usize = 0;
    assert(start + hex_text(value@.take(0)) =~= start);
    while i < value.len()
        invariant
            i <= value.len(),
            out@ == start + hex_text(value@.take(i as int)),
        decreases value.len() - i,
    {
        let high: u8 = value[i] / 16;
        let low: u8 = value[i] % 16;
        let ghost before = out@;
        out.push(if high < 10 { 0x30 + high } else { 0x57 + high });
        out.push(if low < 10 { 0x30 + low } else { 0x57 + low });
        proof {
            let shorter = value@.take(i as int);
            let longer = value@.take(i + 1);
            let text = hex_text(longer);
            assert forall|j: int| 0 <= j < text.len() implies text[j] == out@[start.len() + j] by {
                if j < 2 * i {
                    assert(longer[j / 2] == shorter[j / 2]);
                    assert(hex_text(shorter)[j] == before[start.len() + j]);
                } else {
                    assert(j / 2 == i);
                }
            }
            assert(out@ =~= start + text);
        }
        i = i + 1;
    }
    assert(value@.take(i as int) =~= value@);
}

impl GuestMetadata {
    /// The metadata of a file without a record.
    pub fn from_native(
        mapping: IdentityMapping,
        host_uid: u32,
        host_gid: u32,
        host_mode: u32,
    ) -> (r: Self)
        ensures
            r@ == native_metadata(mapping, host_uid, host_gid, host_mode),
    {
        GuestMetadata {
            uid: mapping.guest_uid_for(host_uid),
            gid: mapping.guest_gid_for(host_gid),
            mode: host_mode,
            capability: None,
        }
    }

    /// Reads a record. Exactly the texts of valid metadata are accepted.
    pub fn parse(value: &[u8]) -> (r: Result<Self, ParseError>)
        ensures
            match r {
                Ok(m) => record_of(value@) == Some(m@),
                Err(_) => record_of(value@) is None,
            },
    {
        let fields = split_bytes(value, FIELD_SEPARATOR);
        let ghost parts = split_fields(value@, FIELD_SEPARATOR);
        proof {
            lemma_split_join(value@, FIELD_SEPARATOR);
            assert forall|m: MetadataView| value@ == #[trigger] m.text() implies parts
                == m.fields() by {
                lemma_fields_exclude_separator(m);
                lemma_join_split(m.fields(), FIELD_SEPARATOR);
            }
        }
        if fields.len() != 4 {
            proof {
                assert forall|m: MetadataView| m.valid() implies value@ != #[trigger] m.text() by {
                    assert(m.fields().len() == 4);
                    assert(parts.len() == fields.len());
                }
            }
            return Err(ParseError);
        }
        assert(parts[0] == fields[0]@ && parts[1] == fields[1]@ && parts[2] == fields[2]@
            && parts[3] == fields[3]@);
        let uid = parse_canonical(fields[0].as_slice(), 10);
        let gid = parse_canonical(fields[1].as_slice(), 10);
        let mode = parse_canonical_mode(fields[2].as_slice());
        let capability = parse_capability(fields[3].as_slice());
        proof {
            assert forall|m: MetadataView|
                value@ == #[trigger] m.text() implies fields[0]@ == digits(m.uid as nat, 10)
                && fields[1]@ == digits(m.gid as nat, 10) && fields[2]@ == mode_text(m.mode)
                && fields[3]@ == capability_text(m.capability) by {
                assert(parts[0] == m.fields()[0]);
                assert(parts[1] == m.fields()[1]);
                assert(parts[2] == m.fields()[2]);
                assert(parts[3] == m.fields()[3]);
            }
        }
        match (uid, gid, mode, capability) {
            (Some(uid), Some(gid), Ok(mode), Ok(capability)) => {
                let m = GuestMetadata { uid, gid, mode, capability };
                assert(parts =~= m@.fields());
                if uid == u32::MAX || gid == u32::MAX {
                    proof {
                        assert forall|other: MetadataView| other.valid() implies value@
                            != #[trigger] other.text() by {
                            if value@ == other.text() {
                                lemma_digits_injective(uid as nat, other.uid as nat, 10);
                                lemma_digits_injective(gid as nat, other.gid as nat, 10);
                            }
                        }
                    }
                    return Err(ParseError);
                }
                proof {
                    record_round_trip(m@);
                }
                Ok(m)
            },
            _ => Err(ParseError),
        }
    }

    /// The record to store.
    pub fn encode(&self) -> (r: Vec<u8>)
        ensures
            r@ == self@.text(),
    {
        let mut out: Vec<u8> = Vec::new();
        push_digits(&mut out, self.uid as u64, 10);
        out.push(FIELD_SEPARATOR);
        push_digits(&mut out, self.gid as u64, 10);
        out.push(FIELD_SEPARATOR);
        out.push(0x30);
        push_digits(&mut out, self.mode as u64, 8);
        out.push(FIELD_SEPARATOR);
        match &self.capability {
            Some(value) => push_hex(&mut out, value.as_slice()),
            None => out.push(0x2d),
        }
        proof {
            let f = self@.fields();
            let f3 = f.drop_last();
            let f2 = f3.drop_last();
            let f1 = f2.drop_last();
            let sep = FIELD_SEPARATOR;
            assert(join_fields(f1, sep) == f[0]);
            assert(join_fields(f2, sep) == f[0].push(sep) + f[1]);
            assert(join_fields(f3, sep) == (f[0].push(sep) + f[1]).push(sep) + f[2]);
            assert(out@ =~= self@.text());
        }
        out
    }

    /// Whether the record describes a file of the host file's type.
    pub fn matches_file_kind(&self, host_mode: u32) -> (r: bool)
        ensures
            r == (self.mode & S_IFMT == host_mode & S_IFMT),
    {
        self.mode & S_IFMT == host_mode & S_IFMT
    }
}

/// The host's name for a guest attribute, without its terminator.
pub open spec fn carrier_name(guest_name: Seq<u8>) -> Seq<u8> {
    USER_XATTR_CARRIER_PREFIX@ + guest_name
}

/// The name, with its terminator, under which the host stores a guest
/// attribute of the `user.` namespace.
pub fn user_xattr_host_name(guest_name: &[u8]) -> (r: Result<Vec<u8>, NameError>)
    ensures
        match r {
            Ok(name) => has_prefix(guest_name@, USER_PREFIX@) && carrier_name(guest_name@).len()
                <= MAX_HOST_XATTR_NAME_LEN && name@ == carrier_name(guest_name@).push(0),
            Err(NameError::UnsupportedNamespace) => !has_prefix(guest_name@, USER_PREFIX@),
            Err(NameError::TooLong) => has_prefix(guest_name@, USER_PREFIX@) && carrier_name(
                guest_name@,
            ).len() > MAX_HOST_XATTR_NAME_LEN,
        },
{
    if !starts_with(guest_name, &USER_PREFIX) {
        return Err(NameError::UnsupportedNamespace);
    }
    if guest_name.len() > MAX_HOST_XATTR_NAME_LEN - USER_XATTR_CARRIER_PREFIX.len() {
        return Err(NameError::TooLong);
    }
    let mut name: Vec<u8> = Vec::new();
    append_bytes(&mut name, &USER_XATTR_CARRIER_PREFIX);
    append_bytes(&mut name, guest_name);
    name.push(0);
    assert(name@ =~= carrier_name(guest_name@).push(0));
    Ok(name)
}

/// The guest's name of an attribute stored under a carrier name.
pub fn guest_name_from_carrier(host_name: &[u8]) -> (r: Option<&[u8]>)
    ensures
        match r {
            Some(guest) => host_name@ == carrier_name(guest@),
            None => forall|guest: Seq<u8>| host_name@ != #[trigger] carrier_name(guest),
        },
{
    if starts_with(host_name, &USER_XATTR_CARRIER_PREFIX) {
        let guest = vstd::slice::slice_subrange(
            host_name,
            USER_XATTR_CARRIER_PREFIX.len(),
            host_name.len(),
        );
        assert(host_name@ =~= carrier_name(guest@));
        Some(guest)
    } else {
        proof {
            assert forall|guest: Seq<u8>| host_name@ != #[trigger] carrier_name(guest) by {
                let prefix = USER_XATTR_CARRIER_PREFIX@;
                assert(carrier_name(guest).take(prefix.len() as int) =~= prefix);
            }
        }
        None
    }
}

/// A record is written as the owner and the group in decimal, the mode in octal
/// behind a zero, and the capability in hexadecimal or a dash for none, with
/// colons between them.
pub proof fn records_are_laid_out(m: MetadataView)
    ensures
        ({
            let capability = match m.capability {
                Some(value) => hex_text(value),
                None => seq![45u8],
            };
            m.text() == digits(m.uid as nat, 10) + seq![58u8] + digits(m.gid as nat, 10)
                + seq![58u8, 48] + digits(m.mode as nat, 8) + seq![58u8] + capability
        }),
{
    let f = m.fields();
    let three = f.drop_last();
    let two = three.drop_last();
    let one = two.drop_last();
    assert(join_fields(one, FIELD_SEPARATOR) == f[0]);
    assert(join_fields(two, FIELD_SEPARATOR) == f[0].push(FIELD_SEPARATOR) + f[1]);
    assert(join_fields(three, FIELD_SEPARATOR) == (f[0].push(FIELD_SEPARATOR) + f[1]).push(
        FIELD_SEPARATOR,
    ) + f[2]);
    assert(m.text() =~= f[0] + seq![58u8] + f[1] + seq![58u8, 48] + digits(m.mode as nat, 8) + seq![
        58u8,
    ] + f[3]);
}

/// What a hexadecimal digit in lower case is worth.
pub open spec fn hex_worth(b: u8) -> int {
    if 48 <= b <= 57 {
        b - 48
    } else if 97 <= b <= 102 {
        b - 87
    } else {
        -1
    }
}

/// Each byte is written as two hexadecimal digits, the higher one first.
pub proof fn bytes_are_two_digits(s: Seq<u8>, i: int)
    requires
        0 <= i < s.len(),
    ensures
        hex_text(s).len() == 2 * s.len(),
        0 <= hex_worth(hex_text(s)[2 * i]) < 16,
        0 <= hex_worth(hex_text(s)[2 * i + 1]) < 16,
        16 * hex_worth(hex_text(s)[2 * i]) + hex_worth(hex_text(s)[2 * i + 1]) == s[i],
{
}

/// A capability is of the second revision in twenty bytes or of the third in
/// twenty-four: its fourth byte is the revision, its first one says whether it is
/// effective, and the two between them are zero.
pub proof fn capabilities_are_laid_out(value: Seq<u8>)
    ensures
        is_capability(value) <==> {
            &&& value.len() == 20 && value[3] == 2 || value.len() == 24 && value[3] == 3
            &&& value[0] <= 1
            &&& value[1] == 0
            &&& value[2] == 0
        },
{
    crate::bits::lemma_words();
    if value.len() >= 4 {
        let (a, b, c, d) = (value[0], value[1], value[2], value[3]);
        let magic = capability_magic(value);
        assert(magic == a + 0x100 * b + 0x1_0000 * c + 0x100_0000 * d);
        assert((magic & !0xff00_0001u32 == 0 <==> a <= 1 && b == 0 && c == 0) && (magic
            & 0xff00_0000 == 0x0200_0000 <==> d == 2) && (magic & 0xff00_0000 == 0x0300_0000 <==> d
            == 3)) by (bit_vector)
            requires
                magic == a + 0x100 * b + 0x1_0000 * c + 0x100_0000 * d,
        ;
    }
}

/// A record holds the mode of a file, a directory or a link, in sixteen bits, and
/// an owner and a group that are not the one that stands for none.
pub proof fn records_hold_plain_modes(m: MetadataView)
    ensures
        m.valid() <==> {
            let kind = m.mode & 0o170000;
            &&& m.uid < 0xffff_ffff
            &&& m.gid < 0xffff_ffff
            &&& kind == 0o100000 || kind == 0o040000 || kind == 0o120000
            &&& m.mode < 0x1_0000
            &&& match m.capability {
                Some(value) => is_capability(value),
                None => true,
            }
        },
{
    crate::bits::lemma_words();
    let mode = m.mode;
    assert(mode & !0o177777u32 == 0 <==> mode < 0x1_0000) by (bit_vector);
}

} // verus!
