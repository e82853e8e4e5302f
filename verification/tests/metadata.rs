use krun_virtiofs::bytes::{bytes_equal_ignoring_case, split_bytes, text_equal};
use krun_virtiofs::override_stat::{
    encode_override, get_xattr_common, is_valid_owner, item_to_value, stat_xattr_common, Override,
};
use krun_virtiofs::sandbox_metadata::{
    guest_name_from_carrier, parse_capability, user_xattr_host_name, validate_capability, GuestMetadata,
    IdentityMapping, NameError, ParseError, MAX_HOST_XATTR_NAME_LEN, OVERFLOW_ID,
    USER_XATTR_CARRIER_PREFIX, VFS_CAP_REVISION_2, VFS_CAP_REVISION_2_SIZE, VFS_CAP_REVISION_3,
    VFS_CAP_REVISION_3_SIZE, XATTR_NAME_C,
};
use krun_virtiofs::stat::{apply_sandbox_stat, check_access, clear_suid_sgid, Context, Stat};
use krun_virtiofs::text::{parse_canonical, parse_number, push_digits, push_signed};

fn v2_capability() -> Vec<u8> {
    let mut value = vec![0; VFS_CAP_REVISION_2_SIZE];
    value[..4].copy_from_slice(&(VFS_CAP_REVISION_2 | 1).to_le_bytes());
    value
}

fn stat(mode: u16, uid: u32, gid: u32) -> Stat {
    Stat {
        dev: 1,
        ino: 2,
        mode,
        nlink: 1,
        uid,
        gid,
        rdev: 0,
        size: 0,
        blocks: 0,
        blksize: 4096,
        atime: 0,
        atime_nsec: 0,
        mtime: 0,
        mtime_nsec: 0,
        ctime: 0,
        ctime_nsec: 0,
    }
}

#[test]
fn identity_components_map_independently() {
    let mapping = IdentityMapping {
        host_uid: 502,
        host_gid: 20,
        guest_uid: 0,
        guest_gid: 0,
    };
    assert_eq!(mapping.guest_uid_for(502), 0);
    assert_eq!(mapping.guest_gid_for(80), OVERFLOW_ID);
    assert_eq!(mapping.guest_uid_for(501), OVERFLOW_ID);
    assert_eq!(mapping.guest_gid_for(20), 0);
}

#[test]
fn complete_metadata_round_trips_canonically() {
    let metadata = GuestMetadata {
        uid: 123,
        gid: 456,
        mode: libc::S_IFREG as u32 | 0o751,
        capability: Some(v2_capability()),
    };
    assert_eq!(GuestMetadata::parse(&metadata.encode()), Ok(metadata));
}

#[test]
fn malformed_or_partial_metadata_is_rejected() {
    for value in [
        &b"0:0:0100644"[..],
        &b"00:0:0100644:-"[..],
        &b"0:0:100644:-"[..],
        &b"0:0:0010644:-"[..],
        &b"0:0:020100644:-"[..],
        &b"0:0:0100644:ABCDEF"[..],
        &b"0:0:0100644:00"[..],
    ] {
        assert_eq!(GuestMetadata::parse(value), Err(ParseError), "{value:?}");
    }
    assert!(GuestMetadata::parse(b"4294967294:4294967294:0100644:-").is_ok());
    assert_eq!(
        GuestMetadata::parse(b"4294967295:0:0100644:-"),
        Err(ParseError)
    );
}

#[test]
fn carrier_names_follow_the_virtiofs_prefix_convention() {
    assert_eq!(
        user_xattr_host_name(b"user.comment").unwrap(),
        b"user.virtiofs.user.comment\0"
    );
    assert_eq!(
        guest_name_from_carrier(b"user.virtiofs.user.comment"),
        Some(&b"user.comment"[..])
    );
}

#[test]
fn carrier_names_enforce_the_macos_limit() {
    let longest = [b'x'; MAX_HOST_XATTR_NAME_LEN - USER_XATTR_CARRIER_PREFIX.len()];
    let mut guest = b"user.".to_vec();
    guest.extend_from_slice(&longest[guest.len()..]);
    assert!(user_xattr_host_name(&guest).is_ok());
    guest.push(b'x');
    assert_eq!(user_xattr_host_name(&guest), Err(NameError::TooLong));
}

#[test]
fn capability_validation_accepts_only_linux_v2_and_v3_layouts() {
    assert!(validate_capability(&v2_capability()));
    let mut v3 = vec![0; VFS_CAP_REVISION_3_SIZE];
    v3[..4].copy_from_slice(&VFS_CAP_REVISION_3.to_le_bytes());
    assert!(validate_capability(&v3));
    v3[0] = 2;
    assert!(!validate_capability(&v3));
    assert!(!validate_capability(&[0; VFS_CAP_REVISION_2_SIZE]));
}

#[test]
fn capability_revision_and_size_go_together() {
    let mut long = v2_capability();
    long.resize(VFS_CAP_REVISION_3_SIZE, 0);
    assert!(!validate_capability(&long));
    assert!(!validate_capability(&[]));
}

#[test]
fn capability_fields_are_exact() {
    assert_eq!(parse_capability(b"-"), Ok(None));
    let text = b"0100000200000000000000000000000000000000";
    assert_eq!(parse_capability(text), Ok(Some(v2_capability())));
    for field in [
        &b""[..],
        &b"--"[..],
        &b"010000020000000000000000000000000000000"[..],
        &b"0100000200000000000000000000000000000A00"[..],
        &b"01000002"[..],
    ] {
        assert_eq!(parse_capability(field), Err(ParseError), "{field:?}");
    }
}

#[test]
fn records_are_one_line_of_text() {
    let metadata = GuestMetadata {
        uid: 0,
        gid: 20,
        mode: libc::S_IFDIR as u32 | 0o755,
        capability: None,
    };
    assert_eq!(metadata.encode(), b"0:20:040755:-");
    let capable = GuestMetadata {
        uid: 1,
        gid: 2,
        mode: libc::S_IFREG as u32 | 0o755,
        capability: Some(v2_capability()),
    };
    assert_eq!(
        capable.encode(),
        b"1:2:0100755:0100000200000000000000000000000000000000"
    );
    assert_eq!(XATTR_NAME_C, *b"user.torkbot.sandbox.metadata\0");
}

#[test]
fn records_are_canonical() {
    for value in [
        &b"0:20:040755:-"[..],
        &b"7:8:0120777:-"[..],
        &b"1:2:0100755:0100000200000000000000000000000000000000"[..],
    ] {
        assert_eq!(GuestMetadata::parse(value).unwrap().encode(), value);
    }
    for value in [
        &b""[..],
        &b"+1:2:0100644:-"[..],
        &b"1:2:00100644:-"[..],
        &b"1:2:0100644:-:"[..],
        &b"1:2:0010644:-"[..],
        &b"1:4294967295:0100644:-"[..],
        &b"1:2:0100644:0100000200000000000000000000000000000G00"[..],
        &b"1:2:0100644:"[..],
    ] {
        assert_eq!(GuestMetadata::parse(value), Err(ParseError), "{value:?}");
    }
}

#[test]
fn native_metadata_maps_the_owner() {
    let mapping = IdentityMapping {
        host_uid: 502,
        host_gid: 20,
        guest_uid: 1000,
        guest_gid: 1001,
    };
    let native = GuestMetadata::from_native(mapping, 502, 80, 0o100644);
    assert_eq!((native.uid, native.gid), (1000, OVERFLOW_ID));
    assert_eq!(native.mode, 0o100644);
    assert_eq!(native.capability, None);
    assert!(native.matches_file_kind(0o100600));
    assert!(!native.matches_file_kind(0o040600));
}

#[test]
fn names_outside_the_user_namespace_have_no_carrier() {
    assert_eq!(
        user_xattr_host_name(b"trusted.x"),
        Err(NameError::UnsupportedNamespace)
    );
    assert_eq!(guest_name_from_carrier(b"user.comment"), None);
    assert_eq!(guest_name_from_carrier(b"user.virtiofs."), Some(&b""[..]));
}

#[test]
fn sandbox_stat_prefers_the_record() {
    let mapping = IdentityMapping {
        host_uid: 502,
        host_gid: 20,
        guest_uid: 0,
        guest_gid: 0,
    };
    let st = stat(0o100600, 502, 99);
    let native = apply_sandbox_stat(st, mapping, &None).unwrap();
    assert_eq!((native.uid, native.gid, native.mode), (0, OVERFLOW_ID, 0o100600));
    let record = GuestMetadata { uid: 5, gid: 6, mode: 0o100755, capability: None };
    let seen = apply_sandbox_stat(st, mapping, &Some(record)).unwrap();
    assert_eq!((seen.uid, seen.gid, seen.mode), (5, 6, 0o100755));
    assert_eq!(apply_sandbox_stat(stat(0o010600, 0, 0), mapping, &None), Err(95));
}

#[test]
fn privileged_bits_are_cleared() {
    assert_eq!(clear_suid_sgid(0o6755), 0o755);
    assert_eq!(clear_suid_sgid(0o6744), 0o2744);
    assert_eq!(clear_suid_sgid(0o104755), 0o100755);
    assert_eq!(clear_suid_sgid(clear_suid_sgid(0o6755)), clear_suid_sgid(0o6755));
}

#[test]
fn access_follows_the_permission_bits() {
    let root = Context { uid: 0, gid: 0, pid: 0 };
    let owner = Context { uid: 7, gid: 7, pid: 0 };
    let other = Context { uid: 8, gid: 8, pid: 0 };
    let st = stat(0o100640, 7, 9);
    assert_eq!(check_access(root, st, 6), Ok(()));
    assert_eq!(check_access(root, st, 1), Err(13));
    assert_eq!(check_access(root, stat(0o100001, 7, 9), 1), Ok(()));
    assert_eq!(check_access(owner, st, 6), Ok(()));
    assert_eq!(check_access(owner, st, 7), Err(13));
    assert_eq!(check_access(Context { uid: 8, gid: 9, pid: 0 }, st, 4), Ok(()));
    assert_eq!(check_access(Context { uid: 8, gid: 9, pid: 0 }, st, 2), Err(13));
    assert_eq!(check_access(other, st, 4), Err(13));
    assert_eq!(check_access(other, st, 0), Ok(()));
}

#[test]
fn overrides_are_read_part_by_part() {
    assert_eq!(
        get_xattr_common(b"123:456:0100644"),
        Override { uid: Some(123), gid: Some(456), mode: Some(0o100644) }
    );
    assert_eq!(
        get_xattr_common(b"x:456"),
        Override { uid: None, gid: Some(456), mode: None }
    );
    assert_eq!(
        get_xattr_common(b"+1:4294967296:9"),
        Override { uid: Some(1), gid: None, mode: None }
    );
    assert_eq!(item_to_value(b"", 10), None);
    assert_eq!(item_to_value(b"+", 10), None);
    assert_eq!(item_to_value(b"755", 8), Some(0o755));
    assert_eq!(item_to_value(b"fF", 16), Some(255));
    assert_eq!(item_to_value(b"zZ", 36), Some(35 * 36 + 35));
    assert_eq!(item_to_value(b"g", 16), None);
    assert_eq!(item_to_value(b"-1", 10), None);
}

#[test]
fn overrides_round_trip() {
    for o in [
        Override { uid: Some(0), gid: Some(4294967293), mode: Some(0) },
        Override { uid: None, gid: Some(1), mode: None },
        Override { uid: Some(1), gid: None, mode: Some(0o100755) },
    ] {
        assert_eq!(get_xattr_common(&encode_override(o)), o);
    }
    assert_eq!(
        encode_override(Override { uid: Some(1), gid: None, mode: Some(0o755) }),
        b"1:x:0755"
    );
    assert!(is_valid_owner(Some((0, 0))));
    assert!(!is_valid_owner(Some((4294967294, 0))));
    assert!(!is_valid_owner(None));
}

#[test]
fn overridden_attributes_keep_the_file_type() {
    let st = stat(0o100600, 502, 20);
    let seen = stat_xattr_common(st, Override { uid: Some(1), gid: None, mode: Some(0o755) });
    assert_eq!((seen.uid, seen.gid, seen.mode), (1, 20, 0o100755));
    let fifo = stat_xattr_common(st, Override { uid: None, gid: None, mode: Some(0o010644) });
    assert_eq!(fifo.mode, 0o010644);
}

#[test]
fn numbers_are_read_and_written() {
    let mut out = Vec::new();
    push_digits(&mut out, 0, 10);
    push_digits(&mut out, 8, 8);
    push_digits(&mut out, u64::MAX, 10);
    push_signed(&mut out, i32::MIN);
    assert_eq!(out, b"01018446744073709551615-2147483648");
    assert_eq!(parse_number(b"4294967295", 10), Some(u32::MAX));
    assert_eq!(parse_number(b"4294967296", 10), None);
    assert_eq!(parse_number(b"08", 8), None);
    assert_eq!(parse_canonical(b"0", 10), Some(0));
    assert_eq!(parse_canonical(b"00", 10), None);
    assert_eq!(parse_canonical(b"+1", 10), None);
}

#[test]
fn byte_strings_split_and_compare() {
    assert_eq!(split_bytes(b"a::b", b':'), vec![b"a".to_vec(), vec![], b"b".to_vec()]);
    assert_eq!(split_bytes(b"", b':'), vec![Vec::<u8>::new()]);
    assert!(bytes_equal_ignoring_case(b".Git", b".gIT"));
    assert!(!bytes_equal_ignoring_case(b"[", b"{"));
    assert!(text_equal("never", "never"));
    assert!(!text_equal("never", "Never"));
}
