//! File attributes, and the rules on mode bits and access rights.

use vstd::prelude::*;
use crate::abi::{
    F_OK, LINUX_EACCES, LINUX_EOPNOTSUPP, R_OK, S_IFDIR, S_IFLNK, S_IFMT, S_IFREG, S_ISGID, S_ISUID,
    S_IXGRP, W_OK, X_OK,
};
use crate::sandbox_metadata::{GuestMetadata, IdentityMapping, MetadataView};

verus! {

/// The guest process that makes a request.
#[derive(Debug, Clone, Copy, PartialEq, Eq, Structural)]
pub struct Context {
    pub uid: u32,
    pub gid: u32,
    pub pid: i32,
}

/// The attributes of a file, as the host reports them or as the guest sees them.
#[derive(Debug, Clone, Copy, PartialEq, Eq, Structural)]
pub struct Stat {
    pub dev: i32,
    pub ino: u64,
    pub mode: u16,
    pub nlink: u16,
    pub uid: u32,
    pub gid: u32,
    pub rdev: i32,
    pub size: i64,
    pub blocks: i64,
    pub blksize: i32,
    pub atime: i64,
    pub atime_nsec: i64,
    pub mtime: i64,
    pub mtime_nsec: i64,
    pub ctime: i64,
    pub ctime_nsec: i64,
}

impl View for Stat {
    type V = Stat;

    open spec fn view(&self) -> Stat {
        *self
    }
}

impl Stat {
    /// The mode with its file type bits.
    pub open spec fn full_mode(self) -> u32 {
        self.mode as u32
    }

    pub open spec fn kind(self) -> u32 {
        self.mode as u32 & S_IFMT
    }

    pub open spec fn is_link(self) -> bool {
        self.kind() == S_IFLNK
    }

    /// Whether this is a symbolic link.
    pub fn is_symlink(&self) -> (r: bool)
        ensures
            r == self.is_link(),
    {
        self.mode as u32 & S_IFMT == S_IFLNK
    }
}

/// The low sixteen bits of a mode, which are all that the host stores.
pub open spec fn host_bits(mode: u32) -> u16 {
    (mode % 0x1_0000) as u16
}

pub fn low_bits(mode: u32) -> (r: u16)
    ensures
        r == host_bits(mode),
{
    (mode % 0x1_0000) as u16
}

/// The mode without the bits that lend the owner's or the group's authority:
/// the set-user bit goes, and the set-group bit where the group may execute.
pub open spec fn unprivileged(mode: u32) -> u32 {
    if mode & S_IXGRP != 0 {
        mode & !S_ISUID & !S_ISGID
    } else {
        mode & !S_ISUID
    }
}

/// Clears the set-user bit, and the set-group bit if the group may execute.
pub fn clear_suid_sgid(mode: u32) -> (r: u32)
    ensures
        r == unprivileged(mode),
{
    let mut new_mode: u32 = mode & !S_ISUID;
    if mode & S_IXGRP != 0 {
        new_mode = new_mode & !S_ISGID;
    }
    new_mode
}

/// Clearing privileges twice is clearing them once; the file type, and every
/// permission bit but the set-user and set-group bits, stay as they are.
pub proof fn clearing_privileges_is_final(mode: u32)
    ensures
        unprivileged(unprivileged(mode)) == unprivileged(mode),
        unprivileged(mode) & 0o4000 == 0,
        mode & 0o010 != 0 ==> unprivileged(mode) & 0o2000 == 0,
        mode & 0o010 == 0 ==> unprivileged(mode) & 0o2000 == mode & 0o2000,
        unprivileged(mode) & !(0o4000u32 | 0o2000) == mode & !(0o4000u32 | 0o2000),
{
    assert({
        let m: u32 = if mode & 0o010 != 0 { mode & !0o4000 & !0o2000 } else { mode & !0o4000 };
        let n: u32 = if m & 0o010 != 0 { m & !0o4000 & !0o2000 } else { m & !0o4000 };
        &&& n == m
        &&& m & 0o4000 == 0
        &&& (mode & 0o010 != 0 ==> m & 0o2000 == 0)
        &&& (mode & 0o010 == 0 ==> m & 0o2000 == mode & 0o2000)
        &&& m & !(0o4000u32 | 0o2000u32) == mode & !(0o4000u32 | 0o2000u32)
    }) by (bit_vector);
}

/// The attributes that the guest sees under sandbox semantics: those of the
/// record where there is one, else the host's with the owner mapped. Without a
/// record only regular files, directories and symbolic links are served.
pub open spec fn sandbox_stat(
    st: Stat,
    mapping: IdentityMapping,
    record: Option<MetadataView>,
) -> Result<Stat, i32> {
    match record {
        Some(m) => Ok(Stat { uid: m.uid, gid: m.gid, mode: host_bits(m.mode), ..st }),
        None => if st.kind() == S_IFREG || st.kind() == S_IFDIR || st.kind() == S_IFLNK {
            Ok(Stat { uid: mapping.uid_of(st.uid), gid: mapping.gid_of(st.gid), ..st })
        } else {
            Err(LINUX_EOPNOTSUPP)
        },
    }
}

pub fn apply_sandbox_stat(
    st: Stat,
    mapping: IdentityMapping,
    record: &Option<GuestMetadata>,
) -> (r: Result<Stat, i32>)
    ensures
        r == sandbox_stat(
            st,
            mapping,
            match *record {
                Some(m) => Some(m@),
                None => None,
            },
        ),
{
    match record {
        Some(m) => Ok(Stat { uid: m.uid, gid: m.gid, mode: low_bits(m.mode), ..st }),
        None => {
            let kind: u32 = st.mode as u32 & S_IFMT;
            if kind != S_IFREG && kind != S_IFDIR && kind != S_IFLNK {
                return Err(LINUX_EOPNOTSUPP);
            }
            Ok(
                Stat {
                    uid: mapping.guest_uid_for(st.uid),
                    gid: mapping.guest_gid_for(st.gid),
                    ..st
                },
            )
        },
    }
}

/// The class of permission bits that admits `ctx` by ownership: owner, group
/// or others, each bit given for that class.
pub open spec fn class_admits(ctx: Context, st: Stat, user: u32, group: u32, other: u32) -> bool {
    ||| st.uid == ctx.uid && st.full_mode() & user != 0
    ||| st.gid == ctx.gid && st.full_mode() & group != 0
    ||| st.full_mode() & other != 0
}

/// `ctx` may read the file. Root may read anything.
pub open spec fn may_read(ctx: Context, st: Stat) -> bool {
    ctx.uid == 0 || class_admits(ctx, st, 0o400, 0o040, 0o004)
}

/// `ctx` may write the file. Root may write anything.
pub open spec fn may_write(ctx: Context, st: Stat) -> bool {
    ctx.uid == 0 || class_admits(ctx, st, 0o200, 0o020, 0o002)
}

/// `ctx` may execute the file. Root may execute what anyone may.
pub open spec fn may_execute(ctx: Context, st: Stat) -> bool {
    ||| ctx.uid == 0 && st.full_mode() & 0o111 != 0
    ||| class_admits(ctx, st, 0o100, 0o010, 0o001)
}

/// Every right that `mask` asks for is granted.
pub open spec fn access_granted(ctx: Context, st: Stat, mask: u32) -> bool {
    &&& mask & R_OK != 0 ==> may_read(ctx, st)
    &&& mask & W_OK != 0 ==> may_write(ctx, st)
    &&& mask & X_OK != 0 ==> may_execute(ctx, st)
}

/// Decides an access check on a file whose attributes are known.
pub fn check_access(ctx: Context, st: Stat, mask: u32) -> (r: Result<(), i32>)
    ensures
        r == if access_granted(ctx, st, mask) {
            Ok::<(), i32>(())
        } else {
            Err(LINUX_EACCES)
        },
{
    let mode: u32 = st.mode as u32;
    let owner: bool = st.uid == ctx.uid;
    let group: bool = st.gid == ctx.gid;
    if mask & R_OK != 0 && ctx.uid != 0 && (!owner || mode & 0o400 == 0) && (!group || mode & 0o040
        == 0) && mode & 0o004 == 0 {
        return Err(LINUX_EACCES);
    }
    if mask & W_OK != 0 && ctx.uid != 0 && (!owner || mode & 0o200 == 0) && (!group || mode & 0o020
        == 0) && mode & 0o002 == 0 {
        return Err(LINUX_EACCES);
    }
    if mask & X_OK != 0 && (ctx.uid != 0 || mode & 0o111 == 0) && (!owner || mode & 0o100 == 0) && (
    !group || mode & 0o010 == 0) && mode & 0o001 == 0 {
        return Err(LINUX_EACCES);
    }
    Ok(())
}

/// Root may always read and write, and a check that asks for no right finds
/// the file and nothing more.
pub proof fn root_reads_and_writes(ctx: Context, st: Stat, mask: u32)
    ensures
        ctx.uid == 0 && mask & X_OK == 0 ==> access_granted(ctx, st, mask),
        mask & (R_OK | W_OK | X_OK) == F_OK ==> access_granted(ctx, st, mask),
{
    assert(mask & (4u32 | 2 | 1) == 0 ==> mask & 4 == 0 && mask & 2 == 0 && mask & 1 == 0)
        by (bit_vector);
}

/// A process is granted access exactly where it has every right that it asks for;
/// the bits that lend a file's authority are cleared, and no others.
pub proof fn rights_are_checked(
    ctx: Context,
    st: Stat,
    mask: u32,
    r: Result<(), i32>,
    mode: u32,
    cleared: u32,
)
    requires
        call_ensures(check_access, (ctx, st, mask), r),
        call_ensures(clear_suid_sgid, (mode,), cleared),
    ensures
        ({
            let m = st.mode as u32;
            let (owner, group) = (st.uid == ctx.uid, st.gid == ctx.gid);
            let reads = ctx.uid == 0 || owner && m & 0o400 != 0 || group && m & 0o40 != 0 || m & 0o4
                != 0;
            let writes = ctx.uid == 0 || owner && m & 0o200 != 0 || group && m & 0o20 != 0 || m
                & 0o2 != 0;
            let runs = ctx.uid == 0 && m & 0o111 != 0 || owner && m & 0o100 != 0 || group && m
                & 0o10 != 0 || m & 0o1 != 0;
            r is Ok <==> (mask & 4 != 0 ==> reads) && (mask & 2 != 0 ==> writes) && (mask & 1 != 0
                ==> runs)
        }),
        r is Err ==> r == Err::<(), i32>(13),
        cleared & 0o4000 == 0,
        mode & 0o10 != 0 ==> cleared & 0o2000 == 0,
        mode & 0o10 == 0 ==> cleared & 0o2000 == mode & 0o2000,
        cleared & !(0o4000u32 | 0o2000) == mode & !(0o4000u32 | 0o2000),
{
    clearing_privileges_is_final(mode);
}

} // verus!
