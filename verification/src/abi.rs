//! Numbers of the guest's and the host's system interfaces. The guest is
//! Linux and speaks the FUSE protocol; the host is macOS.

use vstd::prelude::*;

verus! {

/// The file type bits of a mode.
pub const S_IFMT: u32 = 0o170000;

pub const S_IFIFO: u32 = 0o010000;

pub const S_IFCHR: u32 = 0o020000;

pub const S_IFDIR: u32 = 0o040000;

pub const S_IFBLK: u32 = 0o060000;

pub const S_IFREG: u32 = 0o100000;

pub const S_IFLNK: u32 = 0o120000;

pub const S_IFSOCK: u32 = 0o140000;

pub const S_ISUID: u32 = 0o4000;

pub const S_ISGID: u32 = 0o2000;

pub const S_IWUSR: u32 = 0o200;

pub const S_IXGRP: u32 = 0o010;

/// Error numbers of the guest.
pub const LINUX_ENOENT: i32 = 2;

pub const LINUX_EIO: i32 = 5;

pub const LINUX_EBADF: i32 = 9;

pub const LINUX_EACCES: i32 = 13;

pub const LINUX_EEXIST: i32 = 17;

pub const LINUX_EXDEV: i32 = 18;

pub const LINUX_EINVAL: i32 = 22;

pub const LINUX_EROFS: i32 = 30;

pub const LINUX_ERANGE: i32 = 34;

pub const LINUX_ENOSYS: i32 = 38;

pub const LINUX_ENODATA: i32 = 61;

pub const LINUX_EOPNOTSUPP: i32 = 95;

/// Error numbers of the host.
pub const EPERM: i32 = 1;

pub const ENOENT: i32 = 2;

pub const EACCES: i32 = 13;

pub const EEXIST: i32 = 17;

pub const ERANGE: i32 = 34;

pub const ENOATTR: i32 = 93;

pub const ENODATA: i32 = 96;

/// Flags of the host's `open`.
pub const O_RDONLY: u32 = 0;

pub const O_WRONLY: u32 = 1;

pub const O_RDWR: u32 = 2;

pub const O_ACCMODE: u32 = 3;

pub const O_NONBLOCK: u32 = 0x4;

pub const O_APPEND: u32 = 0x8;

pub const O_EXLOCK: u32 = 0x20;

pub const O_NOFOLLOW: u32 = 0x100;

pub const O_CREAT: u32 = 0x200;

pub const O_TRUNC: u32 = 0x400;

pub const O_EXCL: u32 = 0x800;

pub const O_EVTONLY: u32 = 0x8000;

pub const O_DIRECTORY: u32 = 0x10_0000;

pub const O_SYMLINK: u32 = 0x20_0000;

pub const O_CLOEXEC: u32 = 0x100_0000;

/// Flags of the guest's `open`.
pub const LINUX_O_EXCL: u32 = 0x80;

pub const LINUX_O_CREAT: u32 = 0x40;

pub const LINUX_O_TRUNC: u32 = 0x200;

pub const LINUX_O_APPEND: u32 = 0x400;

pub const LINUX_O_NONBLOCK: u32 = 0x800;

pub const LINUX_O_NOFOLLOW: u32 = 0x8000;

pub const LINUX_O_CLOEXEC: u32 = 0x8_0000;

/// Options of the host's extended attribute calls.
pub const XATTR_NOFOLLOW: u32 = 1;

pub const XATTR_CREATE: u32 = 2;

pub const XATTR_REPLACE: u32 = 4;

/// Options of the guest's `setxattr`.
pub const LINUX_XATTR_CREATE: u32 = 1;

pub const LINUX_XATTR_REPLACE: u32 = 2;

/// Options of the host's rename.
pub const RENAME_SWAP: u32 = 2;

pub const RENAME_EXCL: u32 = 4;

/// Options of the guest's rename.
pub const LINUX_RENAME_NOREPLACE: u32 = 1;

pub const LINUX_RENAME_EXCHANGE: u32 = 2;

pub const LINUX_RENAME_WHITEOUT: u32 = 4;

/// The option by which the host's unlink removes a directory.
pub const AT_REMOVEDIR: u32 = 0x80;

/// Modes of the guest's `fallocate`.
pub const LINUX_FALLOC_FL_ALLOCATE_RANGE: u32 = 0;

pub const LINUX_FALLOC_FL_KEEP_SIZE: u32 = 1;

pub const LINUX_FALLOC_FL_PUNCH_HOLE: u32 = 2;

/// Nanosecond values by which the host sets a time to now, or leaves it.
pub const UTIME_NOW: i64 = -1;

pub const UTIME_OMIT: i64 = -2;

/// Rights that an access check asks for.
pub const F_OK: u32 = 0;

pub const X_OK: u32 = 1;

pub const W_OK: u32 = 2;

pub const R_OK: u32 = 4;

/// The host's seek from the end of a file.
pub const SEEK_END: u32 = 2;

/// Protections of a memory mapping.
pub const PROT_READ: u32 = 1;

pub const PROT_WRITE: u32 = 2;

/// Types of directory entries.
pub const DT_UNKNOWN: u32 = 0;

pub const DT_FIFO: u32 = 1;

pub const DT_CHR: u32 = 2;

pub const DT_DIR: u32 = 4;

pub const DT_BLK: u32 = 6;

pub const DT_REG: u32 = 8;

pub const DT_LNK: u32 = 10;

pub const DT_SOCK: u32 = 12;

/// The inode number of a file system's root.
pub const ROOT_ID: u64 = 1;

/// The attribute flag of a directory on which another file system is mounted.
pub const ATTR_SUBMOUNT: u32 = 1;

/// Protocol features that a file system may offer to the guest.
pub const FS_DO_READDIRPLUS: u64 = 0x2000;

pub const FS_READDIRPLUS_AUTO: u64 = 0x4000;

pub const FS_WRITEBACK_CACHE: u64 = 0x1_0000;

pub const FS_SUBMOUNTS: u64 = 0x800_0000;

pub const FS_HANDLE_KILLPRIV_V2: u64 = 0x1000_0000;

pub const FS_SECURITY_CTX: u64 = 0x1_0000_0000;

/// Which attributes a request sets.
pub const SETATTR_MODE: u32 = 0x1;

pub const SETATTR_UID: u32 = 0x2;

pub const SETATTR_GID: u32 = 0x4;

pub const SETATTR_SIZE: u32 = 0x8;

pub const SETATTR_ATIME: u32 = 0x10;

pub const SETATTR_MTIME: u32 = 0x20;

pub const SETATTR_ATIME_NOW: u32 = 0x80;

pub const SETATTR_MTIME_NOW: u32 = 0x100;

pub const SETATTR_KILL_SUIDGID: u32 = 0x800;

/// The option by which a mapping is writable.
pub const SETUPMAPPING_WRITE: u64 = 1;

} // verus!
