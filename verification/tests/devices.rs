use std::io;
use std::sync::Arc;

use krun_virtiofs::abi;
use krun_virtiofs::block::{
    create_failure_message, BlockBuilder, BlockConfigError, BlockDeviceConfig, BlockDeviceSource,
    BlockParts, BlockRootConfig,
};
use krun_virtiofs::config::{CachePolicy, Config, Duration, PermissionSemantics};
use krun_virtiofs::fs_config::{FsDeviceBackend, FsDeviceConfig};
use krun_virtiofs::mask_fs::{entry_type, MaskConfig};
use krun_virtiofs::passthrough::xattr::XattrReply;
use krun_virtiofs::passthrough::Entry;
use krun_virtiofs::stat::Stat;
use krun_virtiofs::virtual_fs::{list_from, VirtualDirEntry, VirtualFs, VirtualFsBackend};
use krun_virtiofs::worker::{
    case_insensitivity, host_path_is_case_insensitive, next_action,
    uncached_masked_passthrough_config, FsBackend, FsServer, FsWorker, QueueAction, QueueEvent,
    WorkerEvent, HPQ_INDEX, REQ_INDEX,
};

#[test]
fn masked_passthrough_config_disables_entry_and_attr_caches() {
    let config = uncached_masked_passthrough_config(Config {
        root_dir: "/mask-lower".to_string(),
        ..Default::default()
    });

    assert_eq!(config.root_dir, "/mask-lower");
    assert_eq!(config.entry_timeout, Duration::zero());
    assert_eq!(config.attr_timeout, Duration::zero());
}

#[test]
fn non_macos_hosts_use_case_sensitive_mask_matching() {
    assert!(!host_path_is_case_insensitive("/unused").unwrap());
}

#[test]
fn the_host_says_whether_case_counts() {
    assert_eq!(case_insensitivity("/a", Ok(0)), Ok(true));
    assert_eq!(case_insensitivity("/a", Ok(1)), Ok(false));
    assert_eq!(case_insensitivity("/a", Err(2)), Err(2));
    assert_eq!(case_insensitivity("/a\0", Ok(0)), Err(libc::EINVAL));
}

#[test]
fn defaults_are_as_documented() {
    let config = Config::default();
    assert_eq!(config.entry_timeout, Duration::from_secs(5));
    assert_eq!(config.attr_timeout, Duration::from_secs(5));
    assert_eq!(config.cache_policy, CachePolicy::Auto);
    assert_eq!(config.root_dir, "/");
    assert!(!config.writeback);
    assert!(!config.xattr);
    assert_eq!(config.proc_sfd_rawfd, None);
    assert_eq!(config.semantics, PermissionSemantics::LinuxComplete);
    assert!(!Config { semantics: PermissionSemantics::LinuxSimplified, xattr: true, ..config }
        .xattr_supported());
}

#[test]
fn cache_policies_have_names() {
    for (name, policy) in [
        ("never", CachePolicy::Never),
        ("Never", CachePolicy::Never),
        ("AUTO", CachePolicy::Auto),
        ("auto", CachePolicy::Auto),
        ("Always", CachePolicy::Always),
    ] {
        assert_eq!(CachePolicy::from_str(name), Ok(policy));
    }
    assert_eq!("always".parse::<CachePolicy>(), Ok(CachePolicy::Always));
    assert_eq!("some".parse::<CachePolicy>(), Err("invalid cache policy"));
    assert_eq!(CachePolicy::from_str("nEver"), Err("invalid cache policy"));
    assert_eq!(CachePolicy::from_str(""), Err("invalid cache policy"));
}

#[test]
fn shared_constants_agree_with_the_c_library() {
    assert_eq!(abi::S_IFMT, libc::S_IFMT as u32);
    assert_eq!(abi::S_IFREG, libc::S_IFREG as u32);
    assert_eq!(abi::S_IFDIR, libc::S_IFDIR as u32);
    assert_eq!(abi::S_IFLNK, libc::S_IFLNK as u32);
    assert_eq!(abi::S_IFCHR, libc::S_IFCHR as u32);
    assert_eq!(abi::S_IFBLK, libc::S_IFBLK as u32);
    assert_eq!(abi::S_IFIFO, libc::S_IFIFO as u32);
    assert_eq!(abi::S_IFSOCK, libc::S_IFSOCK as u32);
    assert_eq!(abi::S_ISUID, libc::S_ISUID as u32);
    assert_eq!(abi::S_ISGID, libc::S_ISGID as u32);
    assert_eq!(abi::S_IXGRP, libc::S_IXGRP as u32);
    assert_eq!(abi::S_IWUSR, libc::S_IWUSR as u32);
    assert_eq!(abi::LINUX_ENOENT, libc::ENOENT);
    assert_eq!(abi::LINUX_EIO, libc::EIO);
    assert_eq!(abi::LINUX_EBADF, libc::EBADF);
    assert_eq!(abi::LINUX_EACCES, libc::EACCES);
    assert_eq!(abi::LINUX_EEXIST, libc::EEXIST);
    assert_eq!(abi::LINUX_EXDEV, libc::EXDEV);
    assert_eq!(abi::LINUX_EINVAL, libc::EINVAL);
    assert_eq!(abi::LINUX_EROFS, libc::EROFS);
    assert_eq!(abi::LINUX_ERANGE, libc::ERANGE);
    assert_eq!(abi::LINUX_ENOSYS, libc::ENOSYS);
    assert_eq!(abi::LINUX_ENODATA, libc::ENODATA);
    assert_eq!(abi::LINUX_EOPNOTSUPP, libc::EOPNOTSUPP);
    assert_eq!(abi::DT_DIR, libc::DT_DIR as u32);
    assert_eq!(abi::DT_REG, libc::DT_REG as u32);
    assert_eq!(abi::DT_LNK, libc::DT_LNK as u32);
    assert_eq!(abi::DT_CHR, libc::DT_CHR as u32);
    assert_eq!(abi::DT_BLK, libc::DT_BLK as u32);
    assert_eq!(abi::DT_FIFO, libc::DT_FIFO as u32);
    assert_eq!(abi::DT_SOCK, libc::DT_SOCK as u32);
    assert_eq!(abi::DT_UNKNOWN, libc::DT_UNKNOWN as u32);
    assert_eq!(abi::LINUX_O_CREAT, libc::O_CREAT as u32);
    assert_eq!(abi::LINUX_O_EXCL, libc::O_EXCL as u32);
    assert_eq!(abi::LINUX_O_TRUNC, libc::O_TRUNC as u32);
    assert_eq!(abi::LINUX_O_APPEND, libc::O_APPEND as u32);
    assert_eq!(abi::LINUX_O_NONBLOCK, libc::O_NONBLOCK as u32);
    assert_eq!(abi::LINUX_O_CLOEXEC, libc::O_CLOEXEC as u32);
    assert_eq!(abi::LINUX_FALLOC_FL_KEEP_SIZE, libc::FALLOC_FL_KEEP_SIZE as u32);
    assert_eq!(abi::LINUX_FALLOC_FL_PUNCH_HOLE, libc::FALLOC_FL_PUNCH_HOLE as u32);
    assert_eq!(abi::LINUX_RENAME_NOREPLACE, libc::RENAME_NOREPLACE);
    assert_eq!(abi::LINUX_RENAME_EXCHANGE, libc::RENAME_EXCHANGE);
    assert_eq!(abi::LINUX_RENAME_WHITEOUT, libc::RENAME_WHITEOUT);
    assert_eq!(abi::LINUX_XATTR_CREATE, libc::XATTR_CREATE as u32);
    assert_eq!(abi::LINUX_XATTR_REPLACE, libc::XATTR_REPLACE as u32);
}

fn stat(mode: u16) -> Stat {
    Stat {
        dev: 1,
        ino: 2,
        mode,
        nlink: 1,
        uid: 0,
        gid: 0,
        rdev: 0,
        size: 0,
        blocks: 0,
        blksize: 0,
        atime: 0,
        atime_nsec: 0,
        mtime: 0,
        mtime_nsec: 0,
        ctime: 0,
        ctime_nsec: 0,
    }
}

#[test]
fn entry_types_follow_the_mode() {
    assert_eq!(entry_type(&stat(0o040755)), libc::DT_DIR as u32);
    assert_eq!(entry_type(&stat(0o100755)), libc::DT_REG as u32);
    assert_eq!(entry_type(&stat(0o120755)), libc::DT_LNK as u32);
    assert_eq!(entry_type(&stat(0o020755)), libc::DT_CHR as u32);
    assert_eq!(entry_type(&stat(0o060755)), libc::DT_BLK as u32);
    assert_eq!(entry_type(&stat(0o010755)), libc::DT_FIFO as u32);
    assert_eq!(entry_type(&stat(0o140755)), libc::DT_SOCK as u32);
    assert_eq!(entry_type(&stat(0)), libc::DT_UNKNOWN as u32);
}

struct OneFile;

fn entry(inode: u64) -> Entry {
    Entry {
        inode,
        generation: 0,
        attr: stat(0o100644),
        attr_flags: 0,
        attr_timeout: Duration::zero(),
        entry_timeout: Duration::zero(),
    }
}

impl VirtualFsBackend for OneFile {
    fn lookup(&self, parent: u64, name: &[u8]) -> Result<Entry, i32> {
        if parent == 1 && name == b"file" {
            Ok(entry(2))
        } else {
            Err(libc::ENOENT)
        }
    }

    fn getattr(&self, inode: u64) -> Result<(Stat, Duration), i32> {
        Ok((Stat { ino: inode, ..stat(0o100644) }, Duration::zero()))
    }

    fn readdir(&self, _inode: u64) -> Result<Vec<VirtualDirEntry>, i32> {
        Ok(vec![
            VirtualDirEntry { inode: 2, type_: 8, name: b"file".to_vec() },
            VirtualDirEntry { inode: 3, type_: 8, name: b"other".to_vec() },
        ])
    }

    fn read(&self, _inode: u64, offset: u64, size: u32) -> Result<Vec<u8>, i32> {
        Ok(b"contents".iter().copied().skip(offset as usize).take(size as usize).collect())
    }

    fn create(&self, parent: u64, _name: &[u8], mode: u32) -> Result<Entry, i32> {
        Ok(entry(parent + mode as u64))
    }

    fn truncate(&self, inode: u64, size: u64) -> Result<(Stat, Duration), i32> {
        Ok((Stat { ino: inode, size: size as i64, ..stat(0o100644) }, Duration::zero()))
    }
}

#[test]
fn virtual_files_are_served_by_their_backend() {
    let backend: Arc<dyn VirtualFsBackend> = Arc::new(OneFile);
    let fs = VirtualFs::new(backend).clone();
    assert_eq!(fs.init(!0), 0);
    assert_eq!(fs.lookup(1, b"file").unwrap().inode, 2);
    assert_eq!(fs.lookup(1, b"none"), Err(libc::ENOENT));
    assert_eq!(fs.open(7), (7, 0));
    assert_eq!(fs.opendir(7), (7, 0));
    assert_eq!(fs.read(2, 3, 2), Ok(b"te".to_vec()));
    let (created, handle, options) = fs.create(10, b"x", 5).unwrap();
    assert_eq!((created.inode, handle, options), (15, 15, 0));
    assert_eq!(fs.mknod(10, b"x", 6).unwrap().inode, 16);
    assert_eq!(fs.access(2, 7), Ok(()));
    let attr = Stat { size: -1, ..stat(0o100644) };
    assert_eq!(fs.setattr(2, attr, abi::SETATTR_SIZE).unwrap().0.size, -1);
    assert_eq!(fs.setattr(2, attr, abi::SETATTR_MODE).unwrap().0.size, 0);
    assert_eq!(fs.getattr(9).unwrap().0.ino, 9);
}

#[test]
fn operations_that_are_not_provided_are_not_supported() {
    let fs = VirtualFs::new(Arc::new(OneFile));
    assert_eq!(fs.write(2, 0, b"x"), Err(libc::ENOSYS));
    assert_eq!(fs.mkdir(1, b"d", 0), Err(libc::ENOSYS));
    assert_eq!(fs.unlink(1, b"d"), Err(libc::ENOSYS));
    assert_eq!(fs.rmdir(1, b"d"), Err(libc::ENOSYS));
    assert_eq!(fs.rename(1, b"d", 1, b"e", 0), Err(libc::ENOSYS));
    assert_eq!(fs.link(1, 1, b"e"), Err(libc::ENOSYS));
    assert_eq!(fs.symlink(b"t", 1, b"e"), Err(libc::ENOSYS));
    assert_eq!(fs.readlink(1), Err(libc::ENOSYS));
    assert_eq!(fs.setxattr(1, b"n", b"v", 0), Err(libc::ENOSYS));
    let none: Result<XattrReply, i32> = Err(libc::ENOSYS);
    assert_eq!(fs.getxattr(1, b"n", 0), none);
    assert_eq!(fs.listxattr(1, 0), none);
    assert_eq!(fs.removexattr(1, b"n"), Err(libc::ENOSYS));
}

#[test]
fn virtual_listings_resume_behind_an_entry() {
    let fs = VirtualFs::new(Arc::new(OneFile));
    let entries = fs.readdir(1).unwrap();
    let all = list_from(&entries, 0);
    assert_eq!(all.len(), 2);
    assert_eq!((all[0].ino, all[0].offset, all[0].name), (2, 1, &b"file"[..]));
    let rest = list_from(&entries, all[0].offset);
    assert_eq!(rest.len(), 1);
    assert_eq!((rest[0].ino, rest[0].offset, rest[0].type_), (3, 2, 8));
    assert!(list_from(&entries, 2).is_empty());
    assert!(list_from(&entries, u64::MAX).is_empty());
}

fn worker(read_only: bool, masked: bool) -> FsWorker<OneFile, u8> {
    FsWorker::new(
        10,
        11,
        12,
        FsBackend::Passthrough {
            config: Config::default(),
            read_only,
            virtual_entries: vec![1, 2],
            mask: masked
                .then(|| MaskConfig { paths: vec!["/m".to_string()], storage: None }),
        },
        true,
    )
}

#[test]
fn workers_run_the_server_for_their_backend() {
    assert!(matches!(
        worker(false, false).server,
        FsServer::ReadWrite { config, .. } if config.entry_timeout == Duration::from_secs(5)
    ));
    assert!(matches!(worker(true, false).server, FsServer::ReadOnly { .. }));
    match worker(false, true).server {
        FsServer::MaskedReadWrite { config, plan, virtual_entries } => {
            assert_eq!(config.entry_timeout, Duration::zero());
            assert_eq!(plan.upper_semantics, PermissionSemantics::LinuxComplete);
            assert!(plan.case_insensitive);
            assert_eq!(plan.mask.paths, vec!["/m".to_string()]);
            assert_eq!(virtual_entries, vec![1, 2]);
        }
        _ => panic!("masked directory was not masked"),
    }
    assert!(matches!(worker(true, true).server, FsServer::MaskedReadOnly { .. }));
    let null: FsWorker<OneFile, u8> =
        FsWorker::new(1, 2, 3, FsBackend::Null { virtual_entries: vec![] }, false);
    assert!(matches!(null.server, FsServer::Null { .. }));
    let files: FsWorker<OneFile, u8> =
        FsWorker::new(1, 2, 3, FsBackend::Virtual(VirtualFs::new(Arc::new(OneFile))), false);
    assert!(matches!(files.server, FsServer::Virtual(_)));
}

#[test]
fn events_are_told_apart() {
    let worker = worker(false, false);
    assert_eq!(worker.classify(true, 10), WorkerEvent::Queue(HPQ_INDEX));
    assert_eq!(worker.classify(true, 11), WorkerEvent::Queue(REQ_INDEX));
    assert_eq!(worker.classify(true, 12), WorkerEvent::Stop);
    assert_eq!(worker.classify(true, 13), WorkerEvent::Unknown);
    assert_eq!(worker.classify(false, 12), WorkerEvent::Unknown);
}

#[test]
fn queues_are_emptied_and_requests_handed_back() {
    let script = [
        (QueueAction::ReadEvent, QueueEvent::Done),
        (QueueAction::DisableNotification, QueueEvent::Done),
        (QueueAction::Pop, QueueEvent::Popped(true)),
        (QueueAction::Handle, QueueEvent::Handled(Some(7))),
        (QueueAction::AddUsed { len: 7 }, QueueEvent::Done),
        (QueueAction::CheckNotification, QueueEvent::Needed(true)),
        (QueueAction::Signal, QueueEvent::Done),
        (QueueAction::Pop, QueueEvent::Popped(true)),
        (QueueAction::Handle, QueueEvent::Handled(None)),
        (QueueAction::AddUsed { len: 0 }, QueueEvent::Done),
        (QueueAction::CheckNotification, QueueEvent::Needed(false)),
        (QueueAction::Pop, QueueEvent::Popped(false)),
        (QueueAction::EnableNotification, QueueEvent::Missed(true)),
        (QueueAction::DisableNotification, QueueEvent::Done),
        (QueueAction::Pop, QueueEvent::Popped(false)),
        (QueueAction::EnableNotification, QueueEvent::Missed(false)),
    ];
    let mut action = QueueAction::ReadEvent;
    for (expected, event) in script {
        assert_eq!(action, expected);
        action = next_action(action, event);
    }
    assert_eq!(action, QueueAction::Finished);
    assert_eq!(
        next_action(QueueAction::Handle, QueueEvent::Handled(Some(0x1_0000_0005))),
        QueueAction::AddUsed { len: 5 }
    );
}

type Disk = BlockDeviceConfig<u8, u8, u8, &'static str>;

fn disk(source: BlockDeviceSource<u8, &'static str>) -> Disk {
    BlockDeviceConfig {
        block_id: "vda".to_string(),
        cache_type: 1,
        source,
        is_disk_read_only: true,
        direct_io: true,
        sync_mode: 3,
    }
}

fn make(parts: BlockParts<u8, u8, u8, &'static str>) -> io::Result<String> {
    match parts {
        BlockParts::Path {
            block_id,
            partuuid: None,
            cache_type: 1,
            disk_image_path,
            disk_image_format: 2,
            is_disk_read_only: true,
            direct_io: true,
            sync_mode: 3,
        } => Ok(format!("{block_id} {disk_image_path}")),
        BlockParts::Storage {
            block_id,
            partuuid: None,
            cache_type: 1,
            disk_image: "image",
            is_disk_read_only: true,
            sync_mode: 3,
        } => Ok(block_id),
        _ => Err(io::Error::from_raw_os_error(libc::ENOENT)),
    }
}

#[test]
fn block_devices_are_added_in_order() {
    let mut builder: BlockBuilder<String> = BlockBuilder::new();
    assert!(builder.list.is_empty());
    let path = || BlockDeviceSource::Path {
        disk_image_path: "/disk".to_string(),
        disk_image_format: 2,
    };
    builder.insert(disk(path()), make).unwrap();
    builder.insert(disk(BlockDeviceSource::Storage { disk_image: "image" }), make).unwrap();
    let broken = BlockDeviceSource::Storage { disk_image: "none" };
    assert!(builder.insert(disk(broken.clone()), make).is_err());
    assert_eq!(builder.list, ["vda /disk".to_string(), "vda".to_string()]);
    let error = match BlockBuilder::<String>::create_block(disk(broken), make) {
        Ok(_) => panic!("missing image was accepted"),
        Err(error) => error,
    };
    let message = error.message();
    let BlockConfigError::CreateBlockDevice(inner) = error;
    assert_eq!(message, format!("Cannot create block device: {inner:?}"));
    assert_eq!(create_failure_message("x"), "Cannot create block device: x");
}

#[test]
fn device_configurations_are_cloned() {
    let config: FsDeviceConfig<OneFile> = FsDeviceConfig {
        fs_id: "root".to_string(),
        backend: FsDeviceBackend::Passthrough {
            shared_dir: "/".to_string(),
            allow_root_dir_delete: false,
            read_only: true,
        },
        shm_size: Some(4096),
    };
    let copy = config.clone();
    assert_eq!(copy.fs_id, "root");
    assert_eq!(copy.shm_size, Some(4096));
    assert!(matches!(
        copy.backend,
        FsDeviceBackend::Passthrough { ref shared_dir, read_only: true, .. } if shared_dir == "/"
    ));
    let root = BlockRootConfig { device: "/dev/vda".to_string(), fstype: None, options: None };
    assert_eq!(root.clone(), root);
}
