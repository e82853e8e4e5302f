use std::cell::Cell;
use std::collections::BTreeMap;
use std::rc::Rc;

use krun_virtiofs::abi::{
    ENOATTR, FS_DO_READDIRPLUS, FS_HANDLE_KILLPRIV_V2, FS_READDIRPLUS_AUTO, FS_SECURITY_CTX,
    FS_SUBMOUNTS, FS_WRITEBACK_CACHE, LINUX_ENOENT, LINUX_EOPNOTSUPP, LINUX_O_CREAT, LINUX_O_EXCL,
    LINUX_O_TRUNC, O_CREAT, O_EXCL, O_NOFOLLOW, O_NONBLOCK, O_TRUNC, O_WRONLY, ROOT_ID, SETATTR_GID,
    SETATTR_ATIME, SETATTR_KILL_SUIDGID, SETATTR_MODE, SETATTR_MTIME_NOW, SETATTR_MTIME,
    SETATTR_SIZE, SETATTR_UID, UTIME_NOW, UTIME_OMIT,
};
use krun_virtiofs::attributes::{fstat, istat, SANDBOX_STAT_OPEN_FLAGS};
use krun_virtiofs::config::{CachePolicy, Config, Duration, PermissionSemantics, SandboxConfig};
use krun_virtiofs::handles::{CachedDirEntry, Delivery, DirEntry, Fill, FillReply, ListStart};
use krun_virtiofs::host::{Attr, Call, HostCall, HostError, Node, Reply, Slot, Step};
use krun_virtiofs::mask_fs::listing::{
    ListEvent, Listing, MaskListing, MaskedChild, Pass, SYNTHETIC_READDIR_OFFSET,
};
use krun_virtiofs::mask_fs::{
    mask_options, storage_dirs, unmap_result, upper_config, Backend, MaskConfig, MaskFs, Place,
    RenamePlace,
};
use krun_virtiofs::opening::{open_sandbox_create, options_for, parse_open_flags};
use krun_virtiofs::passthrough::create::{CreateRequest, NodeRequest};
use krun_virtiofs::passthrough::mapping::{MapRequest, SharedRegion, UnmapRequest};
use krun_virtiofs::passthrough::setattr::SetattrRequest;
use krun_virtiofs::passthrough::xattr::XattrReply;
use krun_virtiofs::passthrough::{Entry, PassthroughFs};
use krun_virtiofs::sandbox::{
    prepare_sandbox_content_mutation, read_sandbox_metadata, write_sandbox_metadata,
};
use krun_virtiofs::sandbox_metadata::{GuestMetadata, IdentityMapping, OVERFLOW_ID};
use krun_virtiofs::stat::{Context, Stat};

const HOST_UID: u32 = 502;
const HOST_GID: u32 = 20;
const DEV: i32 = 16;

/// A host file.
struct HostFile {
    st: Stat,
    xattrs: BTreeMap<Vec<u8>, Vec<u8>>,
    data: Vec<u8>,
    children: BTreeMap<Vec<u8>, u64>,
    target: Vec<u8>,
}

/// The names and values of a request.
#[derive(Default, Clone)]
struct Request {
    name: Vec<u8>,
    new_name: Vec<u8>,
    value: Vec<u8>,
    label: Vec<u8>,
    label_value: Vec<u8>,
    target: Vec<u8>,
}

fn named(name: &str) -> Request {
    Request { name: name.as_bytes().to_vec(), ..Default::default() }
}

/// A host with files in memory.
struct Host {
    files: BTreeMap<u64, HostFile>,
    fds: BTreeMap<i32, u64>,
    next_fd: i32,
    next_ino: u64,
    allocator: Rc<Cell<u64>>,
    calls: Vec<Call>,
    stored: Vec<Vec<u8>>,
    volume_has_xattrs: bool,
}

const ROOT_INO: u64 = 100;

fn blank(ino: u64, mode: u32) -> Stat {
    Stat {
        dev: DEV,
        ino,
        mode: mode as u16,
        nlink: 1,
        uid: HOST_UID,
        gid: HOST_GID,
        rdev: 0,
        size: 0,
        blocks: 0,
        blksize: 4096,
        atime: 0,
        atime_nsec: 0,
        mtime: 0,
        mtime_nsec: 0,
        ctime: 0,
        ctime_nsec: 0,
    }
}

fn failed(raw: i32, linux: i32) -> Reply {
    Reply::Error(HostError { raw, linux })
}

impl Host {
    fn new(allocator: Rc<Cell<u64>>) -> Self {
        let mut host = Host {
            files: BTreeMap::new(),
            fds: BTreeMap::new(),
            next_fd: 3,
            next_ino: ROOT_INO + 1,
            allocator,
            calls: Vec::new(),
            stored: Vec::new(),
            volume_has_xattrs: true,
        };
        host.files.insert(ROOT_INO, host.file(ROOT_INO, 0o040755));
        host
    }

    fn file(&self, ino: u64, mode: u32) -> HostFile {
        HostFile {
            st: blank(ino, mode),
            xattrs: BTreeMap::new(),
            data: Vec::new(),
            children: BTreeMap::new(),
            target: Vec::new(),
        }
    }

    fn make(&mut self, dir: u64, name: &[u8], mode: u32) -> u64 {
        let ino = self.next_ino;
        self.next_ino += 1;
        let file = self.file(ino, mode);
        self.files.insert(ino, file);
        self.files.get_mut(&dir).unwrap().children.insert(name.to_vec(), ino);
        ino
    }

    fn write(&mut self, dir: u64, name: &str, data: &str) -> u64 {
        let ino = self.make(dir, name.as_bytes(), 0o100644);
        let file = self.files.get_mut(&ino).unwrap();
        file.data = data.as_bytes().to_vec();
        file.st.size = data.len() as i64;
        ino
    }

    fn open_fd(&mut self, ino: u64) -> i32 {
        let fd = self.next_fd;
        self.next_fd += 1;
        self.fds.insert(fd, ino);
        fd
    }

    /// The directory and the name that a path text leads to.
    fn locate(&self, at: Node, req: &Request) -> (u64, Option<Vec<u8>>) {
        let text = String::from_utf8(at.path(&req.name, &req.new_name).unwrap()).unwrap();
        let mut parts = text.strip_prefix("/.vol/").unwrap().splitn(3, '/');
        assert_eq!(parts.next().unwrap(), DEV.to_string());
        let ino = parts.next().unwrap().parse().unwrap();
        (ino, parts.next().map(|name| name.as_bytes().to_vec()))
    }

    fn resolve(&self, at: Node, req: &Request) -> Option<u64> {
        match at {
            Node::Fd(fd) => self.fds.get(&fd).copied(),
            _ => {
                let (ino, name) = self.locate(at, req);
                match name {
                    None => self.files.contains_key(&ino).then_some(ino),
                    Some(name) => self.files.get(&ino)?.children.get(&name).copied(),
                }
            }
        }
    }

    fn slot<'a>(slot: Slot, req: &'a Request) -> &'a Vec<u8> {
        match slot {
            Slot::Name => &req.name,
            Slot::NewName => &req.new_name,
        }
    }

    fn attr(attr: Attr, req: &Request) -> Vec<u8> {
        let mut name = attr.host_name(&req.name, &req.label);
        assert_eq!(name.pop(), Some(0));
        name
    }

    fn perform(&mut self, call: HostCall, req: &Request) -> Reply {
        let call = match call {
            HostCall::Store { at, attr, value, .. } => {
                if !self.volume_has_xattrs {
                    return failed(102, 95);
                }
                let Some(ino) = self.resolve(at, req) else { return failed(2, 2) };
                self.stored.push(value.clone());
                let name = Self::attr(attr, req);
                self.files.get_mut(&ino).unwrap().xattrs.insert(name, value);
                return Reply::Done;
            }
            HostCall::Do(call) => call,
        };
        self.calls.push(call);
        match call {
            Call::OpenRoot { .. } => Reply::Fd(self.open_fd(ROOT_INO)),
            Call::ClearUmask => Reply::Done,
            Call::AllocateInode => {
                let inode = self.allocator.get();
                self.allocator.set(inode + 1);
                Reply::Count(inode)
            }
            Call::Close { fd } => {
                assert!(self.fds.remove(&fd).is_some(), "descriptor closed twice");
                Reply::Done
            }
            Call::Dup { fd } => {
                let ino = self.fds[&fd];
                Reply::Fd(self.open_fd(ino))
            }
            Call::Open { at, flags, mode } => {
                let (dir, name) = self.locate(at, req);
                let found = self.resolve(at, req);
                if flags & O_CREAT != 0 && found.is_some() && flags & O_EXCL != 0 {
                    return failed(17, 17);
                }
                let ino = match (found, name) {
                    (Some(ino), _) => ino,
                    (None, Some(name)) if flags & O_CREAT != 0 => {
                        self.make(dir, &name, 0o100000 | (mode & 0o777))
                    }
                    _ => return failed(2, 2),
                };
                if flags & O_TRUNC != 0 {
                    let file = self.files.get_mut(&ino).unwrap();
                    file.data.clear();
                    file.st.size = 0;
                }
                Reply::Fd(self.open_fd(ino))
            }
            Call::OpenAt { dir, slot, .. } => {
                let dir = self.fds[&dir];
                match self.files[&dir].children.get(Self::slot(slot, req)).copied() {
                    Some(ino) => Reply::Fd(self.open_fd(ino)),
                    None => failed(2, 2),
                }
            }
            Call::Stat { at } => match self.resolve(at, req) {
                Some(ino) => Reply::Stat(self.files[&ino].st),
                None => failed(2, 2),
            },
            Call::AttrSize { at, attr, .. } => {
                if !self.volume_has_xattrs {
                    return failed(102, 95);
                }
                let ino = self.resolve(at, req).unwrap();
                match self.files[&ino].xattrs.get(&Self::attr(attr, req)) {
                    Some(value) => Reply::Count(value.len() as u64),
                    None => failed(ENOATTR, 61),
                }
            }
            Call::GetAttr { at, attr, size, .. } => {
                if !self.volume_has_xattrs {
                    return failed(102, 95);
                }
                let ino = self.resolve(at, req).unwrap();
                match self.files[&ino].xattrs.get(&Self::attr(attr, req)) {
                    Some(value) if value.len() as u64 > size => failed(34, 34),
                    Some(value) => Reply::Bytes(value.clone()),
                    None => failed(ENOATTR, 61),
                }
            }
            Call::SetAttr { at, attr, .. } => {
                let ino = self.resolve(at, req).unwrap();
                let value = match attr {
                    Attr::Label => req.label_value.clone(),
                    _ => req.value.clone(),
                };
                let name = Self::attr(attr, req);
                self.files.get_mut(&ino).unwrap().xattrs.insert(name, value);
                Reply::Done
            }
            Call::RemoveAttr { at, attr, .. } => {
                let ino = self.resolve(at, req).unwrap();
                match self.files.get_mut(&ino).unwrap().xattrs.remove(&Self::attr(attr, req)) {
                    Some(_) => Reply::Done,
                    None => failed(ENOATTR, 61),
                }
            }
            Call::ListSize { at, .. } => {
                let ino = self.resolve(at, req).unwrap();
                let size = self.files[&ino].xattrs.keys().map(|k| k.len() + 1).sum::<usize>();
                Reply::Count(size as u64)
            }
            Call::ListAttrs { at, .. } => {
                let ino = self.resolve(at, req).unwrap();
                let mut list = Vec::new();
                for key in self.files[&ino].xattrs.keys() {
                    list.extend_from_slice(key);
                    list.push(0);
                }
                Reply::Bytes(list)
            }
            Call::Chmod { at, mode } => {
                let ino = self.resolve(at, req).unwrap();
                let st = &mut self.files.get_mut(&ino).unwrap().st;
                st.mode = (st.mode & 0o170000) | (mode & 0o7777);
                Reply::Done
            }
            Call::MakeDir { at, mode } => {
                if self.resolve(at, req).is_some() {
                    return failed(17, 17);
                }
                let (dir, name) = self.locate(at, req);
                self.make(dir, &name.unwrap(), 0o040000 | mode as u32);
                Reply::Done
            }
            Call::MakeNode { at, mode, .. } => {
                let (dir, name) = self.locate(at, req);
                self.make(dir, &name.unwrap(), mode as u32);
                Reply::Done
            }
            Call::BindSocket { at } => {
                let (dir, name) = self.locate(at, req);
                self.make(dir, &name.unwrap(), 0o140755);
                Reply::Done
            }
            Call::MakeLink { at } => {
                let (dir, name) = self.locate(at, req);
                let ino = self.make(dir, &name.unwrap(), 0o120755);
                self.files.get_mut(&ino).unwrap().target = req.target.clone();
                Reply::Done
            }
            Call::HardLink { from, to } => {
                let ino = self.resolve(from, req).unwrap();
                let (dir, name) = self.locate(to, req);
                self.files.get_mut(&dir).unwrap().children.insert(name.unwrap(), ino);
                Reply::Done
            }
            Call::Rename { from, to, .. } => {
                let (olddir, oldname) = self.locate(from, req);
                let (newdir, newname) = self.locate(to, req);
                let moved =
                    self.files.get_mut(&olddir).unwrap().children.remove(&oldname.unwrap());
                match moved {
                    None => failed(2, 2),
                    Some(ino) => {
                        self.files.get_mut(&newdir).unwrap().children.insert(newname.unwrap(), ino);
                        Reply::Done
                    }
                }
            }
            Call::Unlink { dir, slot, .. } => {
                let dir = self.fds[&dir];
                let name = Self::slot(slot, req).clone();
                match self.files.get_mut(&dir).unwrap().children.remove(&name) {
                    Some(_) => Reply::Done,
                    None => failed(2, 2),
                }
            }
            Call::Truncate { fd, size } => {
                let file = self.files.get_mut(&self.fds[&fd]).unwrap();
                file.data.resize(size as usize, 0);
                file.st.size = size;
                Reply::Done
            }
            Call::Write { fd, size, offset } => {
                let file = self.files.get_mut(&self.fds[&fd]).unwrap();
                let end = offset as usize + size as usize;
                file.data.resize(end.max(file.data.len()), 0);
                file.data[offset as usize..end].copy_from_slice(&req.value[..size as usize]);
                file.st.size = file.data.len() as i64;
                Reply::Count(size as u64)
            }
            Call::Read { fd, size, offset } => {
                let len = self.files[&self.fds[&fd]].data.len() as u64;
                Reply::Count(len.saturating_sub(offset).min(size as u64))
            }
            Call::ReadLink { at } => {
                let ino = self.resolve(at, req).unwrap();
                Reply::Bytes(self.files[&ino].target.clone())
            }
            Call::Seek { .. } => Reply::Count(77),
            Call::MapFile { .. } => Reply::Count(0x7000),
            Call::AddMapping { .. } | Call::RemoveMapping { .. } => Reply::Count(1),
            _ => Reply::Done,
        }
    }
}

fn drive<T>(
    host: &mut Host,
    req: &Request,
    mut operation: impl FnMut(&Vec<Reply>) -> Step<T>,
) -> Result<T, i32> {
    let mut log = Vec::new();
    loop {
        match operation(&log) {
            Step::Call(call) => {
                let reply = host.perform(call, req);
                log.push(reply);
            }
            Step::Done(value, used) => {
                assert_eq!(used, log.len());
                return Ok(value);
            }
            Step::Fail(error, used) => {
                assert_eq!(used, log.len());
                return Err(error);
            }
        }
    }
}

/// A served directory and its host.
struct Tree {
    fs: PassthroughFs,
    host: Host,
}

fn identity() -> IdentityMapping {
    IdentityMapping { host_uid: HOST_UID, host_gid: HOST_GID, guest_uid: 0, guest_gid: 0 }
}

fn sandbox_config(xattrs_enabled: bool) -> SandboxConfig {
    SandboxConfig { identity: identity(), xattrs_enabled }
}

fn sandbox(xattrs_enabled: bool) -> PermissionSemantics {
    PermissionSemantics::Sandbox(sandbox_config(xattrs_enabled))
}

fn with_semantics(semantics: PermissionSemantics) -> Config {
    Config { semantics, xattr: true, ..Default::default() }
}

fn serve(config: Config, allocator: &Rc<Cell<u64>>) -> Result<Tree, i32> {
    let mut host = Host::new(allocator.clone());
    let fs = drive(&mut host, &Request::default(), |log| PassthroughFs::new(config.clone(), log))?;
    assert!(host.fds.is_empty());
    Ok(Tree { fs, host })
}

fn tree(semantics: PermissionSemantics, capable: u64) -> Tree {
    let mut tree = serve(with_semantics(semantics), &Rc::new(Cell::new(2))).unwrap();
    tree.init(capable).unwrap();
    tree
}

fn context() -> Context {
    Context { uid: HOST_UID, gid: HOST_GID, pid: 0 }
}

fn guest_root() -> Context {
    Context { uid: 0, gid: 0, pid: 0 }
}

impl Tree {
    fn init(&mut self, capable: u64) -> Result<u64, i32> {
        let Tree { fs, host } = self;
        drive(host, &Request::default(), |log| fs.init(capable, log))
    }

    fn lookup(&mut self, parent: u64, name: &str) -> Result<Entry, i32> {
        let Tree { fs, host } = self;
        drive(host, &named(name), |log| fs.lookup(guest_root(), parent, log))
    }

    fn create(
        &mut self,
        ctx: Context,
        name: &str,
        req: CreateRequest,
    ) -> Result<(Entry, u64, u32), i32> {
        let Tree { fs, host } = self;
        drive(host, &named(name), |log| fs.create(ctx, req, log))
    }

    fn open(&mut self, inode: u64, kill_priv: bool, flags: u32) -> Result<(u64, u32), i32> {
        let Tree { fs, host } = self;
        drive(host, &Request::default(), |log| fs.open(guest_root(), inode, kill_priv, flags, log))
    }

    fn setattr(&mut self, req: SetattrRequest) -> Result<(Stat, Duration), i32> {
        let Tree { fs, host } = self;
        drive(host, &Request::default(), |log| fs.setattr(guest_root(), req, log))
    }

    fn record(&mut self, ino: u64) -> Option<GuestMetadata> {
        let st = self.host.files[&ino].st;
        let at = Node::Inode { dev: DEV, ino };
        drive(&mut self.host, &Request::default(), |log| read_sandbox_metadata(at, st, log, 0))
            .unwrap()
            .record
    }

    fn adopt(&mut self, ino: u64, metadata: &GuestMetadata) {
        let st = self.host.files[&ino].st;
        let at = Node::Inode { dev: DEV, ino };
        drive(&mut self.host, &Request::default(), |log| {
            write_sandbox_metadata(at, st, metadata, log, 0)
        })
        .unwrap();
    }

    fn view(&mut self, at: Node, semantics: PermissionSemantics) -> Result<Stat, i32> {
        drive(&mut self.host, &Request::default(), |log| {
            istat(context(), semantics, at, log, 0)
        })
    }

    fn removals(&self) -> usize {
        self.host.calls.iter().filter(|call| matches!(call, Call::Unlink { .. })).count()
    }
}

fn regular(uid: u32, gid: u32, mode: u32, capability: Option<Vec<u8>>) -> GuestMetadata {
    GuestMetadata { uid, gid, mode: libc::S_IFREG as u32 | mode, capability }
}

fn v2_capability() -> Vec<u8> {
    let mut capability = vec![0; 20];
    capability[..4].copy_from_slice(&0x0200_0000_u32.to_le_bytes());
    capability
}

fn create_request(mode: u32, flags: u32, kill_priv: bool) -> CreateRequest {
    CreateRequest { parent: ROOT_ID, mode, kill_priv, flags, umask: 0, labelled: false }
}

fn node_request(mode: u32) -> NodeRequest {
    NodeRequest { parent: ROOT_ID, mode, rdev: 0, umask: 0, labelled: false }
}

#[test]
fn sandbox_does_not_negotiate_security_contexts() {
    let capable = FS_SECURITY_CTX;
    let mut native = serve(Config::default(), &Rc::new(Cell::new(2))).unwrap();
    assert!(native.init(capable).unwrap() & FS_SECURITY_CTX != 0);

    let mut sandboxed = serve(with_semantics(sandbox(true)), &Rc::new(Cell::new(2))).unwrap();
    assert!(sandboxed.init(capable).unwrap() & FS_SECURITY_CTX == 0);
}

#[test]
fn sandbox_rejects_guest_identity_that_collides_with_overflow() {
    for identity in [
        IdentityMapping { guest_uid: OVERFLOW_ID, ..sandbox_config(true).identity },
        IdentityMapping { guest_gid: OVERFLOW_ID, ..sandbox_config(true).identity },
    ] {
        let result = serve(
            Config {
                semantics: PermissionSemantics::Sandbox(SandboxConfig {
                    identity,
                    xattrs_enabled: true,
                }),
                ..Default::default()
            },
            &Rc::new(Cell::new(2)),
        );
        let error = match result {
            Ok(_) => panic!("overflow identity unexpectedly accepted"),
            Err(error) => error,
        };
        assert_eq!(error, libc::EINVAL);
    }
}

#[test]
fn native_only_mode_does_not_hide_existing_metadata() {
    let mut tree = tree(sandbox(true), 0);
    let ino = tree.host.write(ROOT_INO, "adopted", "contents");
    tree.adopt(ino, &regular(123, 456, 0o640, None));

    let st = tree.view(Node::Inode { dev: DEV, ino }, sandbox(false)).unwrap();
    assert_eq!((st.uid, st.gid), (123, 456));
    assert_eq!(st.mode as u32 & 0o7777, 0o640);
}

#[test]
fn native_only_content_mutation_succeeds_when_metadata_is_unchanged() {
    let mut tree = tree(sandbox(false), 0);
    let ino = tree.host.write(ROOT_INO, "native", "contents");
    let at = Node::Inode { dev: DEV, ino };

    drive(&mut tree.host, &Request::default(), |log| {
        prepare_sandbox_content_mutation(sandbox_config(false), at, false, log, 0)
    })
    .unwrap();

    assert_eq!(tree.record(ino), None);
}

#[test]
fn native_only_create_succeeds_when_native_metadata_matches() {
    let mut tree = tree(sandbox(false), 0);
    let Tree { fs, host } = &mut tree;
    let entry = drive(host, &named("native"), |log| {
        fs.mknod(guest_root(), node_request(libc::S_IFREG as u32 | 0o600), log)
    })
    .unwrap();

    assert_eq!((entry.attr.uid, entry.attr.gid), (0, 0));
    assert_eq!(entry.attr.mode as u32 & 0o7777, 0o600);
    assert_eq!(tree.record(entry.attr.ino), None);
}

#[test]
fn opened_stat_ignores_path_replacement() {
    let mut tree = tree(sandbox(true), 0);
    let ino = tree.host.write(ROOT_INO, "file", "opened");
    tree.adopt(ino, &regular(123, 456, 0o640, None));
    let fd = tree.host.open_fd(ino);

    let root = tree.host.files.get_mut(&ROOT_INO).unwrap();
    let detached = root.children.remove(&b"file"[..]).unwrap();
    root.children.insert(b"detached".to_vec(), detached);
    let replacement = tree.host.write(ROOT_INO, "file", "replacement");

    let st = drive(&mut tree.host, &Request::default(), |log| {
        fstat(context(), sandbox(true), Node::Fd(fd), log, 0)
    })
    .unwrap();
    assert_eq!((st.uid, st.gid), (123, 456));
    assert_eq!(st.mode as u32 & 0o7777, 0o640);
    assert_eq!((st.dev, st.ino), (DEV, ino));
    assert_ne!((st.dev, st.ino), (DEV, replacement));
}

#[test]
fn sandbox_lstat_reads_symlink_metadata_from_open_descriptor() {
    let mut tree = tree(sandbox(true), 0);
    let ino = tree.host.make(ROOT_INO, b"link", 0o120755);
    tree.host.files.get_mut(&ino).unwrap().target = b"target".to_vec();
    tree.adopt(
        ino,
        &GuestMetadata {
            uid: 123,
            gid: 456,
            mode: libc::S_IFLNK as u32 | 0o777,
            capability: None,
        },
    );

    let st = tree.view(Node::Inode { dev: DEV, ino }, sandbox(true)).unwrap();
    assert_eq!((st.uid, st.gid), (123, 456));
    assert_eq!(st.mode as u32 & libc::S_IFMT as u32, libc::S_IFLNK as u32);
    assert!(tree.host.fds.is_empty());
}

#[test]
fn sandbox_lstat_rejects_fifo_without_blocking() {
    assert_ne!(SANDBOX_STAT_OPEN_FLAGS & O_NONBLOCK, 0);
    let mut tree = tree(sandbox(true), 0);
    let ino = tree.host.make(ROOT_INO, b"fifo", 0o010600);

    let error = tree.view(Node::Inode { dev: DEV, ino }, sandbox(true)).unwrap_err();
    assert_eq!(error, LINUX_EOPNOTSUPP);
}

#[test]
fn content_mutation_clears_capability_without_kill_priv() {
    let mut tree = tree(sandbox(true), 0);
    let ino = tree.host.write(ROOT_INO, "capable", "contents");
    tree.adopt(ino, &regular(0, 0, 0o755, Some(v2_capability())));
    let at = Node::Inode { dev: DEV, ino };

    drive(&mut tree.host, &Request::default(), |log| {
        prepare_sandbox_content_mutation(sandbox_config(true), at, false, log, 0)
    })
    .unwrap();

    let metadata = tree.record(ino).unwrap();
    assert_eq!(metadata.capability, None);
    assert_eq!(metadata.mode & 0o7777, 0o755);
}

#[test]
fn create_truncate_applies_kill_priv_to_requested_mode() {
    let mut tree = tree(sandbox(true), FS_HANDLE_KILLPRIV_V2);
    let flags = LINUX_O_CREAT | LINUX_O_TRUNC | O_WRONLY;

    let (entry, handle, _) =
        tree.create(context(), "created", create_request(0o6755, flags, true)).unwrap();

    let metadata = tree.record(entry.attr.ino).unwrap();
    assert_eq!(metadata.mode & 0o7777, 0o755);

    tree.fs.do_release(entry.inode, handle).unwrap();
}

#[test]
fn sandbox_create_preserves_caller_exclusivity() {
    let mut tree = tree(sandbox(true), 0);
    let at = Node::Child { dev: DEV, ino: ROOT_INO, slot: Slot::Name };
    let req = named("file");

    let (fd, created) = drive(&mut tree.host, &req, |log| {
        open_sandbox_create(at, O_WRONLY, 0o600, log, 0)
    })
    .unwrap();
    assert!(created);
    tree.host.perform(HostCall::Do(Call::Close { fd }), &req);

    let (fd, created) = drive(&mut tree.host, &req, |log| {
        open_sandbox_create(at, O_WRONLY, 0o600, log, 0)
    })
    .unwrap();
    assert!(!created);
    tree.host.perform(HostCall::Do(Call::Close { fd }), &req);

    let error = drive(&mut tree.host, &req, |log| {
        open_sandbox_create(at, O_WRONLY | O_EXCL, 0o600, log, 0)
    })
    .unwrap_err();
    assert_eq!(error, libc::EEXIST);
}

#[test]
fn opened_file_entry_ignores_path_replacement() {
    let mut tree = tree(sandbox(true), 0);
    let opened = tree.host.write(ROOT_INO, "file", "opened");
    let fd = tree.host.open_fd(opened);
    let root = tree.host.files.get_mut(&ROOT_INO).unwrap();
    let detached = root.children.remove(&b"file"[..]).unwrap();
    root.children.insert(b"detached".to_vec(), detached);
    let replacement = tree.host.write(ROOT_INO, "file", "replacement");

    let opened_st = drive(&mut tree.host, &Request::default(), |log| {
        fstat(context(), sandbox(true), Node::Fd(fd), log, 0)
    })
    .unwrap();
    let replacement_st =
        tree.view(Node::Inode { dev: DEV, ino: replacement }, sandbox(true)).unwrap();

    let Tree { fs, host } = &mut tree;
    let entry = drive(host, &Request::default(), |log| {
        fs.entry_from_file(context(), ROOT_ID, fd, log)
    })
    .unwrap();
    assert_eq!((entry.attr.dev, entry.attr.ino), (opened_st.dev, opened_st.ino));
    assert_ne!((entry.attr.dev, entry.attr.ino), (replacement_st.dev, replacement_st.ino));
    assert_eq!(
        fs.inode_to_handle(entry.inode, true),
        Ok(Node::Inode { dev: opened_st.dev, ino: opened_st.ino })
    );
    assert_eq!((opened_st.dev, opened_st.ino), (DEV, opened));
}

#[test]
fn metadata_attachment_failure_does_not_unlink_by_path() {
    let mut tree = tree(sandbox(false), 0);
    let Tree { fs, host } = &mut tree;
    let error = match drive(host, &named("unadopted"), |log| {
        fs.mknod(context(), node_request(libc::S_IFREG as u32 | 0o644), log)
    }) {
        Ok(_) => panic!("metadata attachment unexpectedly succeeded"),
        Err(error) => error,
    };

    assert_eq!(error, LINUX_EOPNOTSUPP);
    assert!(tree.host.files[&ROOT_INO].children.contains_key(&b"unadopted"[..]));
    assert_eq!(tree.removals(), 0);
    assert!(tree.host.fds.is_empty());
}

#[test]
fn only_offered_features_of_the_guest_are_negotiated() {
    let mut plain = serve(
        Config { writeback: true, ..Default::default() },
        &Rc::new(Cell::new(2)),
    )
    .unwrap();
    let all = FS_WRITEBACK_CACHE | FS_SUBMOUNTS | FS_SECURITY_CTX | FS_HANDLE_KILLPRIV_V2;
    assert_eq!(
        plain.init(all).unwrap(),
        FS_WRITEBACK_CACHE | FS_SUBMOUNTS | FS_SECURITY_CTX
    );
    let mut sandboxed = serve(with_semantics(sandbox(true)), &Rc::new(Cell::new(2))).unwrap();
    assert_eq!(sandboxed.init(all).unwrap(), FS_SUBMOUNTS | FS_HANDLE_KILLPRIV_V2);
    assert!(sandboxed.host.fds.is_empty());
    assert_eq!(sandboxed.init(0).unwrap(), 0);
}

#[test]
fn missing_root_is_reported() {
    let log = vec![failed(2, 2)];
    assert!(matches!(PassthroughFs::new(Config::default(), &log), Step::Fail(2, 1)));
}

#[test]
fn lookup_counts_references_and_forget_drops_them() {
    let mut tree = tree(PermissionSemantics::LinuxComplete, 0);
    tree.host.write(ROOT_INO, "a", "abc");
    let first = tree.lookup(ROOT_ID, "a").unwrap();
    let second = tree.lookup(ROOT_ID, "a").unwrap();
    assert_eq!(first.inode, second.inode);
    assert_eq!(first.attr.size, 3);
    assert_eq!(first.entry_timeout, Duration::from_secs(5));
    assert_eq!(tree.fs.forget(first.inode, 1), None);
    assert!(tree.fs.inode_to_handle(first.inode, true).is_ok());
    assert_eq!(tree.fs.batch_forget(&vec![(first.inode, 1), (first.inode, 1)]), Vec::<i32>::new());
    assert_eq!(tree.fs.inode_to_handle(first.inode, true), Err(libc::EBADF));
    assert_eq!(tree.lookup(first.inode, "b"), Err(libc::EBADF));
    assert_eq!(tree.lookup(ROOT_ID, "missing"), Err(LINUX_ENOENT));
}

#[test]
fn names_that_are_no_text_are_replaced() {
    let at = Node::Child { dev: -1, ino: 7, slot: Slot::NewName };
    assert_eq!(at.path(b"a", b"b\xff").unwrap(), "/.vol/-1/7/b\u{fffd}".as_bytes());
    assert_eq!(at.path(b"a", "\u{e9}".as_bytes()).unwrap(), "/.vol/-1/7/\u{e9}".as_bytes());
    assert_eq!(Node::Inode { dev: 1, ino: 2 }.path(b"", b"").unwrap(), b"/.vol/1/2");
    assert_eq!(Node::Fd(3).path(b"", b""), None);
}

#[test]
fn submounts_are_announced() {
    let mut tree = tree(PermissionSemantics::LinuxComplete, FS_SUBMOUNTS);
    let ino = tree.host.make(ROOT_INO, b"mnt", 0o040755);
    assert_eq!(tree.lookup(ROOT_ID, "mnt").unwrap().attr_flags, 0);
    tree.host.files.get_mut(&ino).unwrap().st.dev = DEV + 1;
    assert_eq!(tree.lookup(ROOT_ID, "mnt").unwrap().attr_flags, 1);
}

#[test]
fn complete_semantics_store_the_owner_in_an_attribute() {
    let mut tree = tree(PermissionSemantics::LinuxComplete, 0);
    let ctx = Context { uid: 1000, gid: 1001, pid: 0 };
    let (entry, handle, options) =
        tree.create(ctx, "a", create_request(0o4755, LINUX_O_CREAT | 1, false)).unwrap();
    assert_eq!((entry.attr.uid, entry.attr.gid, entry.attr.mode), (1000, 1001, 0o104755));
    assert_eq!(options, 0);
    assert_eq!(tree.host.stored, vec![b"1000:1001:0104755".to_vec()]);
    assert_eq!(tree.host.files[&entry.attr.ino].st.mode, 0o100600);

    let mut req = SetattrRequest {
        inode: entry.inode,
        handle: Some(handle),
        attr: Stat { uid: 5, ..entry.attr },
        valid: SETATTR_UID,
    };
    let (st, timeout) = tree.setattr(req).unwrap();
    assert_eq!((st.uid, st.gid, st.mode), (5, 1001, 0o100755));
    assert_eq!(timeout, Duration::from_secs(5));
    req.handle = Some(99);
    assert_eq!(tree.setattr(req), Err(libc::EBADF));
}

#[test]
fn simplified_semantics_use_the_host_mode() {
    let mut tree = tree(PermissionSemantics::LinuxSimplified, 0);
    let ctx = Context { uid: 1000, gid: 1001, pid: 0 };
    let Tree { fs, host } = &mut tree;
    let entry = drive(host, &named("d"), |log| fs.mkdir(ctx, node_request(0o750), log)).unwrap();
    assert_eq!((entry.attr.uid, entry.attr.gid, entry.attr.mode), (1000, 1001, 0o040750));
    let socket = drive(host, &named("s"), |log| {
        fs.mknod(ctx, node_request(libc::S_IFSOCK as u32 | 0o755), log)
    })
    .unwrap();
    assert_eq!(socket.attr.mode, 0o140755);
    let log = vec![failed(48, 98)];
    assert!(matches!(
        fs.mknod(ctx, node_request(libc::S_IFSOCK as u32), &log),
        Step::Fail(libc::EINVAL, 1)
    ));
    assert_eq!(
        drive(host, &named("user.x"), |log| fs.getxattr(entry.inode, b"user.x", 8, log)),
        Err(libc::ENOSYS)
    );
}

#[test]
fn sandbox_refuses_what_it_cannot_keep() {
    let mut tree = tree(sandbox(true), 0);
    let empty = Vec::new();
    let fs = &mut tree.fs;
    assert!(matches!(
        fs.create(
            guest_root(),
            CreateRequest { labelled: true, ..create_request(0o644, 0, false) },
            &empty
        ),
        Step::Fail(LINUX_EOPNOTSUPP, 0)
    ));
    assert!(matches!(
        fs.mkdir(guest_root(), NodeRequest { labelled: true, ..node_request(0o755) }, &empty),
        Step::Fail(LINUX_EOPNOTSUPP, 0)
    ));
    assert!(matches!(
        fs.mknod(guest_root(), node_request(libc::S_IFIFO as u32), &empty),
        Step::Fail(LINUX_EOPNOTSUPP, 0)
    ));
    assert!(matches!(
        fs.symlink(guest_root(), ROOT_ID, true, &empty),
        Step::Fail(LINUX_EOPNOTSUPP, 0)
    ));
    assert!(matches!(
        fs.rename(guest_root(), ROOT_ID, ROOT_ID, 4, &empty),
        Step::Fail(LINUX_EOPNOTSUPP, 0)
    ));
    assert!(matches!(
        fs.rename(guest_root(), ROOT_ID, ROOT_ID, 6, &empty),
        Step::Fail(libc::EINVAL, 0)
    ));
}

#[test]
fn one_request_never_publishes_a_new_owner_with_old_privileges() {
    let mut tree = tree(sandbox(true), 0);
    let ino = tree.host.write(ROOT_INO, "a", "x");
    tree.adopt(ino, &regular(1, 2, 0o6755, Some(v2_capability())));
    let entry = tree.lookup(ROOT_ID, "a").unwrap();
    tree.host.stored.clear();
    let (st, _) = tree
        .setattr(SetattrRequest {
            inode: entry.inode,
            handle: None,
            attr: Stat { uid: 7, gid: 8, ..entry.attr },
            valid: SETATTR_UID | SETATTR_GID,
        })
        .unwrap();
    assert_eq!((st.uid, st.gid, st.mode), (7, 8, 0o100755));
    assert_eq!(tree.host.stored, vec![b"7:8:0100755:-".to_vec()]);
}

#[test]
fn sandbox_resizes_after_the_record_changed() {
    let mut tree = tree(sandbox(true), 0);
    let ino = tree.host.write(ROOT_INO, "a", "contents");
    tree.adopt(ino, &regular(1, 2, 0o4755, Some(v2_capability())));
    let entry = tree.lookup(ROOT_ID, "a").unwrap();
    let req = SetattrRequest {
        inode: entry.inode,
        handle: None,
        attr: Stat { size: 3, ..entry.attr },
        valid: SETATTR_SIZE,
    };
    let (st, _) = tree.setattr(req).unwrap();
    assert_eq!((st.size, st.mode), (3, 0o104755));
    assert_eq!(tree.record(ino).unwrap().capability, None);
    let (st, _) = tree
        .setattr(SetattrRequest { valid: SETATTR_SIZE | SETATTR_KILL_SUIDGID, ..req })
        .unwrap();
    assert_eq!(st.mode, 0o100755);
    assert!(tree.host.fds.is_empty());

    tree.host.volume_has_xattrs = false;
    let before = tree.host.files[&ino].data.clone();
    assert_eq!(
        tree.setattr(SetattrRequest { attr: Stat { size: 0, ..entry.attr }, ..req }),
        Err(LINUX_EOPNOTSUPP)
    );
    assert_eq!(tree.host.files[&ino].data, before);
}

#[test]
fn a_mode_of_another_type_is_refused() {
    let mut tree = tree(sandbox(true), 0);
    tree.host.write(ROOT_INO, "a", "x");
    let entry = tree.lookup(ROOT_ID, "a").unwrap();
    let req = SetattrRequest {
        inode: entry.inode,
        handle: None,
        attr: Stat { mode: 0o040755, ..entry.attr },
        valid: SETATTR_MODE,
    };
    assert_eq!(tree.setattr(req), Err(libc::EINVAL));
    let (st, _) =
        tree.setattr(SetattrRequest { attr: Stat { mode: 0o600, ..entry.attr }, ..req }).unwrap();
    assert_eq!(st.mode, 0o100600);
}

#[test]
fn times_are_set_as_asked() {
    let mut tree = tree(PermissionSemantics::LinuxComplete, 0);
    tree.host.write(ROOT_INO, "a", "x");
    let entry = tree.lookup(ROOT_ID, "a").unwrap();
    tree.host.calls.clear();
    tree.setattr(SetattrRequest {
        inode: entry.inode,
        handle: None,
        attr: Stat { atime: 12, atime_nsec: 34, ..entry.attr },
        valid: SETATTR_ATIME | SETATTR_MTIME | SETATTR_MTIME_NOW,
    })
    .unwrap();
    let times = tree.host.calls.iter().find_map(|call| match call {
        Call::SetTimes { atime, mtime, .. } => Some((*atime, *mtime)),
        _ => None,
    });
    let (atime, mtime) = times.unwrap();
    assert_eq!((atime.secs, atime.nanos), (12, 34));
    assert_eq!((mtime.secs, mtime.nanos), (0, UTIME_NOW));
    assert_ne!(UTIME_NOW, UTIME_OMIT);
    assert!(tree.host.fds.is_empty());
    let log = vec![failed(2, 2)];
    assert!(matches!(
        tree.fs.setattr(
            guest_root(),
            SetattrRequest {
                inode: entry.inode,
                handle: None,
                attr: entry.attr,
                valid: SETATTR_ATIME,
            },
            &log
        ),
        Step::Fail(libc::EBADF, 1)
    ));
}

#[test]
fn sandbox_opens_and_then_cuts() {
    let mut tree = tree(sandbox(true), 0);
    let ino = tree.host.write(ROOT_INO, "a", "contents");
    tree.adopt(ino, &regular(1, 2, 0o4755, Some(v2_capability())));
    let entry = tree.lookup(ROOT_ID, "a").unwrap();
    let (handle, _) = tree.open(entry.inode, true, LINUX_O_TRUNC | 1).unwrap();
    assert!(tree.host.files[&ino].data.is_empty());
    let record = tree.record(ino).unwrap();
    assert_eq!((record.mode, record.capability), (0o100755, None));
    let fd = tree.fs.do_release(entry.inode, handle).unwrap();
    tree.host.perform(HostCall::Do(Call::Close { fd }), &Request::default());
    assert_eq!(tree.fs.do_release(entry.inode, handle), Err(libc::EBADF));

    tree.host.files.get_mut(&ino).unwrap().data = b"more".to_vec();
    tree.host.volume_has_xattrs = false;
    assert_eq!(tree.open(entry.inode, true, LINUX_O_TRUNC | 1), Err(LINUX_EOPNOTSUPP));
    assert_eq!(tree.host.files[&ino].data, b"more");
    assert!(tree.host.fds.is_empty());
}

#[test]
fn existing_files_are_opened_as_they_are() {
    let mut tree = tree(sandbox(true), 0);
    let ino = tree.host.write(ROOT_INO, "a", "contents");
    tree.adopt(ino, &regular(1, 2, 0o4755, Some(v2_capability())));
    tree.host.stored.clear();
    let ctx = Context { uid: 9, gid: 9, pid: 0 };
    let (entry, _, _) =
        tree.create(ctx, "a", create_request(0o600, LINUX_O_CREAT | 1, false)).unwrap();
    assert_eq!((entry.attr.uid, entry.attr.gid, entry.attr.mode), (1, 2, 0o104755));
    assert_eq!(tree.host.files[&ino].data, b"contents");
    assert!(tree.host.stored.is_empty());

    let flags = LINUX_O_CREAT | LINUX_O_TRUNC | 1;
    let (entry, _, _) = tree.create(ctx, "a", create_request(0o600, flags, true)).unwrap();
    assert_eq!((entry.attr.uid, entry.attr.mode, entry.attr.size), (1, 0o100755, 0));
    assert_eq!(tree.host.stored, vec![b"1:2:0100755:-".to_vec()]);
    let exclusive = create_request(0o600, LINUX_O_CREAT | LINUX_O_EXCL | 1, false);
    assert_eq!(tree.create(ctx, "a", exclusive), Err(libc::EEXIST));
}

#[test]
fn writes_take_capabilities_away() {
    let mut tree = tree(sandbox(true), 0);
    let ino = tree.host.write(ROOT_INO, "a", "contents");
    tree.adopt(ino, &regular(1, 2, 0o4755, Some(v2_capability())));
    let entry = tree.lookup(ROOT_ID, "a").unwrap();
    let (handle, _) = tree.open(entry.inode, false, 1).unwrap();
    let Tree { fs, host } = &mut tree;
    let req = Request { value: b"NEW".to_vec(), ..Default::default() };
    let count = drive(host, &req, |log| {
        fs.write(guest_root(), entry.inode, handle, 3, 1, false, log)
    })
    .unwrap();
    assert_eq!(count, 3);
    assert_eq!(host.files[&ino].data, b"cNEWents");
    let record = tree.record(ino).unwrap();
    assert_eq!((record.mode, record.capability), (0o104755, None));
    let Tree { fs, host } = &mut tree;
    host.volume_has_xattrs = false;
    assert_eq!(
        drive(host, &req, |log| fs.write(guest_root(), entry.inode, handle, 3, 0, false, log)),
        Err(LINUX_EOPNOTSUPP)
    );
    assert_eq!(host.files[&ino].data, b"cNEWents");
    assert_eq!(
        drive(host, &req, |log| fs.read(entry.inode, handle, 100, 2, log)),
        Ok(6)
    );
    assert_eq!(
        drive(host, &req, |log| fs.read(entry.inode, handle + 1, 100, 2, log)),
        Err(libc::EBADF)
    );
}

#[test]
fn malformed_records_are_not_taken_for_native_files() {
    let mut tree = tree(sandbox(true), 0);
    let ino = tree.host.write(ROOT_INO, "a", "x");
    let key = b"user.torkbot.sandbox.metadata".to_vec();
    tree.host.files.get_mut(&ino).unwrap().xattrs.insert(key.clone(), b"0:0:0644".to_vec());
    assert_eq!(tree.lookup(ROOT_ID, "a"), Err(libc::EINVAL));
    tree.host.files.get_mut(&ino).unwrap().xattrs.insert(key, b"0:0:040755:-".to_vec());
    assert_eq!(tree.lookup(ROOT_ID, "a"), Err(libc::EINVAL));
    assert!(tree.host.fds.is_empty());
}

#[test]
fn growing_records_are_read_again() {
    let st = blank(7, 0o100644);
    let at = Node::Fd(3);
    let log = vec![
        Reply::Count(1),
        failed(34, 34),
        Reply::Count(13),
        Reply::Bytes(b"1:2:0100644:-".to_vec()),
    ];
    match read_sandbox_metadata(at, st, &log, 0) {
        Step::Done(stored, 4) => assert_eq!(stored.record, Some(regular(1, 2, 0o644, None))),
        _ => panic!("record was not read"),
    }
    let log = vec![Reply::Count(1), failed(ENOATTR, 61)];
    assert!(matches!(read_sandbox_metadata(at, st, &log, 0), Step::Done(_, 2)));
    let log = vec![Reply::Done];
    assert!(matches!(read_sandbox_metadata(at, st, &log, 0), Step::Fail(libc::EIO, 1)));
}

#[test]
fn unlinked_inodes_stay_reachable() {
    let mut tree = tree(PermissionSemantics::LinuxComplete, 0);
    let ino = tree.host.write(ROOT_INO, "a", "x");
    let entry = tree.lookup(ROOT_ID, "a").unwrap();
    let Tree { fs, host } = &mut tree;
    drive(host, &named("a"), |log| fs.unlink(ROOT_ID, log)).unwrap();
    let kept = match fs.inode_to_handle(entry.inode, true) {
        Ok(Node::Fd(fd)) => fd,
        other => panic!("{other:?}"),
    };
    assert_eq!(host.fds[&kept], ino);
    assert_eq!(host.fds.len(), 1);
    assert_eq!(fs.forget(entry.inode, 1), Some(kept));

    host.write(ROOT_INO, "b", "x");
    host.fds.clear();
    drive(host, &named("b"), |log| fs.unlink(ROOT_ID, log)).unwrap();
    assert!(host.fds.is_empty());
    assert_eq!(drive(host, &named("b"), |log| fs.unlink(ROOT_ID, log)), Err(LINUX_ENOENT));
    assert!(host.fds.is_empty());
    assert_eq!(drive(host, &named("b"), |log| fs.rmdir(77, log)), Err(libc::EBADF));
}

#[test]
fn a_second_preserved_descriptor_replaces_the_first() {
    let mut tree = tree(PermissionSemantics::LinuxComplete, 0);
    let ino = tree.host.write(ROOT_INO, "a", "x");
    tree.host.files.get_mut(&ROOT_INO).unwrap().children.insert(b"b".to_vec(), ino);
    tree.lookup(ROOT_ID, "a").unwrap();
    let Tree { fs, host } = &mut tree;
    drive(host, &named("a"), |log| fs.unlink(ROOT_ID, log)).unwrap();
    drive(host, &named("b"), |log| fs.unlink(ROOT_ID, log)).unwrap();
    assert_eq!(host.fds.len(), 1);
}

#[test]
fn replaced_targets_stay_reachable() {
    let mut tree = tree(PermissionSemantics::LinuxComplete, 0);
    tree.host.write(ROOT_INO, "new", "new");
    let doomed_ino = tree.host.write(ROOT_INO, "status", "old");
    let doomed = tree.lookup(ROOT_ID, "status").unwrap();
    let req = Request {
        name: b"new".to_vec(),
        new_name: b"status".to_vec(),
        ..Default::default()
    };
    let Tree { fs, host } = &mut tree;
    drive(host, &req, |log| fs.rename(guest_root(), ROOT_ID, ROOT_ID, 0, log)).unwrap();
    let kept = match fs.inode_to_handle(doomed.inode, true) {
        Ok(Node::Fd(fd)) => fd,
        other => panic!("{other:?}"),
    };
    assert_eq!(host.fds[&kept], doomed_ino);
    assert_eq!(host.fds.len(), 1);
    assert_eq!(host.files[&ROOT_INO].children.len(), 1);

    let missing = Request { name: b"gone".to_vec(), ..req.clone() };
    assert_eq!(
        drive(host, &missing, |log| fs.rename(guest_root(), ROOT_ID, ROOT_ID, 0, log)),
        Err(LINUX_ENOENT)
    );
    assert_eq!(host.fds.len(), 1);
    host.calls.clear();
    let _ = drive(host, &missing, |log| fs.rename(guest_root(), ROOT_ID, ROOT_ID, 3, log));
    assert_eq!(
        host.calls,
        vec![Call::Rename {
            from: Node::Child { dev: DEV, ino: ROOT_INO, slot: Slot::Name },
            to: Node::Child { dev: DEV, ino: ROOT_INO, slot: Slot::NewName },
            flags: 6,
        }]
    );
}

#[test]
fn whiteouts_are_left_behind() {
    let mut tree = tree(PermissionSemantics::LinuxComplete, 0);
    tree.host.write(ROOT_INO, "a", "x");
    let req = Request { name: b"a".to_vec(), new_name: b"b".to_vec(), ..Default::default() };
    let Tree { fs, host } = &mut tree;
    drive(host, &req, |log| fs.rename(guest_root(), ROOT_ID, ROOT_ID, 4, log)).unwrap();
    assert_eq!(host.stored, vec![b"x:x:020600".to_vec()]);
    assert!(host.fds.is_empty());
    assert_eq!(tree.lookup(ROOT_ID, "a").unwrap().attr.mode, 0o020600);
}

#[test]
fn links_share_the_inode() {
    let mut tree = tree(sandbox(true), 0);
    tree.host.write(ROOT_INO, "a", "x");
    let entry = tree.lookup(ROOT_ID, "a").unwrap();
    let Tree { fs, host } = &mut tree;
    let linked =
        drive(host, &named("b"), |log| fs.link(guest_root(), entry.inode, ROOT_ID, log)).unwrap();
    assert_eq!(linked.inode, entry.inode);
    let req = Request { name: b"l".to_vec(), target: b"a".to_vec(), ..Default::default() };
    let ctx = Context { uid: 9, gid: 8, pid: 0 };
    let link = drive(host, &req, |log| fs.symlink(ctx, ROOT_ID, false, log)).unwrap();
    assert_eq!((link.attr.uid, link.attr.gid, link.attr.mode), (9, 8, 0o120777));
    assert_eq!(
        drive(host, &Request::default(), |log| fs.readlink(link.inode, log)),
        Ok(b"a".to_vec())
    );
}

#[test]
fn labels_are_stored_with_the_mode_restored() {
    let mut tree = tree(PermissionSemantics::LinuxComplete, 0);
    let at = Node::Fd(9);
    let denied = || failed(13, 13);
    let log = vec![denied(), Reply::Stat(blank(7, 0o100444)), Reply::Done, denied()];
    match krun_virtiofs::attributes::set_secctx(at, false, &log, 0) {
        Step::Call(HostCall::Do(call)) => assert_eq!(call, Call::Chmod { at, mode: 0o100444 }),
        _ => panic!("mode was not restored"),
    }
    let log = vec![denied(), Reply::Stat(blank(7, 0o100444))];
    match krun_virtiofs::attributes::set_secctx(at, false, &log, 0) {
        Step::Call(HostCall::Do(call)) => assert_eq!(call, Call::Chmod { at, mode: 0o100644 }),
        _ => panic!("write permission was not granted"),
    }
    let Tree { fs, host } = &mut tree;
    let req = Request {
        name: b"a".to_vec(),
        label: b"security.selinux".to_vec(),
        label_value: b"ctx".to_vec(),
        ..Default::default()
    };
    let entry = drive(host, &req, |log| {
        fs.mkdir(guest_root(), NodeRequest { labelled: true, ..node_request(0o755) }, log)
    })
    .unwrap();
    let xattrs = &host.files[&entry.attr.ino].xattrs;
    assert_eq!(xattrs[&b"security.selinux"[..]], b"ctx");
}

#[test]
fn sandbox_attributes_stand_behind_the_carrier_prefix() {
    let mut tree = tree(sandbox(true), 0);
    let ino = tree.host.write(ROOT_INO, "a", "x");
    let entry = tree.lookup(ROOT_ID, "a").unwrap();
    let Tree { fs, host } = &mut tree;
    let req = Request { name: b"user.c".to_vec(), value: b"v".to_vec(), ..Default::default() };
    drive(host, &req, |log| fs.setxattr(entry.inode, b"user.c", b"v", 0, log)).unwrap();
    assert_eq!(host.files[&ino].xattrs[&b"user.virtiofs.user.c"[..]], b"v");
    assert_eq!(
        drive(host, &req, |log| fs.getxattr(entry.inode, b"user.c", 10, log)),
        Ok(XattrReply::Value(b"v".to_vec()))
    );
    assert_eq!(
        drive(host, &req, |log| fs.getxattr(entry.inode, b"user.c", 0, log)),
        Ok(XattrReply::Count(1))
    );
    let cap = b"security.capability";
    assert_eq!(
        drive(host, &req, |log| fs.getxattr(entry.inode, cap, 10, log)),
        Err(libc::ENODATA)
    );
    assert_eq!(
        drive(host, &req, |log| fs.setxattr(entry.inode, cap, b"bad", 0, log)),
        Err(libc::EINVAL)
    );
    assert_eq!(
        drive(host, &req, |log| fs.setxattr(entry.inode, cap, &v2_capability(), 2, log)),
        Err(libc::ENODATA)
    );
    drive(host, &req, |log| fs.setxattr(entry.inode, cap, &v2_capability(), 0, log)).unwrap();
    assert_eq!(
        drive(host, &req, |log| fs.setxattr(entry.inode, cap, &v2_capability(), 1, log)),
        Err(libc::EEXIST)
    );
    assert_eq!(
        drive(host, &req, |log| fs.getxattr(entry.inode, cap, 20, log)),
        Ok(XattrReply::Value(v2_capability()))
    );
    assert_eq!(
        drive(host, &req, |log| fs.getxattr(entry.inode, cap, 19, log)),
        Err(libc::ERANGE)
    );
    assert_eq!(
        drive(host, &req, |log| fs.listxattr(entry.inode, 100, log)),
        Ok(XattrReply::Value(b"user.c\0security.capability\0".to_vec()))
    );
    assert_eq!(
        drive(host, &req, |log| fs.listxattr(entry.inode, 0, log)),
        Ok(XattrReply::Count(27))
    );
    assert_eq!(
        drive(host, &req, |log| fs.listxattr(entry.inode, 26, log)),
        Err(libc::ERANGE)
    );
    drive(host, &req, |log| fs.removexattr(entry.inode, cap, log)).unwrap();
    drive(host, &req, |log| fs.removexattr(entry.inode, b"user.c", log)).unwrap();
    assert_eq!(
        drive(host, &req, |log| fs.removexattr(entry.inode, cap, log)),
        Err(libc::ENODATA)
    );
    assert_eq!(
        drive(host, &req, |log| fs.setxattr(entry.inode, b"trusted.x", b"", 0, log)),
        Err(LINUX_EOPNOTSUPP)
    );
    let long = vec![b"user.".to_vec(), vec![b'x'; 200]].concat();
    assert_eq!(
        drive(host, &req, |log| fs.removexattr(entry.inode, &long, log)),
        Err(libc::ERANGE)
    );
}

#[test]
fn host_attributes_are_hidden() {
    let mut tree = tree(PermissionSemantics::LinuxComplete, 0);
    let ino = tree.host.write(ROOT_INO, "a", "x");
    for key in ["com.apple.quarantine", "user.containers.override_stat", "user.c"] {
        let xattrs = &mut tree.host.files.get_mut(&ino).unwrap().xattrs;
        xattrs.insert(key.as_bytes().to_vec(), b"1:1:0644".to_vec());
    }
    let entry = tree.lookup(ROOT_ID, "a").unwrap();
    let Tree { fs, host } = &mut tree;
    let req = named("user.c");
    assert_eq!(
        drive(host, &req, |log| fs.listxattr(entry.inode, 100, log)),
        Ok(XattrReply::Value(b"user.c\0".to_vec()))
    );
    assert_eq!(
        drive(host, &req, |log| fs.listxattr(entry.inode, 0, log)),
        Ok(XattrReply::Count(7))
    );
    assert_eq!(
        drive(host, &req, |log| fs.listxattr(entry.inode, 6, log)),
        Err(libc::ERANGE)
    );
    assert_eq!(
        drive(host, &req, |log| fs.getxattr(entry.inode, b"com.apple.x", 9, log)),
        Err(libc::ENODATA)
    );
    assert_eq!(
        drive(host, &req, |log| fs.setxattr(entry.inode, b"com.apple.x", b"", 0, log)),
        Err(LINUX_EOPNOTSUPP)
    );
    assert_eq!(
        drive(host, &req, |log| fs.getxattr(entry.inode, b"user.c", 100, log)),
        Ok(XattrReply::Value(b"1:1:0644".to_vec()))
    );
}

#[test]
fn the_owner_attribute_is_not_listed_but_reached_by_name() {
    let mut tree = tree(PermissionSemantics::LinuxComplete, 0);
    let ino = tree.host.write(ROOT_INO, "a", "x");
    let key = b"user.containers.override_stat";
    let xattrs = &mut tree.host.files.get_mut(&ino).unwrap().xattrs;
    xattrs.insert(key.to_vec(), b"1:2:0644".to_vec());
    let entry = tree.lookup(ROOT_ID, "a").unwrap();
    let Tree { fs, host } = &mut tree;
    let req = Request { name: key.to_vec(), ..Default::default() };
    assert_eq!(
        drive(host, &req, |log| fs.listxattr(entry.inode, 100, log)),
        Ok(XattrReply::Value(vec![]))
    );
    assert_eq!(
        drive(host, &req, |log| fs.getxattr(entry.inode, key, 100, log)),
        Ok(XattrReply::Value(b"1:2:0644".to_vec()))
    );
    let terminated = b"user.containers.override_stat\0";
    assert_eq!(
        drive(host, &req, |log| fs.getxattr(entry.inode, terminated, 100, log)),
        Err(libc::EACCES)
    );
}

#[test]
fn directories_are_never_opened_for_direct_io() {
    for (policy, file, directory) in [
        (CachePolicy::Never, 1, 0),
        (CachePolicy::Always, 2, 8),
        (CachePolicy::Auto, 0, 0),
    ] {
        let config = Config { cache_policy: policy, ..Default::default() };
        let mut tree = serve(config, &Rc::new(Cell::new(2))).unwrap();
        tree.init(0).unwrap();
        tree.host.write(ROOT_INO, "a", "x");
        let entry = tree.lookup(ROOT_ID, "a").unwrap();
        assert_eq!(tree.open(entry.inode, false, 0).unwrap().1, file);
        // Synchronous opens share a bit with the host's directory flag.
        assert_eq!(tree.open(entry.inode, false, 0x10_1000).unwrap().1, file);
        let Tree { fs, host } = &mut tree;
        let (_, options) = drive(host, &Request::default(), |log| {
            fs.opendir(guest_root(), ROOT_ID, 0, log)
        })
        .unwrap();
        assert_eq!(options, directory);
    }
}

#[test]
fn attributes_can_be_switched_off() {
    let mut tree = serve(Config::default(), &Rc::new(Cell::new(2))).unwrap();
    tree.init(0).unwrap();
    let empty = Vec::new();
    assert!(matches!(
        tree.fs.setxattr(ROOT_ID, b"user.a", b"", 0, &empty),
        Step::Fail(libc::ENOSYS, 0)
    ));
    let mut native = serve(with_semantics(sandbox(false)), &Rc::new(Cell::new(2))).unwrap();
    native.init(0).unwrap();
    assert!(matches!(
        native.fs.listxattr(ROOT_ID, 0, &empty),
        Step::Fail(LINUX_EOPNOTSUPP, 0)
    ));
}

#[test]
fn allocation_extends_the_file() {
    let mut tree = tree(PermissionSemantics::LinuxComplete, 0);
    let ino = tree.host.write(ROOT_INO, "a", "12345678");
    let entry = tree.lookup(ROOT_ID, "a").unwrap();
    let (handle, _) = tree.open(entry.inode, false, 2).unwrap();
    let Tree { fs, host } = &mut tree;
    let none = Request::default();
    drive(host, &none, |log| fs.fallocate(entry.inode, handle, 0, 4, 12, log)).unwrap();
    assert_eq!(host.files[&ino].st.size, 16);
    host.calls.clear();
    drive(host, &none, |log| fs.fallocate(entry.inode, handle, 0, 4, 2, log)).unwrap();
    assert_eq!(host.calls.len(), 1);
    host.files.get_mut(&ino).unwrap().st.blocks = 8;
    drive(host, &none, |log| fs.fallocate(entry.inode, handle, 1, 0, 5000, log)).unwrap();
    assert!(matches!(host.calls.last(), Some(Call::Preallocate { length: 904, .. })));
    drive(host, &none, |log| fs.fallocate(entry.inode, handle, 3, 1, 2, log)).unwrap();
    assert!(matches!(host.calls.last(), Some(Call::PunchHole { offset: 1, length: 2, .. })));
    assert_eq!(
        drive(host, &none, |log| fs.fallocate(entry.inode, handle, 2, 1, 2, log)),
        Err(libc::EINVAL)
    );
    drive(host, &none, |log| fs.fallocate(entry.inode, handle, 3, u64::MAX, 1, log)).unwrap();
    assert!(matches!(host.calls.last(), Some(Call::PunchHole { offset: -1, length: 1, .. })));
    assert_eq!(
        drive(host, &none, |log| fs.fallocate(entry.inode, 99, 0, u64::MAX, 1, log)),
        Err(libc::EBADF)
    );
    assert_eq!(
        drive(host, &none, |log| fs.fallocate(entry.inode, handle, 8, 1, 2, log)),
        Err(LINUX_EOPNOTSUPP)
    );
    assert_eq!(
        drive(host, &none, |log| fs.fallocate(entry.inode, 99, 0, 1, 2, log)),
        Err(libc::EBADF)
    );
    assert_eq!(drive(host, &none, |log| fs.lseek(entry.inode, handle, 9, 3, log)), Ok(9));
    assert_eq!(drive(host, &none, |log| fs.lseek(entry.inode, handle, 9, 4, log)), Ok(77));
    assert!(matches!(host.calls.last(), Some(Call::Seek { whence: 2, offset: 9, .. })));
    drive(host, &none, |log| fs.flush(entry.inode, handle, log)).unwrap();
    drive(host, &none, |log| fs.fsync(entry.inode, handle, log)).unwrap();
    assert_eq!(host.fds.len(), 1);
    assert_eq!(drive(host, &none, |log| fs.access(guest_root(), entry.inode, 2, log)), Ok(()));
    assert_eq!(fs.destroy().len(), 1);
    assert_eq!(fs.handle_fd(entry.inode, handle), Err(libc::EBADF));
}

#[test]
fn mappings_come_and_go() {
    let mut tree = tree(PermissionSemantics::LinuxComplete, 0);
    tree.host.write(ROOT_INO, "a", "x");
    let entry = tree.lookup(ROOT_ID, "a").unwrap();
    let Tree { fs, host } = &mut tree;
    let none = Request::default();
    let region = SharedRegion { guest_base: 0x10000, size: 0x2000, connected: true };
    let req = MapRequest {
        inode: entry.inode,
        file_offset: 0,
        len: 0x1000,
        flags: 1,
        offset: 0x1000,
    };
    drive(host, &none, |log| fs.setupmapping(region, req, log)).unwrap();
    assert!(host.fds.is_empty());
    assert!(host.calls.contains(&Call::AddMapping { host: 0x7000, guest: 0x11000, len: 0x1000 }));
    assert_eq!(
        drive(host, &none, |log| {
            fs.setupmapping(region, MapRequest { offset: 0x1001, ..req }, log)
        }),
        Err(libc::EINVAL)
    );
    let high = SharedRegion { guest_base: u64::MAX, ..region };
    assert_eq!(
        drive(host, &none, |log| {
            fs.setupmapping(high, MapRequest { offset: 0x3000, ..req }, log)
        }),
        Err(libc::EINVAL)
    );
    assert_eq!(
        drive(host, &none, |log| {
            fs.setupmapping(SharedRegion { connected: false, ..region }, req, log)
        }),
        Err(libc::ENOSYS)
    );
    let gone = vec![UnmapRequest { offset: 0x1000, len: 0x1000 }];
    drive(host, &none, |log| fs.removemapping(region, &gone, log)).unwrap();
    assert!(host.calls.contains(&Call::UnmapFile { addr: 0x7000, len: 0x1000 }));
    assert_eq!(
        drive(host, &none, |log| fs.removemapping(region, &gone, log)),
        Err(libc::EINVAL)
    );
    let log = vec![Reply::Fd(5), Reply::Count(0x9000), Reply::Done, Reply::Count(0)];
    match fs.setupmapping(region, req, &log) {
        Step::Call(HostCall::Do(call)) => {
            assert_eq!(call, Call::UnmapFile { addr: 0x9000, len: 0x1000 })
        }
        _ => panic!("refused mapping stayed"),
    }
}

/// Lists an open directory, `room` entries at a time.
fn list(tree: &mut Tree, inode: u64, handle: u64, offset: u64, room: usize) -> Vec<(String, u64)> {
    fill(tree, inode, handle, offset);
    let mut out = Vec::new();
    let mut next = offset;
    let mut last = Delivery::First;
    while let Some(entry) = tree.fs.next_dir_entry(handle, next, last) {
        if out.len() == room {
            last = Delivery::Added(0);
            continue;
        }
        out.push((String::from_utf8(entry.name.to_vec()).unwrap(), entry.offset));
        next += 1;
        last = Delivery::Added(1);
    }
    out
}

fn fill(tree: &mut Tree, inode: u64, handle: u64, offset: u64) {
    let fd = match tree.fs.begin_readdir(inode, handle, 4096, offset).unwrap() {
        ListStart::Rewind { fd } | ListStart::Fill { fd } => fd,
        ListStart::Empty | ListStart::Ready => return,
    };
    let dir = tree.host.fds[&fd];
    let mut entries: Vec<CachedDirEntry> = vec![
        CachedDirEntry { ino: dir, name: b".".to_vec(), type_: 4 },
        CachedDirEntry { ino: dir, name: b"..".to_vec(), type_: 4 },
    ];
    for (name, ino) in &tree.host.files[&dir].children {
        entries.push(CachedDirEntry { ino: *ino, name: name.clone(), type_: 8 });
    }
    let mut entries = entries.into_iter();
    let mut phase = Fill::Dup;
    loop {
        let reply = match phase {
            Fill::Dup => FillReply::Fd(1000),
            Fill::Open { fd } => {
                assert_eq!(fd, 1000);
                FillReply::Done
            }
            Fill::Read => match entries.next() {
                Some(entry) => FillReply::Entry(entry),
                None => FillReply::End,
            },
            Fill::Discard { .. } | Fill::Close { .. } => FillReply::Done,
            Fill::Finished { error } => {
                tree.fs.finish_readdir(handle, error).unwrap();
                return;
            }
        };
        phase = tree.fs.fill_readdir(handle, phase, reply);
    }
}

fn opendir(tree: &mut Tree, inode: u64) -> u64 {
    let Tree { fs, host } = tree;
    drive(host, &Request::default(), |log| fs.opendir(guest_root(), inode, 0, log)).unwrap().0
}

#[test]
fn listings_hand_out_every_entry_once() {
    let mut tree = tree(PermissionSemantics::LinuxComplete, 0);
    for name in ["a", "b", "c"] {
        tree.host.write(ROOT_INO, name, "");
    }
    let handle = opendir(&mut tree, ROOT_ID);
    let first = list(&mut tree, ROOT_ID, handle, 0, 2);
    assert_eq!(first, vec![("a".to_string(), 1), ("b".to_string(), 2)]);
    tree.host.write(ROOT_INO, "aa", "");
    assert_eq!(list(&mut tree, ROOT_ID, handle, 2, 9), vec![("c".to_string(), 3)]);
    assert_eq!(list(&mut tree, ROOT_ID, handle, 0, 9).len(), 4);
    assert_eq!(tree.fs.begin_readdir(ROOT_ID, handle, 0, 0), Ok(ListStart::Empty));
    assert_eq!(tree.fs.begin_readdir(ROOT_ID, 99, 10, 0), Err(libc::EBADF));
    assert!(tree.fs.next_dir_entry(handle, 0, Delivery::Refused).is_none());
}

#[test]
fn partial_listings_count_as_success() {
    let mut tree = tree(PermissionSemantics::LinuxComplete, 0);
    let handle = opendir(&mut tree, ROOT_ID);
    let broken = || FillReply::Error(HostError { raw: 5, linux: 5 });
    assert_eq!(
        tree.fs.fill_readdir(handle, Fill::Dup, broken()),
        Fill::Finished { error: Some(5) }
    );
    assert_eq!(tree.fs.finish_readdir(handle, Some(5)), Err(5));
    assert_eq!(
        tree.fs.fill_readdir(handle, Fill::Open { fd: 4 }, broken()),
        Fill::Discard { fd: 4, error: 5 }
    );
    let entry = CachedDirEntry { ino: 1, name: b"a".to_vec(), type_: 8 };
    tree.fs.fill_readdir(handle, Fill::Read, FillReply::Entry(entry));
    assert_eq!(
        tree.fs.fill_readdir(handle, Fill::Read, broken()),
        Fill::Close { error: Some(5) }
    );
    assert_eq!(tree.fs.finish_readdir(handle, Some(5)), Ok(()));
    assert_eq!(tree.fs.begin_readdir(ROOT_ID, handle, 10, 1), Ok(ListStart::Ready));
}

#[test]
fn open_flags_are_translated() {
    assert_eq!(parse_open_flags(LINUX_O_CREAT | LINUX_O_EXCL | 1), O_CREAT | O_EXCL | 1);
    assert_eq!(parse_open_flags(0x8000), O_NOFOLLOW);
    assert_eq!(parse_open_flags(0x800), O_NONBLOCK);
    assert_eq!(parse_open_flags(0x400), 8);
    assert_eq!(parse_open_flags(0x80000), 0x1000000);
    assert_eq!(parse_open_flags(0x10000), 0);
    assert_eq!(options_for(CachePolicy::Never, false), 1);
    assert_eq!(options_for(CachePolicy::Never, true), 0);
    assert_eq!(options_for(CachePolicy::Always, false), 2);
    assert_eq!(options_for(CachePolicy::Always, true), 8);
    assert_eq!(options_for(CachePolicy::Auto, false), 0);
}

#[test]
fn cached_writes_are_read_back() {
    let mut tree = serve(
        Config { writeback: true, ..Default::default() },
        &Rc::new(Cell::new(2)),
    )
    .unwrap();
    tree.init(FS_WRITEBACK_CACHE).unwrap();
    tree.host.write(ROOT_INO, "a", "x");
    let entry = tree.lookup(ROOT_ID, "a").unwrap();
    tree.open(entry.inode, false, 0x401).unwrap();
    assert!(matches!(tree.host.calls.last(), Some(Call::Open { flags: 0x1000002, .. })));
}

/// A masked mount with the hosts of its two backends.
struct Masked {
    fs: MaskFs<PassthroughFs>,
    lower: Host,
    upper: Host,
}

fn masked(paths: &[&str], case_insensitive: bool) -> Masked {
    let allocator = Rc::new(Cell::new(2));
    let config = MaskConfig {
        paths: paths.iter().map(|path| path.to_string()).collect(),
        storage: Some("/storage".to_string()),
    };
    let lower = serve(Config::default(), &allocator).unwrap();
    let upper = serve(
        upper_config(config.storage.as_ref().unwrap(), PermissionSemantics::LinuxComplete),
        &allocator,
    )
    .unwrap();
    Masked {
        fs: MaskFs::new(lower.fs, &config, Some(upper.fs), case_insensitive),
        lower: lower.host,
        upper: upper.host,
    }
}

impl Masked {
    fn init(&mut self, capable: u64) -> u64 {
        let none = Request::default();
        let (lower, upper) = (&mut self.fs.lower, self.fs.upper.as_mut().unwrap());
        let a = drive(&mut self.lower, &none, |log| lower.init(capable, log)).unwrap();
        let b = drive(&mut self.upper, &none, |log| upper.init(capable, log)).unwrap();
        mask_options(a, Some(b))
    }

    fn resolve(&mut self, parent: u64, path: Vec<Vec<u8>>) -> Result<(), i32> {
        let req = Request { name: path.last().unwrap().clone(), ..Default::default() };
        let upper = self.fs.upper.as_mut().unwrap();
        let entry =
            drive(&mut self.upper, &req, |log| upper.lookup(guest_root(), parent, log))?;
        self.fs.record(Backend::Upper, path, entry.inode);
        Ok(())
    }

    fn lookup(&mut self, parent: u64, name: &str) -> Result<Entry, i32> {
        loop {
            match self.fs.locate(parent, name.as_bytes())? {
                Place::Lookup { parent, path } => self.resolve(parent, path)?,
                Place::Lower { parent, path } => {
                    let lower = &mut self.fs.lower;
                    let entry = drive(&mut self.lower, &named(name), |log| {
                        lower.lookup(guest_root(), parent, log)
                    })?;
                    self.fs.record(Backend::Lower, path, entry.inode);
                    return Ok(entry);
                }
                Place::Upper { parent, path } => {
                    let upper = self.fs.upper.as_mut().unwrap();
                    let entry = drive(&mut self.upper, &named(name), |log| {
                        upper.lookup(guest_root(), parent, log)
                    })?;
                    self.fs.record(Backend::Upper, path, entry.inode);
                    return Ok(entry);
                }
            }
        }
    }

    fn create(&mut self, parent: u64, name: &str) -> Result<Entry, i32> {
        loop {
            let (backend, parent, path) = match self.fs.locate_change(parent, name.as_bytes())? {
                Place::Lookup { parent, path } => {
                    self.resolve(parent, path)?;
                    continue;
                }
                Place::Lower { parent, path } => (Backend::Lower, parent, path),
                Place::Upper { parent, path } => (Backend::Upper, parent, path),
            };
            let (fs, host) = match backend {
                Backend::Lower => (&mut self.fs.lower, &mut self.lower),
                Backend::Upper => (self.fs.upper.as_mut().unwrap(), &mut self.upper),
            };
            let req = CreateRequest {
                parent,
                ..create_request(libc::S_IFREG as u32 | 0o644, LINUX_O_CREAT | O_WRONLY, false)
            };
            let (entry, _, _) = drive(host, &named(name), |log| fs.create(guest_root(), req, log))?;
            self.fs.record(backend, path, entry.inode);
            return Ok(entry);
        }
    }

    fn lookup_masked(&mut self, child: &MaskedChild) -> Result<Entry, i32> {
        loop {
            match self.fs.lookup_upper_path(&child.path)? {
                Place::Lookup { parent, path } => self.resolve(parent, path)?,
                Place::Upper { parent, .. } => {
                    let req = Request { name: child.name.clone(), ..Default::default() };
                    let upper = self.fs.upper.as_mut().unwrap();
                    return drive(&mut self.upper, &req, |log| {
                        upper.lookup(guest_root(), parent, log)
                    });
                }
                Place::Lower { .. } => panic!("masked path went below"),
            }
        }
    }

    /// Lists a directory for a guest with room for `room` entries. The lower
    /// backend gives at most two entries in a pass.
    fn list(&mut self, inode: u64, offset: u64, room: usize) -> Vec<(String, u64)> {
        let mut names = Vec::new();
        let mut listing = self.fs.begin_listing(inode, offset).unwrap();
        loop {
            match listing.state {
                Listing::Lower { pass } => {
                    let all: Vec<Vec<u8>> =
                        self.lower.files[&ROOT_INO].children.keys().cloned().collect();
                    let start = pass.last_offset as usize;
                    for (index, name) in all.iter().enumerate().skip(start).take(2) {
                        let offset = index as u64 + 1;
                        let entry = DirEntry { ino: 1, offset, type_: 8, name };
                        listing.next(&self.fs, ListEvent::Entry(&entry));
                        if let Listing::Offer { .. } = listing.state {
                            let fits = names.len() < room;
                            if fits {
                                names.push((String::from_utf8(name.clone()).unwrap(), offset));
                            }
                            listing.next(&self.fs, ListEvent::Delivered(fits as usize));
                            if !fits {
                                break;
                            }
                        }
                    }
                    listing.next(&self.fs, ListEvent::PassEnd);
                }
                Listing::Masked { index } => {
                    let child = listing.child(&self.fs, index).unwrap();
                    let result = self.lookup_masked(&child);
                    listing.next(&self.fs, ListEvent::Looked(result));
                }
                Listing::OfferMasked { index, offset, .. } => {
                    let child = listing.child(&self.fs, index).unwrap();
                    let fits = names.len() < room;
                    if fits {
                        names.push((String::from_utf8(child.name).unwrap(), offset));
                    }
                    listing.next(&self.fs, ListEvent::Delivered(fits as usize));
                }
                Listing::Finished => return names,
                state => panic!("{state:?}"),
            }
        }
    }

    fn hides(&self, inode: u64, name: &[u8]) -> bool {
        let mut listing = self.fs.begin_listing(inode, 0).unwrap();
        let entry = DirEntry { ino: 1, offset: 1, type_: 8, name };
        listing.next(&self.fs, ListEvent::Entry(&entry));
        matches!(listing.state, Listing::Lower { .. })
    }
}

#[test]
fn masked_mounts_do_not_advertise_readdirplus() {
    let mut fs = masked(&["/node_modules"], false);
    let opts = fs.init(FS_DO_READDIRPLUS | FS_READDIRPLUS_AUTO);
    assert!(opts & FS_DO_READDIRPLUS == 0);
    assert!(opts & FS_READDIRPLUS_AUTO == 0);
    assert_eq!(mask_options(!0, None), !0 & !(FS_DO_READDIRPLUS | FS_READDIRPLUS_AUTO));
}

#[test]
fn writable_masks_hide_lower_lookups_and_create_in_storage() {
    let mut fs = masked(&["/node_modules", "/preexisting"], false);
    let lower_dir = fs.lower.make(ROOT_INO, b"node_modules", 0o040755);
    fs.lower.write(lower_dir, "lower.txt", "lower");
    fs.lower.write(ROOT_INO, "visible", "visible");
    fs.lower.write(ROOT_INO, "preexisting", "lower");
    fs.upper.write(ROOT_INO, "preexisting", "upper-preexisting");
    fs.init(0);

    let names: Vec<String> = fs.list(ROOT_ID, 0, 99).into_iter().map(|(name, _)| name).collect();
    assert!(names.contains(&"visible".to_string()));
    assert!(names.contains(&"preexisting".to_string()));
    assert!(!names.contains(&"node_modules".to_string()));

    let entry = fs.lookup(ROOT_ID, "preexisting").unwrap();
    assert_eq!(entry.attr.size, "upper-preexisting".len() as i64);
    assert_eq!(entry.entry_timeout, Duration::zero());
    assert_eq!(entry.attr_timeout, Duration::zero());

    let err = match fs.lookup(ROOT_ID, "node_modules") {
        Ok(_) => panic!("masked lower directory was visible"),
        Err(err) => err,
    };
    assert_eq!(err, libc::ENOENT);

    let entry = fs.create(ROOT_ID, "node_modules").unwrap();
    assert_eq!(entry.attr.size, 0);
    assert_eq!(entry.entry_timeout, Duration::zero());
    assert_eq!(entry.attr_timeout, Duration::zero());
    let upper = fs.upper.files[&ROOT_INO].children[&b"node_modules"[..]];
    assert_eq!(fs.upper.files[&upper].st.mode & 0o170000, 0o100000);
    let lower = fs.lower.files[&ROOT_INO].children[&b"node_modules"[..]];
    assert_eq!(fs.lower.files[&lower].st.mode & 0o170000, 0o040000);
}

#[test]
fn case_insensitive_masks_route_alternate_casing_to_upper() {
    let mut fs = masked(&["/.git"], true);
    fs.lower.make(ROOT_INO, b".git", 0o040755);
    fs.init(0);

    let err = match fs.lookup(ROOT_ID, ".GIT") {
        Ok(_) => panic!("alternate casing reached the lower masked directory"),
        Err(err) => err,
    };
    assert_eq!(err, libc::ENOENT);

    let entry = fs.create(ROOT_ID, ".GIT").unwrap();
    assert_eq!(entry.attr.size, 0);
    assert!(fs.upper.files[&ROOT_INO].children.contains_key(&b".GIT"[..]));
    let lower = fs.lower.files[&ROOT_INO].children[&b".git"[..]];
    assert_eq!(fs.lower.files[&lower].st.mode & 0o170000, 0o040000);
}

#[test]
fn masks_cover_what_lies_below_them() {
    let mut fs = masked(&["//a//b/", "", "/c"], false);
    let a = fs.lower.make(ROOT_INO, b"a", 0o040755);
    fs.lower.write(a, "b", "lower");
    let upper_a = fs.upper.make(ROOT_INO, b"a", 0o040755);
    let upper_b = fs.upper.make(upper_a, b"b", 0o040755);
    fs.upper.write(upper_b, "deep", "upper");
    fs.init(0);
    let a = fs.lookup(ROOT_ID, "a").unwrap();
    assert_eq!(fs.fs.dispatch(a.inode), Ok(Backend::Lower));
    let b = fs.lookup(a.inode, "b").unwrap();
    assert_eq!(fs.fs.dispatch(b.inode), Ok(Backend::Upper));
    assert_eq!(b.attr.mode, 0o040755);
    let deep = fs.lookup(b.inode, "deep").unwrap();
    assert_eq!(deep.attr.size, 5);
    assert!(fs.hides(a.inode, b"b"));
    assert!(!fs.hides(ROOT_ID, b"b"));
    assert!(fs.hides(ROOT_ID, b"c"));
    assert_eq!(
        fs.fs.split_forgets(&vec![(a.inode, 1), (b.inode, 2), (999, 3)]),
        (vec![(a.inode, 1), (999, 3)], vec![(b.inode, 2)])
    );
    assert_eq!(fs.fs.copy_dispatch(a.inode, b.inode), Err(libc::EXDEV));
    assert_eq!(fs.fs.copy_dispatch(deep.inode, b.inode), Ok(Backend::Upper));
    assert_eq!(fs.fs.dispatch(999), Err(libc::EBADF));
}

#[test]
fn renames_and_links_stay_in_one_backend() {
    let mut fs = masked(&["/a/b"], false);
    fs.lower.make(ROOT_INO, b"a", 0o040755);
    fs.init(0);
    let a = fs.lookup(ROOT_ID, "a").unwrap();
    assert_eq!(fs.fs.locate_rename(ROOT_ID, b"x", a.inode, b"b").unwrap_err(), libc::EXDEV);
    assert!(matches!(
        fs.fs.locate_rename(ROOT_ID, b"x", a.inode, b"c").unwrap(),
        RenamePlace::Lower
    ));
    match fs.fs.locate_rename(a.inode, b"b", a.inode, b"b").unwrap() {
        RenamePlace::Lookup { parent, path } => {
            assert_eq!(parent, ROOT_ID);
            assert_eq!(path, vec![b"a".to_vec()]);
            fs.fs.record(Backend::Upper, path, 50);
        }
        other => panic!("{other:?}"),
    }
    assert!(matches!(
        fs.fs.locate_rename(a.inode, b"b", a.inode, b"b").unwrap(),
        RenamePlace::Upper { olddir: 50, newdir: 50 }
    ));
    assert_eq!(fs.fs.locate_link(a.inode, a.inode, b"b").unwrap_err(), libc::EXDEV);
    fs.fs.unrecord(&vec![b"a".to_vec()]);
    assert!(matches!(
        fs.fs.locate_change(a.inode, b"b").unwrap(),
        Place::Lookup { parent: ROOT_ID, .. }
    ));
    assert!(matches!(
        fs.fs.locate_link(a.inode, ROOT_ID, b"z").unwrap(),
        Place::Lower { parent: ROOT_ID, .. }
    ));
}

#[test]
fn masks_without_storage_do_not_exist() {
    let config = MaskConfig { paths: vec!["/m".to_string()], storage: None };
    let fs = MaskFs::new((), &config, None, false);
    assert_eq!(fs.locate(ROOT_ID, b"m").unwrap_err(), libc::ENOENT);
    assert_eq!(fs.locate_change(ROOT_ID, b"m").unwrap_err(), libc::EROFS);
    assert!(matches!(fs.locate(ROOT_ID, b"n").unwrap(), Place::Lower { .. }));
    let listing = fs.begin_listing(ROOT_ID, SYNTHETIC_READDIR_OFFSET).unwrap();
    assert_eq!(listing.state, Listing::Finished);
    assert!(listing.child(&fs, 0).is_none());
    assert_eq!(storage_dirs(&config), Vec::<Vec<u8>>::new());
    assert_eq!(unmap_result(Ok(()), None), Ok(()));
    assert_eq!(unmap_result(Err(1), Some(Err(2))), Err(2));
    assert_eq!(unmap_result(Err(1), Some(Ok(()))), Err(1));
}

#[test]
fn storage_directories_are_those_of_the_masks() {
    let config = MaskConfig {
        paths: vec!["/a/b/c".to_string(), "/d".to_string(), "e/f".to_string()],
        storage: Some("/s".to_string()),
    };
    assert_eq!(
        storage_dirs(&config),
        vec![b"/s".to_vec(), b"/s/a/b".to_vec(), b"/s/e".to_vec()]
    );
    let slash = MaskConfig { storage: Some("/s/".to_string()), ..config };
    assert_eq!(storage_dirs(&slash)[1], b"/s/a/b");
    let upper = upper_config(&"/s".to_string(), PermissionSemantics::LinuxSimplified);
    assert_eq!(upper.root_dir, "/s");
    assert_eq!(upper.semantics, PermissionSemantics::LinuxSimplified);
}

#[test]
fn masked_listings_resume_behind_an_entry() {
    let mut fs = masked(&["/m1", "/m2", "/m3"], false);
    for name in ["a", "m1", "m2", "visible", "z"] {
        fs.lower.write(ROOT_INO, name, "");
    }
    fs.upper.write(ROOT_INO, "m1", "");
    fs.upper.write(ROOT_INO, "m3", "");
    fs.init(0);
    let all = fs.list(ROOT_ID, 0, 99);
    assert_eq!(
        all,
        vec![
            ("a".to_string(), 1),
            ("visible".to_string(), 4),
            ("z".to_string(), 5),
            ("m1".to_string(), SYNTHETIC_READDIR_OFFSET + 1),
            ("m3".to_string(), SYNTHETIC_READDIR_OFFSET + 3),
        ]
    );
    for room in 1..all.len() {
        let first = fs.list(ROOT_ID, 0, room);
        assert_eq!(first, all[..room]);
        assert_eq!(fs.list(ROOT_ID, first[room - 1].1, 99), all[room..]);
    }
    assert_eq!(fs.list(ROOT_ID, all[4].1, 99), vec![]);
    assert_eq!(fs.fs.begin_listing(999, 0).unwrap_err(), libc::EBADF);
}

#[test]
fn listings_fail_and_go_on_as_they_must() {
    let mut fs = masked(&["/m"], false);
    fs.init(0);
    let state = |listing: &MaskListing| listing.state;
    let mut listing = fs.fs.begin_listing(ROOT_ID, 4).unwrap();
    let started = Pass { seen: false, stopped: false, last_offset: 4 };
    assert_eq!(state(&listing), Listing::Lower { pass: started });
    let entry = DirEntry { ino: 1, offset: 5, type_: 8, name: b"a" };
    listing.next(&fs.fs, ListEvent::Entry(&entry));
    listing.next(&fs.fs, ListEvent::Refused(libc::EIO));
    listing.next(&fs.fs, ListEvent::PassEnd);
    assert_eq!(
        state(&listing),
        Listing::Lower { pass: Pass { last_offset: 5, ..started } }
    );
    listing.next(&fs.fs, ListEvent::PassFailed(libc::EACCES));
    assert_eq!(state(&listing), Listing::Failed(libc::EACCES));

    let mut masked = fs.fs.begin_listing(ROOT_ID, SYNTHETIC_READDIR_OFFSET).unwrap();
    assert_eq!(state(&masked), Listing::Masked { index: 0 });
    assert_eq!(masked.entry_path(b"x"), vec![b"x".to_vec()]);
    masked.next(&fs.fs, ListEvent::Looked(Err(libc::EACCES)));
    assert_eq!(state(&masked), Listing::Failed(libc::EACCES));
    let mut absent = fs.fs.begin_listing(ROOT_ID, SYNTHETIC_READDIR_OFFSET).unwrap();
    absent.next(&fs.fs, ListEvent::Looked(Err(libc::ENOENT)));
    assert_eq!(state(&absent), Listing::Finished);
    fs.fs.record(Backend::Upper, vec![b"m".to_vec()], 70);
    let above = fs.fs.begin_listing(70, 0).unwrap();
    assert_eq!((above.state, above.path), (Listing::Upper, vec![b"m".to_vec()]));
}
