//! What the library asks of its host, and what the host replies.
//!
//! Host calls cannot be made from here, so an operation on host files is a
//! function of the request and of the replies that the host has given so far:
//! it names the call to make next, or the answer to the request. Whoever drives
//! it starts with no replies, makes each call, appends its reply, and asks
//! again until there is an answer.

use vstd::prelude::*;
use crate::abi::LINUX_EIO;
use crate::bytes::append_bytes;
use crate::sandbox_metadata::{USER_XATTR_CARRIER_PREFIX, XATTR_NAME_C};
use crate::stat::Stat;
use crate::text::{digits, push_digits, push_signed, signed_digits};

verus! {

/// The attribute that holds a Linux owner and mode beside a host file,
/// `user.containers.override_stat`, with its terminator.
pub const XATTR_KEY: [u8; 30] = [
    'u' as u8, 's' as u8, 'e' as u8, 'r' as u8, '.' as u8, 'c' as u8, 'o' as u8, 'n' as u8,
    't' as u8, 'a' as u8, 'i' as u8, 'n' as u8, 'e' as u8, 'r' as u8, 's' as u8, '.' as u8,
    'o' as u8, 'v' as u8, 'e' as u8, 'r' as u8, 'r' as u8, 'i' as u8, 'd' as u8, 'e' as u8,
    '_' as u8, 's' as u8, 't' as u8, 'a' as u8, 't' as u8, 0,
];

/// The attribute that holds a file capability, `security.capability`, with its
/// terminator.
pub const SECURITY_CAPABILITY: [u8; 20] = [
    's' as u8, 'e' as u8, 'c' as u8, 'u' as u8, 'r' as u8, 'i' as u8, 't' as u8, 'y' as u8,
    '.' as u8, 'c' as u8, 'a' as u8, 'p' as u8, 'a' as u8, 'b' as u8, 'i' as u8, 'l' as u8,
    'i' as u8, 't' as u8, 'y' as u8, 0,
];

/// What the host's own attributes begin with, `com.apple.`.
pub const MACOS_XATTR_PREFIX: [u8; 10] = [
    'c' as u8, 'o' as u8, 'm' as u8, '.' as u8, 'a' as u8, 'p' as u8, 'p' as u8, 'l' as u8,
    'e' as u8, '.' as u8,
];

/// Where the host resolves files by volume and number, `/.vol/`.
pub const VOLUME_ROOT: [u8; 6] = [
    '/' as u8, '.' as u8, 'v' as u8, 'o' as u8, 'l' as u8, '/' as u8,
];

/// Which of a request's names is meant: its name, or the new name of a rename
/// or a link.
#[derive(Debug, Clone, Copy, PartialEq, Eq, Structural)]
pub enum Slot {
    Name,
    NewName,
}

/// A host file: an open descriptor, a file by volume and number, or a name in
/// such a directory.
#[derive(Debug, Clone, Copy, PartialEq, Eq, Structural)]
pub enum Node {
    Fd(i32),
    Inode { dev: i32, ino: u64 },
    Child { dev: i32, ino: u64, slot: Slot },
}

/// An extended attribute.
#[derive(Debug, Clone, Copy, PartialEq, Eq, Structural)]
pub enum Attr {
    /// The Linux owner and mode.
    Override,
    /// The sandbox record.
    Record,
    /// The file capability.
    Capability,
    /// The name in the request, as it is.
    Guest,
    /// The name in the request, behind the carrier prefix.
    Carrier,
    /// The security context of the request.
    Label,
}

/// A time to set: seconds and nanoseconds, where the nanoseconds may also be
/// `UTIME_NOW` or `UTIME_OMIT`.
#[derive(Debug, Clone, Copy, PartialEq, Eq, Structural)]
pub struct TimeSpec {
    pub secs: i64,
    pub nanos: i64,
}

/// A host call whose arguments are numbers, or stand in the request.
#[allow(inconsistent_fields)]
#[derive(Debug, Clone, Copy, PartialEq, Eq, Structural)]
pub enum Call {
    /// Open the served directory itself. Replies with a descriptor.
    OpenRoot { flags: u32 },
    /// Open a file by path. Replies with a descriptor.
    Open { at: Node, flags: u32, mode: u32 },
    /// Open a name in an open directory. Replies with a descriptor.
    OpenAt { dir: i32, slot: Slot, flags: u32 },
    /// Duplicate a descriptor. Replies with a descriptor.
    Dup { fd: i32 },
    Close { fd: i32 },
    /// The attributes of the file itself, not of what a link leads to.
    Stat { at: Node },
    /// The size of an attribute's value. Replies with a count.
    AttrSize { at: Node, attr: Attr, options: u32 },
    /// An attribute's value, of at most `size` bytes. Replies with bytes.
    GetAttr { at: Node, attr: Attr, size: u64, options: u32 },
    /// Store the value that the request holds for the attribute.
    SetAttr { at: Node, attr: Attr, options: u32 },
    RemoveAttr { at: Node, attr: Attr, options: u32 },
    /// The size of the list of attribute names. Replies with a count.
    ListSize { at: Node, options: u32 },
    /// The attribute names, of at most `size` bytes. Replies with bytes.
    ListAttrs { at: Node, size: u64, options: u32 },
    Chmod { at: Node, mode: u16 },
    MakeDir { at: Node, mode: u16 },
    MakeNode { at: Node, mode: u16, rdev: u32 },
    /// Create a socket and stop listening on it.
    BindSocket { at: Node },
    /// Create a symbolic link to the target in the request.
    MakeLink { at: Node },
    HardLink { from: Node, to: Node },
    Rename { from: Node, to: Node, flags: u32 },
    Unlink { dir: i32, slot: Slot, flags: u32 },
    Truncate { fd: i32, size: i64 },
    SetTimes { fd: i32, atime: TimeSpec, mtime: TimeSpec },
    /// Allocate blocks behind the end of the file.
    Preallocate { fd: i32, length: i64 },
    PunchHole { fd: i32, offset: i64, length: i64 },
    /// Move to an offset. Replies with the offset from the start.
    Seek { fd: i32, offset: i64, whence: u32 },
    Sync { fd: i32 },
    /// The target of a symbolic link. Replies with bytes.
    ReadLink { at: Node },
    /// Move contents into the guest's buffer. Replies with a count.
    Read { fd: i32, size: u32, offset: u64 },
    /// Move the guest's buffer into the file. Replies with a count.
    Write { fd: i32, size: u32, offset: u64 },
    /// Let creation modes through unchanged.
    ClearUmask,
    /// A number for an inode that has none yet. Replies with a count.
    AllocateInode,
    /// Map a file into memory. Replies with the address.
    MapFile { fd: i32, len: u64, prot: u32, offset: u64 },
    UnmapFile { addr: u64, len: u64 },
    /// Make mapped memory visible to the guest. Replies with zero on refusal.
    AddMapping { host: u64, guest: u64, len: u64 },
    /// Take mapped memory away from the guest. Replies with zero on refusal.
    RemoveMapping { guest: u64, len: u64 },
}

/// A host call.
#[derive(Debug)]
pub enum HostCall {
    Do(Call),
    /// Store `value` in an attribute.
    Store { at: Node, attr: Attr, value: Vec<u8>, options: u32 },
}

/// The contents of a `HostCall`.
#[verifier::ext_equal]
pub enum CallView {
    Do(Call),
    Store { at: Node, attr: Attr, value: Seq<u8>, options: u32 },
}

impl View for HostCall {
    type V = CallView;

    open spec fn view(&self) -> CallView {
        match *self {
            HostCall::Do(call) => CallView::Do(call),
            HostCall::Store { at, attr, value, options } => CallView::Store {
                at,
                attr,
                value: value@,
                options,
            },
        }
    }
}

/// Why a host call failed: the host's error number, and the guest's number for
/// the same error.
#[derive(Debug, Clone, Copy, PartialEq, Eq, Structural)]
pub struct HostError {
    pub raw: i32,
    pub linux: i32,
}

/// The outcome of a host call.
#[derive(Debug)]
pub enum Reply {
    Error(HostError),
    Done,
    Fd(i32),
    Count(u64),
    Stat(Stat),
    Bytes(Vec<u8>),
}

/// What a reply of another kind than the call has counts as: an I/O error,
/// which has one number on both sides.
pub open spec fn misplaced() -> HostError {
    HostError { raw: LINUX_EIO, linux: LINUX_EIO }
}

/// The reply to a call that has no result.
pub open spec fn unit_of(reply: Reply) -> Result<(), HostError> {
    match reply {
        Reply::Error(error) => Err(error),
        _ => Ok(()),
    }
}

/// The reply to a call that opens a descriptor.
pub open spec fn fd_of(reply: Reply) -> Result<i32, HostError> {
    match reply {
        Reply::Error(error) => Err(error),
        Reply::Fd(fd) => Ok(fd),
        _ => Err(misplaced()),
    }
}

/// The reply to a call that gives a number.
pub open spec fn count_of(reply: Reply) -> Result<u64, HostError> {
    match reply {
        Reply::Error(error) => Err(error),
        Reply::Count(count) => Ok(count),
        _ => Err(misplaced()),
    }
}

/// The reply to a call that gives attributes.
pub open spec fn stat_of(reply: Reply) -> Result<Stat, HostError> {
    match reply {
        Reply::Error(error) => Err(error),
        Reply::Stat(st) => Ok(st),
        _ => Err(misplaced()),
    }
}

/// The reply to a call that gives bytes.
pub open spec fn bytes_of(reply: Reply) -> Result<Seq<u8>, HostError> {
    match reply {
        Reply::Error(error) => Err(error),
        Reply::Bytes(bytes) => Ok(bytes@),
        _ => Err(misplaced()),
    }
}

impl Reply {
    pub fn unit(&self) -> (r: Result<(), HostError>)
        ensures
            r == unit_of(*self),
    {
        match self {
            Reply::Error(error) => Err(*error),
            _ => Ok(()),
        }
    }

    pub fn fd(&self) -> (r: Result<i32, HostError>)
        ensures
            r == fd_of(*self),
    {
        match self {
            Reply::Error(error) => Err(*error),
            Reply::Fd(fd) => Ok(*fd),
            _ => Err(HostError { raw: LINUX_EIO, linux: LINUX_EIO }),
        }
    }

    pub fn count(&self) -> (r: Result<u64, HostError>)
        ensures
            r == count_of(*self),
    {
        match self {
            Reply::Error(error) => Err(*error),
            Reply::Count(count) => Ok(*count),
            _ => Err(HostError { raw: LINUX_EIO, linux: LINUX_EIO }),
        }
    }

    pub fn stat(&self) -> (r: Result<Stat, HostError>)
        ensures
            r == stat_of(*self),
    {
        match self {
            Reply::Error(error) => Err(*error),
            Reply::Stat(st) => Ok(*st),
            _ => Err(HostError { raw: LINUX_EIO, linux: LINUX_EIO }),
        }
    }

    pub fn bytes(&self) -> (r: Result<&Vec<u8>, HostError>)
        ensures
            match r {
                Ok(bytes) => bytes_of(*self) == Ok::<Seq<u8>, HostError>(bytes@),
                Err(error) => bytes_of(*self) == Err::<Seq<u8>, HostError>(error),
            },
    {
        match self {
            Reply::Error(error) => Err(*error),
            Reply::Bytes(bytes) => Ok(bytes),
            _ => Err(HostError { raw: LINUX_EIO, linux: LINUX_EIO }),
        }
    }
}

/// How far an operation has come: the next host call, or its outcome with the
/// number of replies that it took. A failure is a guest error number.
pub enum Step<T> {
    Call(HostCall),
    Done(T, usize),
    Fail(i32, usize),
}

/// The contents of a `Step`.
#[verifier::ext_equal]
pub enum StepView<T> {
    Call(CallView),
    Done(T, int),
    Fail(i32, int),
}

impl<T: View> View for Step<T> {
    type V = StepView<T::V>;

    open spec fn view(&self) -> StepView<T::V> {
        match *self {
            Step::Call(call) => StepView::Call(call@),
            Step::Done(value, pos) => StepView::Done(value@, pos as int),
            Step::Fail(error, pos) => StepView::Fail(error, pos as int),
        }
    }
}

/// One more call whose outcome changes nothing, such as closing a descriptor,
/// once `step` has come to its outcome.
pub open spec fn finally<T>(step: StepView<T>, call: Call, log: Seq<Reply>) -> StepView<T> {
    match step {
        StepView::Call(inner) => StepView::Call(inner),
        StepView::Done(value, pos) => if pos >= log.len() {
            StepView::Call(CallView::Do(call))
        } else {
            StepView::Done(value, pos + 1)
        },
        StepView::Fail(error, pos) => if pos >= log.len() {
            StepView::Call(CallView::Do(call))
        } else {
            StepView::Fail(error, pos + 1)
        },
    }
}

/// The last call is always made: nothing comes of `step` before it was answered.
pub proof fn last_call_is_made<T>(step: StepView<T>, call: Call, log: Seq<Reply>)
    requires
        match step {
            StepView::Call(_) => true,
            StepView::Done(_, end) => 0 <= end,
            StepView::Fail(_, end) => 0 <= end,
        },
    ensures
        match finally(step, call, log) {
            StepView::Call(next) => step == StepView::<T>::Call(next) || next == CallView::Do(call),
            StepView::Done(value, end) => 0 < end <= log.len() && step == StepView::Done(
                value,
                end - 1,
            ) && finally(step, call, log.take(end - 1)) == StepView::<T>::Call(CallView::Do(call)),
            StepView::Fail(error, end) => 0 < end <= log.len() && step == StepView::<T>::Fail(
                error,
                end - 1,
            ) && finally(step, call, log.take(end - 1)) == StepView::<T>::Call(CallView::Do(call)),
        },
{
}

/// Makes one more call, whatever its reply, once `step` has come to its outcome.
pub fn and_finally<T: View>(step: Step<T>, call: Call, log: &Vec<Reply>) -> (r: Step<T>)
    ensures
        r@ == finally(step@, call, log@),
{
    match step {
        Step::Call(inner) => Step::Call(inner),
        Step::Done(value, pos) => if pos >= log.len() {
            Step::Call(HostCall::Do(call))
        } else {
            Step::Done(value, pos + 1)
        },
        Step::Fail(error, pos) => if pos >= log.len() {
            Step::Call(HostCall::Do(call))
        } else {
            Step::Fail(error, pos + 1)
        },
    }
}

/// Closing a descriptor where `step` fails; a success keeps it open.
pub open spec fn or_close<T>(step: StepView<T>, fd: i32, log: Seq<Reply>) -> StepView<T> {
    match step {
        StepView::Fail(_, _) => finally(step, Call::Close { fd }, log),
        step => step,
    }
}

/// Closes a descriptor where `step` fails.
pub fn close_on_failure<T: View>(step: Step<T>, fd: i32, log: &Vec<Reply>) -> (r: Step<T>)
    ensures
        r@ == or_close(step@, fd, log@),
{
    match step {
        Step::Fail(error, pos) => and_finally(Step::Fail(error, pos), Call::Close { fd }, log),
        step => step,
    }
}

/// No failure leaves the descriptor open: it is reported only once the call that
/// closes the descriptor was answered.
pub proof fn failures_close_the_descriptor<T>(step: StepView<T>, fd: i32, log: Seq<Reply>)
    requires
        step matches StepView::Fail(_, end) ==> 0 <= end,
    ensures
        match or_close(step, fd, log) {
            StepView::Fail(error, end) => 0 < end <= log.len() && step == StepView::<T>::Fail(
                error,
                end - 1,
            ) && or_close(step, fd, log.take(end - 1)) == StepView::<T>::Call(
                CallView::Do(Call::Close { fd }),
            ),
            other => other == step || other == StepView::<T>::Call(
                CallView::Do(Call::Close { fd }),
            ),
        },
{
}

/// The outcome of a call that opens a descriptor.
pub open spec fn acquiring(call: Call, log: Seq<Reply>, pos: int) -> StepView<i32> {
    if pos >= log.len() {
        StepView::Call(CallView::Do(call))
    } else {
        match fd_of(log[pos]) {
            Ok(fd) => StepView::Done(fd, pos + 1),
            Err(error) => StepView::Fail(error.linux, pos + 1),
        }
    }
}

/// Makes one call that opens a descriptor.
pub fn acquire(call: Call, log: &Vec<Reply>, pos: usize) -> (r: Step<i32>)
    ensures
        r@ == acquiring(call, log@, pos as int),
{
    if pos >= log.len() {
        return Step::Call(HostCall::Do(call));
    }
    match log[pos].fd() {
        Ok(fd) => Step::Done(fd, pos + 1),
        Err(error) => Step::Fail(error.linux, pos + 1),
    }
}

/// The outcome of a call without a result: what comes back, the guest's error
/// number on failure.
pub open spec fn single(call: Call, log: Seq<Reply>, pos: int) -> StepView<()> {
    if pos >= log.len() {
        StepView::Call(CallView::Do(call))
    } else {
        match unit_of(log[pos]) {
            Ok(_) => StepView::Done((), pos + 1),
            Err(error) => StepView::Fail(error.linux, pos + 1),
        }
    }
}

/// Makes one call that has no result.
pub fn run_single(call: Call, log: &Vec<Reply>, pos: usize) -> (r: Step<()>)
    ensures
        r@ == single(call, log@, pos as int),
{
    if pos >= log.len() {
        return Step::Call(HostCall::Do(call));
    }
    match log[pos].unit() {
        Ok(_) => Step::Done((), pos + 1),
        Err(error) => Step::Fail(error.linux, pos + 1),
    }
}

/// The host's path of a file by volume and number.
pub open spec fn volume_path(dev: i32, ino: u64) -> Seq<u8> {
    VOLUME_ROOT@ + signed_digits(dev as int) + seq![0x2fu8] + digits(ino as nat, 10)
}

/// What stands for a file name in a host path: the name itself where it is
/// UTF-8.
pub uninterp spec fn lossy_text(name: Seq<u8>) -> Seq<u8>;

/// The name as text, by `String::from_utf8_lossy`. The result is a function of
/// the bytes alone, and bytes that are UTF-8 come back unchanged; what stands
/// in place of other bytes is left to that function.
#[verifier::external_body]
fn to_lossy_text(name: &[u8]) -> (r: Vec<u8>)
    ensures
        r@ == lossy_text(name@),
        vstd::utf8::valid_utf8(name@) ==> r@ == name@,
{
    String::from_utf8_lossy(name).into_owned().into_bytes()
}

impl Node {
    /// The path of this file, unless it is a descriptor.
    pub open spec fn path_text(self, name: Seq<u8>, new_name: Seq<u8>) -> Option<Seq<u8>> {
        match self {
            Node::Fd(_) => None,
            Node::Inode { dev, ino } => Some(volume_path(dev, ino)),
            Node::Child { dev, ino, slot } => Some(
                volume_path(dev, ino) + seq![0x2fu8] + lossy_text(
                    match slot {
                        Slot::Name => name,
                        Slot::NewName => new_name,
                    },
                ),
            ),
        }
    }

    /// The path of this file, given the names of the request.
    pub fn path(self, name: &[u8], new_name: &[u8]) -> (r: Option<Vec<u8>>)
        ensures
            match r {
                Some(path) => self.path_text(name@, new_name@) == Some(path@),
                None => self.path_text(name@, new_name@) is None,
            },
    {
        let mut out: Vec<u8> = Vec::new();
        match self {
            Node::Fd(_) => None,
            Node::Inode { dev, ino } => {
                push_volume_path(&mut out, dev, ino);
                assert(out@ =~= volume_path(dev, ino));
                Some(out)
            },
            Node::Child { dev, ino, slot } => {
                push_volume_path(&mut out, dev, ino);
                out.push(0x2f);
                let text = match slot {
                    Slot::Name => to_lossy_text(name),
                    Slot::NewName => to_lossy_text(new_name),
                };
                append_bytes(&mut out, text.as_slice());
                assert(Some(out@) =~= self.path_text(name@, new_name@));
                Some(out)
            },
        }
    }
}

fn push_volume_path(out: &mut Vec<u8>, dev: i32, ino: u64)
    ensures
        final(out)@ == old(out)@ + volume_path(dev, ino),
{
    let ghost start = out@;
    append_bytes(out, &VOLUME_ROOT);
    push_signed(out, dev);
    out.push(0x2f);
    push_digits(out, ino, 10);
    assert(out@ =~= start + volume_path(dev, ino));
}

impl Attr {
    /// The name of the attribute on the host, with its terminator; `guest` is
    /// the name in the request, `label` the name of its security context.
    pub open spec fn name_text(self, guest: Seq<u8>, label: Seq<u8>) -> Seq<u8> {
        match self {
            Attr::Override => XATTR_KEY@,
            Attr::Record => XATTR_NAME_C@,
            Attr::Capability => SECURITY_CAPABILITY@,
            Attr::Guest => guest.push(0),
            Attr::Carrier => (USER_XATTR_CARRIER_PREFIX@ + guest).push(0),
            Attr::Label => label.push(0),
        }
    }

    pub fn host_name(self, guest: &[u8], label: &[u8]) -> (r: Vec<u8>)
        ensures
            r@ == self.name_text(guest@, label@),
    {
        let mut out: Vec<u8> = Vec::new();
        match self {
            Attr::Override => append_bytes(&mut out, &XATTR_KEY),
            Attr::Record => append_bytes(&mut out, &XATTR_NAME_C),
            Attr::Capability => append_bytes(&mut out, &SECURITY_CAPABILITY),
            Attr::Guest => {
                append_bytes(&mut out, guest);
                out.push(0);
            },
            Attr::Carrier => {
                append_bytes(&mut out, &USER_XATTR_CARRIER_PREFIX);
                append_bytes(&mut out, guest);
                out.push(0);
            },
            Attr::Label => {
                append_bytes(&mut out, label);
                out.push(0);
            },
        }
        assert(out@ =~= self.name_text(guest@, label@));
        out
    }
}

/// A file by volume and number has the path `/.vol/`, the volume, a slash and the
/// number; a name in it stands behind another slash. A descriptor has no path.
pub proof fn paths_are_by_volume(dev: i32, ino: u64, name: Seq<u8>, new_name: Seq<u8>, fd: i32)
    ensures
        ({
            let root = seq![0x2fu8, 0x2e, 0x76, 0x6f, 0x6c, 0x2f];
            let volume = if dev < 0 {
                seq![0x2du8] + digits((-dev) as nat, 10)
            } else {
                digits(dev as nat, 10)
            };
            let file = root + volume + seq![0x2fu8] + digits(ino as nat, 10);
            let at = |slot: Slot| Node::Child { dev, ino, slot };
            &&& Node::Fd(fd).path_text(name, new_name) is None
            &&& (Node::Inode { dev, ino }).path_text(name, new_name) == Some(file)
            &&& at(Slot::Name).path_text(name, new_name) == Some(
                file + seq![0x2fu8] + lossy_text(name),
            )
            &&& at(Slot::NewName).path_text(name, new_name) == Some(
                file + seq![0x2fu8] + lossy_text(new_name),
            )
        }),
{
    assert(VOLUME_ROOT@ =~= seq![0x2fu8, 0x2e, 0x76, 0x6f, 0x6c, 0x2f]);
}

/// A reply is taken for what it is: an error with its numbers, a result of the
/// kind that the call has, and anything else as an I/O error. A call without a
/// result takes any reply that is no error.
pub proof fn replies_are_taken_as_they_are(
    reply: Reply,
    error: HostError,
    fd: i32,
    count: u64,
    st: Stat,
    bytes: Vec<u8>,
)
    ensures
        unit_of(Reply::Error(error)) == Err::<(), HostError>(error),
        fd_of(Reply::Error(error)) == Err::<i32, HostError>(error),
        count_of(Reply::Error(error)) == Err::<u64, HostError>(error),
        stat_of(Reply::Error(error)) == Err::<Stat, HostError>(error),
        bytes_of(Reply::Error(error)) == Err::<Seq<u8>, HostError>(error),
        fd_of(Reply::Fd(fd)) == Ok::<i32, HostError>(fd),
        count_of(Reply::Count(count)) == Ok::<u64, HostError>(count),
        stat_of(Reply::Stat(st)) == Ok::<Stat, HostError>(st),
        bytes_of(Reply::Bytes(bytes)) == Ok::<Seq<u8>, HostError>(bytes@),
        !(reply is Error) ==> unit_of(reply) == Ok::<(), HostError>(()),
        !(reply is Error) && !(reply is Fd) ==> fd_of(reply) == Err::<i32, HostError>(
            HostError { raw: 5, linux: 5 },
        ),
        !(reply is Error) && !(reply is Count) ==> count_of(reply) == Err::<u64, HostError>(
            HostError { raw: 5, linux: 5 },
        ),
        !(reply is Error) && !(reply is Stat) ==> stat_of(reply) == Err::<Stat, HostError>(
            HostError { raw: 5, linux: 5 },
        ),
        !(reply is Error) && !(reply is Bytes) ==> bytes_of(reply) == Err::<Seq<u8>, HostError>(
            HostError { raw: 5, linux: 5 },
        ),
{
}

} // verus!
