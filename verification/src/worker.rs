//! The worker of a file system device: which server it runs, and what it does
//! about its queues.

use vstd::prelude::*;
use vstd::utf8::encode_utf8;
use crate::abi::LINUX_EINVAL;
use crate::config::{Config, Duration, PermissionSemantics};
use crate::mask_fs::MaskConfig;
use crate::virtual_fs::VirtualFs;

verus! {

/// The queue of requests that go first, and the queue of all others.
pub const HPQ_INDEX: usize = 0;

pub const REQ_INDEX: usize = 1;

/// What a device serves: a host directory, nothing, or virtual files. Entries of
/// type `E` are added to the root directory.
pub enum FsBackend<B: ?Sized, E> {
    Passthrough {
        config: Config,
        read_only: bool,
        virtual_entries: Vec<E>,
        mask: Option<MaskConfig>,
    },
    Null { virtual_entries: Vec<E> },
    Virtual(VirtualFs<B>),
}

/// How masked paths are served.
pub struct MaskPlan {
    pub mask: MaskConfig,
    /// The semantics of the storage: that of the directory.
    pub upper_semantics: PermissionSemantics,
    pub case_insensitive: bool,
}

/// The server that a device runs.
pub enum FsServer<B: ?Sized, E> {
    ReadWrite { config: Config, virtual_entries: Vec<E> },
    ReadOnly { config: Config, virtual_entries: Vec<E> },
    MaskedReadWrite { config: Config, plan: MaskPlan, virtual_entries: Vec<E> },
    MaskedReadOnly { config: Config, plan: MaskPlan, virtual_entries: Vec<E> },
    Null { virtual_entries: Vec<E> },
    Virtual(VirtualFs<B>),
}

/// The configuration of a directory with masked paths: nothing of it is cached,
/// as the guest could otherwise go on with a file that a mask has replaced.
pub open spec fn uncached(config: Config) -> Config {
    Config {
        entry_timeout: Duration { secs: 0, nanos: 0 },
        attr_timeout: Duration { secs: 0, nanos: 0 },
        ..config
    }
}

pub fn uncached_masked_passthrough_config(config: Config) -> (r: Config)
    ensures
        r == uncached(config),
{
    Config { entry_timeout: Duration::zero(), attr_timeout: Duration::zero(), ..config }
}

/// The server for what a device serves. `case_insensitive` says how the host
/// compares names, which matters to masked paths alone.
pub open spec fn server_for<B: ?Sized, E>(
    backend: FsBackend<B, E>,
    case_insensitive: bool,
) -> FsServer<B, E> {
    match backend {
        FsBackend::Passthrough { config, read_only, virtual_entries, mask } => match mask {
            None => if read_only {
                FsServer::ReadOnly { config, virtual_entries }
            } else {
                FsServer::ReadWrite { config, virtual_entries }
            },
            Some(mask) => {
                let plan = MaskPlan { mask, upper_semantics: config.semantics, case_insensitive };
                if read_only {
                    FsServer::MaskedReadOnly { config: uncached(config), plan, virtual_entries }
                } else {
                    FsServer::MaskedReadWrite { config: uncached(config), plan, virtual_entries }
                }
            },
        },
        FsBackend::Null { virtual_entries } => FsServer::Null { virtual_entries },
        FsBackend::Virtual(fs) => FsServer::Virtual(fs),
    }
}

/// Whether the host compares names without their case, on a host other than
/// macOS: it does not.
pub fn host_path_is_case_insensitive(path: &str) -> (r: Result<bool, i32>)
    ensures
        r == Ok::<bool, i32>(false),
{
    let _ = path;
    Ok(false)
}

/// Whether macOS compares names without their case: a path with a NUL cannot be
/// asked about, and the host's answer is zero if case does not count.
pub fn case_insensitivity(path: &str, answer: Result<i64, i32>) -> (r: Result<bool, i32>)
    ensures
        r == if encode_utf8(path@).contains(0u8) {
            Err::<bool, i32>(LINUX_EINVAL)
        } else {
            match answer {
                Ok(value) => Ok(value == 0),
                Err(error) => Err(error),
            }
        },
{
    let bytes = path.as_bytes();
    let mut i: usize = 0;
    while i < bytes.len()
        invariant
            i <= bytes.len(),
            bytes@ == encode_utf8(path@),
            forall|j: int| 0 <= j < i ==> bytes@[j] != 0,
        decreases bytes.len() - i,
    {
        if bytes[i] == 0 {
            assert(bytes@[i as int] == 0);
            return Err(LINUX_EINVAL);
        }
        i = i + 1;
    }
    match answer {
        Ok(value) => Ok(value == 0),
        Err(error) => Err(error),
    }
}

/// What a worker is woken up for.
#[derive(Debug, Clone, Copy, PartialEq, Eq, Structural)]
pub enum WorkerEvent {
    /// A queue has requests.
    Queue(usize),
    /// The worker stops.
    Stop,
    /// Nothing that the worker waits for.
    Unknown,
}

/// The worker of a device.
pub struct FsWorker<B: ?Sized, E> {
    pub hpq_fd: i32,
    pub req_fd: i32,
    pub stop_fd: i32,
    pub server: FsServer<B, E>,
}

impl<B: ?Sized, E> FsWorker<B, E> {
    /// A worker that is woken up by three descriptors: one for each queue, and
    /// one to stop it.
    pub fn new(
        hpq_fd: i32,
        req_fd: i32,
        stop_fd: i32,
        backend: FsBackend<B, E>,
        case_insensitive: bool,
    ) -> (r: FsWorker<B, E>)
        ensures
            r.hpq_fd == hpq_fd,
            r.req_fd == req_fd,
            r.stop_fd == stop_fd,
            r.server == server_for(backend, case_insensitive),
    {
        let server = match backend {
            FsBackend::Passthrough { config, read_only, virtual_entries, mask } => match mask {
                None => if read_only {
                    FsServer::ReadOnly { config, virtual_entries }
                } else {
                    FsServer::ReadWrite { config, virtual_entries }
                },
                Some(mask) => {
                    let upper_semantics = config.semantics;
                    let config = uncached_masked_passthrough_config(config);
                    let plan = MaskPlan { mask, upper_semantics, case_insensitive };
                    if read_only {
                        FsServer::MaskedReadOnly { config, plan, virtual_entries }
                    } else {
                        FsServer::MaskedReadWrite { config, plan, virtual_entries }
                    }
                },
            },
            FsBackend::Null { virtual_entries } => FsServer::Null { virtual_entries },
            FsBackend::Virtual(fs) => FsServer::Virtual(fs),
        };
        FsWorker { hpq_fd, req_fd, stop_fd, server }
    }

    /// What an event on a descriptor means. Only an event that says that there is
    /// something to read, and nothing else, counts.
    pub open spec fn event(self, readable: bool, source: i32) -> WorkerEvent {
        if !readable {
            WorkerEvent::Unknown
        } else if source == self.hpq_fd {
            WorkerEvent::Queue(HPQ_INDEX)
        } else if source == self.req_fd {
            WorkerEvent::Queue(REQ_INDEX)
        } else if source == self.stop_fd {
            WorkerEvent::Stop
        } else {
            WorkerEvent::Unknown
        }
    }

    pub fn classify(&self, readable: bool, source: i32) -> (r: WorkerEvent)
        ensures
            r == self.event(readable, source),
    {
        if !readable {
            WorkerEvent::Unknown
        } else if source == self.hpq_fd {
            WorkerEvent::Queue(HPQ_INDEX)
        } else if source == self.req_fd {
            WorkerEvent::Queue(REQ_INDEX)
        } else if source == self.stop_fd {
            WorkerEvent::Stop
        } else {
            WorkerEvent::Unknown
        }
    }
}

/// What a worker does next about a queue.
#[derive(Debug, Clone, Copy, PartialEq, Eq, Structural)]
pub enum QueueAction {
    /// Take note of the event.
    ReadEvent,
    /// Ask the guest not to notify the worker while it looks at the queue.
    DisableNotification,
    /// Take a request.
    Pop,
    /// Let the server answer the request.
    Handle,
    /// Hand the request back, with this many bytes written.
    AddUsed { len: u32 },
    /// Ask whether the guest wants to be interrupted.
    CheckNotification,
    /// Interrupt the guest.
    Signal,
    /// Ask the guest to notify the worker again.
    EnableNotification,
    /// Nothing more.
    Finished,
}

/// What came of an action.
#[derive(Debug, Clone, Copy, PartialEq, Eq, Structural)]
pub enum QueueEvent {
    /// It is done; whether it failed does not matter.
    Done,
    /// There was a request.
    Popped(bool),
    /// The server wrote this many bytes, or failed.
    Handled(Option<usize>),
    /// The guest wants to be interrupted.
    Needed(bool),
    /// Requests came while notifications were off.
    Missed(bool),
}

/// How many bytes are reported for a request: none where the server failed.
pub open spec fn reported(handled: Option<usize>) -> u32 {
    match handled {
        Some(len) => (len as u64 % 0x1_0000_0000) as u32,
        None => 0,
    }
}

/// What a worker does next about a queue.
pub open spec fn queue_next(action: QueueAction, event: QueueEvent) -> QueueAction {
    match action {
        QueueAction::ReadEvent => QueueAction::DisableNotification,
        QueueAction::DisableNotification => QueueAction::Pop,
        QueueAction::Pop => if event == QueueEvent::Popped(true) {
            QueueAction::Handle
        } else {
            QueueAction::EnableNotification
        },
        QueueAction::Handle => QueueAction::AddUsed {
            len: match event {
                QueueEvent::Handled(handled) => reported(handled),
                _ => 0,
            },
        },
        QueueAction::AddUsed { .. } => QueueAction::CheckNotification,
        QueueAction::CheckNotification => if event == QueueEvent::Needed(true) {
            QueueAction::Signal
        } else {
            QueueAction::Pop
        },
        QueueAction::Signal => QueueAction::Pop,
        QueueAction::EnableNotification => if event == QueueEvent::Missed(true) {
            QueueAction::DisableNotification
        } else {
            QueueAction::Finished
        },
        QueueAction::Finished => QueueAction::Finished,
    }
}

/// Decides what a worker does next about a queue.
pub fn next_action(action: QueueAction, event: QueueEvent) -> (r: QueueAction)
    ensures
        r == queue_next(action, event),
{
    match action {
        QueueAction::ReadEvent => QueueAction::DisableNotification,
        QueueAction::DisableNotification => QueueAction::Pop,
        QueueAction::Pop => match event {
            QueueEvent::Popped(true) => QueueAction::Handle,
            _ => QueueAction::EnableNotification,
        },
        QueueAction::Handle => QueueAction::AddUsed {
            len: match event {
                QueueEvent::Handled(Some(len)) => (len as u64 % 0x1_0000_0000) as u32,
                _ => 0,
            },
        },
        QueueAction::AddUsed { .. } => QueueAction::CheckNotification,
        QueueAction::CheckNotification => match event {
            QueueEvent::Needed(true) => QueueAction::Signal,
            _ => QueueAction::Pop,
        },
        QueueAction::Signal => QueueAction::Pop,
        QueueAction::EnableNotification => match event {
            QueueEvent::Missed(true) => QueueAction::DisableNotification,
            _ => QueueAction::Finished,
        },
        QueueAction::Finished => QueueAction::Finished,
    }
}

/// How many requests were taken and not handed back before an action.
pub open spec fn pending(action: QueueAction) -> nat {
    match action {
        QueueAction::Handle => 1,
        QueueAction::AddUsed { .. } => 1,
        _ => 0,
    }
}

/// Every request that is taken is handed back before another is taken, and the
/// worker leaves a queue only when it found the queue empty and nothing came
/// while it was not notified.
pub proof fn requests_are_handed_back(action: QueueAction, event: QueueEvent)
    ensures
        ({
            let next = queue_next(action, event);
            &&& pending(next) > pending(action) ==> action == QueueAction::Pop && event
                == QueueEvent::Popped(true)
            &&& pending(next) < pending(action) ==> action is AddUsed
            &&& action == QueueAction::Handle ==> next is AddUsed
            &&& next == QueueAction::Pop ==> pending(action) == 0 || action is AddUsed
            &&& next == QueueAction::Finished && action != QueueAction::Finished ==> action
                == QueueAction::EnableNotification && event != QueueEvent::Missed(true)
            &&& next == QueueAction::EnableNotification ==> action == QueueAction::Pop && event
                != QueueEvent::Popped(true)
        }),
{
}

/// A device serves what it was configured with: a directory that may not be
/// written to is served read-only, and one with masked paths is served masked,
/// under its own semantics and without anything cached.
pub proof fn devices_serve_what_was_configured<B: ?Sized, E>(
    config: Config,
    read_only: bool,
    virtual_entries: Vec<E>,
    mask: MaskConfig,
    case_insensitive: bool,
)
    ensures
        ({
            let plain = server_for(
                FsBackend::<B, E>::Passthrough { config, read_only, virtual_entries, mask: None },
                case_insensitive,
            );
            let masked = server_for(
                FsBackend::<B, E>::Passthrough {
                    config,
                    read_only,
                    virtual_entries,
                    mask: Some(mask),
                },
                case_insensitive,
            );
            &&& match plain {
                FsServer::ReadOnly { config: c, virtual_entries: e } => read_only && c == config
                    && e == virtual_entries,
                FsServer::ReadWrite { config: c, virtual_entries: e } => !read_only && c == config
                    && e == virtual_entries,
                _ => false,
            }
            &&& match masked {
                FsServer::MaskedReadOnly { config: c, plan, virtual_entries: e } => read_only
                    && serves_masked(c, plan, config, mask, case_insensitive) && e
                    == virtual_entries,
                FsServer::MaskedReadWrite { config: c, plan, virtual_entries: e } => !read_only
                    && serves_masked(c, plan, config, mask, case_insensitive) && e
                    == virtual_entries,
                _ => false,
            }
        }),
{
}

/// A directory is served with masked paths, uncached and otherwise as configured.
pub open spec fn serves_masked(
    served: Config,
    plan: MaskPlan,
    config: Config,
    mask: MaskConfig,
    case_insensitive: bool,
) -> bool {
    &&& served.entry_timeout.secs == 0 && served.entry_timeout.nanos == 0
    &&& served.attr_timeout.secs == 0 && served.attr_timeout.nanos == 0
    &&& served == (Config {
        entry_timeout: served.entry_timeout,
        attr_timeout: served.attr_timeout,
        ..config
    })
    &&& plan.mask == mask
    &&& plan.upper_semantics == config.semantics
    &&& plan.case_insensitive == case_insensitive
}

/// A device without a directory, or with files of its own, serves just those.
pub proof fn other_devices_are_served_as_they_are<B: ?Sized, E>(
    virtual_entries: Vec<E>,
    fs: VirtualFs<B>,
    case_insensitive: bool,
)
    ensures
        server_for(FsBackend::<B, E>::Null { virtual_entries }, case_insensitive) == (FsServer::<
            B,
            E,
        >::Null { virtual_entries }),
        server_for(FsBackend::<B, E>::Virtual(fs), case_insensitive) == FsServer::<
            B,
            E,
        >::Virtual(fs),
{
}

/// An event counts where there is something to read: the first queue's comes on
/// its own descriptor, the second's on another, and the worker stops on a third.
pub proof fn events_are_of_their_descriptor<B: ?Sized, E>(
    worker: FsWorker<B, E>,
    readable: bool,
    source: i32,
)
    ensures
        !readable ==> worker.event(readable, source) == WorkerEvent::Unknown,
        readable && source == worker.hpq_fd ==> worker.event(readable, source)
            == WorkerEvent::Queue(0),
        readable && source == worker.req_fd && source != worker.hpq_fd ==> worker.event(
            readable,
            source,
        ) == WorkerEvent::Queue(1),
        readable && source == worker.stop_fd && source != worker.hpq_fd && source != worker.req_fd
            ==> worker.event(readable, source) == WorkerEvent::Stop,
        source != worker.hpq_fd && source != worker.req_fd && source != worker.stop_fd
            ==> worker.event(readable, source) == WorkerEvent::Unknown,
{
}

/// A request is handed back with as many bytes as the server wrote, none where it
/// failed, and the guest is interrupted after it where it wants to be. The worker
/// looks at a queue with notifications off, and again where something came before
/// they were back on.
pub proof fn requests_are_answered_in_turn(len: usize, used: u32)
    ensures
        len <= u32::MAX ==> queue_next(
            QueueAction::Handle,
            QueueEvent::Handled(Some(len)),
        ) == (QueueAction::AddUsed { len: len as u32 }),
        queue_next(QueueAction::Handle, QueueEvent::Handled(None)) == (QueueAction::AddUsed {
            len: 0,
        }),
        queue_next(QueueAction::ReadEvent, QueueEvent::Done) == QueueAction::DisableNotification,
        queue_next(QueueAction::DisableNotification, QueueEvent::Done) == QueueAction::Pop,
        queue_next(QueueAction::Pop, QueueEvent::Popped(true)) == QueueAction::Handle,
        queue_next(QueueAction::Pop, QueueEvent::Popped(false)) == QueueAction::EnableNotification,
        queue_next(QueueAction::AddUsed { len: used }, QueueEvent::Done)
            == QueueAction::CheckNotification,
        queue_next(QueueAction::CheckNotification, QueueEvent::Needed(true)) == QueueAction::Signal,
        queue_next(QueueAction::CheckNotification, QueueEvent::Needed(false)) == QueueAction::Pop,
        queue_next(QueueAction::Signal, QueueEvent::Done) == QueueAction::Pop,
        queue_next(QueueAction::EnableNotification, QueueEvent::Missed(true))
            == QueueAction::DisableNotification,
        queue_next(QueueAction::EnableNotification, QueueEvent::Missed(false))
            == QueueAction::Finished,
{
}

/// A worker waits on the descriptors that it is given, and runs the server for
/// what its device serves.
pub proof fn workers_are_made_of_their_parts<B: ?Sized, E>(
    hpq_fd: i32,
    req_fd: i32,
    stop_fd: i32,
    backend: FsBackend<B, E>,
    case_insensitive: bool,
    worker: FsWorker<B, E>,
    woken: WorkerEvent,
    stopped: WorkerEvent,
)
    requires
        call_ensures(
            FsWorker::<B, E>::new,
            (hpq_fd, req_fd, stop_fd, backend, case_insensitive),
            worker,
        ),
        call_ensures(FsWorker::<B, E>::classify, (&worker, true, hpq_fd), woken),
        call_ensures(FsWorker::<B, E>::classify, (&worker, true, stop_fd), stopped),
        hpq_fd != stop_fd && req_fd != stop_fd,
    ensures
        worker.hpq_fd == hpq_fd && worker.req_fd == req_fd && worker.stop_fd == stop_fd,
        worker.server == server_for(backend, case_insensitive),
        woken == WorkerEvent::Queue(0),
        stopped == WorkerEvent::Stop,
{
}

/// Case does not count where the host answers zero; a path that cannot be asked
/// about is refused, and the host's error is passed on.
pub proof fn case_is_the_hosts(
    path: &str,
    answer: Result<i64, i32>,
    r: Result<bool, i32>,
    elsewhere: Result<bool, i32>,
)
    requires
        call_ensures(case_insensitivity, (path, answer), r),
        call_ensures(host_path_is_case_insensitive, (path,), elsewhere),
    ensures
        encode_utf8(path@).contains(0u8) ==> r == Err::<bool, i32>(22),
        !encode_utf8(path@).contains(0u8) ==> match answer {
            Ok(value) => r == Ok::<bool, i32>(value == 0),
            Err(error) => r == Err::<bool, i32>(error),
        },
        elsewhere == Ok::<bool, i32>(false),
{
}

/// What a worker does next is what a queue needs next.
pub proof fn workers_serve_the_queue(
    len: usize,
    handled: QueueAction,
    popped: QueueAction,
    empty: QueueAction,
)
    requires
        call_ensures(
            next_action,
            (QueueAction::Handle, QueueEvent::Handled(Some(len))),
            handled,
        ),
        call_ensures(next_action, (QueueAction::Pop, QueueEvent::Popped(true)), popped),
        call_ensures(next_action, (QueueAction::Pop, QueueEvent::Popped(false)), empty),
        len <= u32::MAX,
    ensures
        handled == (QueueAction::AddUsed { len: len as u32 }),
        popped == QueueAction::Handle,
        empty == QueueAction::EnableNotification,
{
}

} // verus!
