//! Mapping files into memory that the guest shares.

use std::collections::HashMap;
use vstd::prelude::*;
use crate::abi::{
    LINUX_EINVAL, LINUX_ENOSYS, O_RDONLY, O_RDWR, PROT_READ, PROT_WRITE, SETUPMAPPING_WRITE,
};
use crate::host::{
    and_finally, count_of, finally, run_single, single, Call, CallView, HostCall, Reply, Step,
    StepView,
};
use super::{opening_inode, FsView, PassthroughFs};

verus! {

broadcast use vstd::std_specs::hash::group_hash_axioms;

/// The memory that the host shares with the guest.
#[derive(Debug, Clone, Copy, PartialEq, Eq, Structural)]
pub struct SharedRegion {
    /// Where the guest sees it.
    pub guest_base: u64,
    pub size: u64,
    /// Whether mappings can be made visible to the guest at all.
    pub connected: bool,
}

/// A request to map a part of a file.
#[derive(Debug, Clone, Copy, PartialEq, Eq, Structural)]
pub struct MapRequest {
    pub inode: u64,
    pub file_offset: u64,
    pub len: u64,
    pub flags: u64,
    /// Where in the shared memory.
    pub offset: u64,
}

/// A mapping to take away.
#[derive(Debug, Clone, Copy, PartialEq, Eq, Structural)]
pub struct UnmapRequest {
    pub offset: u64,
    pub len: u64,
}

impl MapRequest {
    pub open spec fn writable(self) -> bool {
        self.flags & SETUPMAPPING_WRITE != 0
    }
}

/// Mapping a part of an open file.
pub open spec fn mapping_fd(req: MapRequest, fd: i32, log: Seq<Reply>, pos: int) -> StepView<u64> {
    if pos >= log.len() {
        StepView::Call(
            CallView::Do(
                Call::MapFile {
                    fd,
                    len: req.len,
                    prot: if req.writable() {
                        PROT_READ | PROT_WRITE
                    } else {
                        PROT_READ
                    },
                    offset: req.file_offset,
                },
            ),
        )
    } else {
        match count_of(log[pos]) {
            Err(error) => StepView::Fail(error.linux, pos + 1),
            Ok(addr) => StepView::Done(addr, pos + 1),
        }
    }
}

/// Making mapped memory visible to the guest, and unmapping it again where that
/// is refused.
pub open spec fn announcing(
    addr: u64,
    guest: u64,
    len: u64,
    log: Seq<Reply>,
    pos: int,
) -> StepView<(u64, u64)> {
    if pos >= log.len() {
        StepView::Call(CallView::Do(Call::AddMapping { host: addr, guest, len }))
    } else {
        match count_of(log[pos]) {
            Ok(granted) => if granted != 0 {
                StepView::Done((guest, addr), pos + 1)
            } else {
                finally(
                    StepView::Fail(LINUX_EINVAL, pos + 1),
                    Call::UnmapFile { addr, len },
                    log,
                )
            },
            Err(_) => finally(
                StepView::Fail(LINUX_EINVAL, pos + 1),
                Call::UnmapFile { addr, len },
                log,
            ),
        }
    }
}

/// Mapping a part of a file into shared memory. The outcome is the guest's and
/// the host's address.
pub open spec fn mapping(
    fs: FsView,
    region: SharedRegion,
    req: MapRequest,
    log: Seq<Reply>,
) -> StepView<(u64, u64)> {
    if !region.connected {
        StepView::Fail(LINUX_ENOSYS, 0)
    } else if req.offset + req.len > region.size {
        StepView::Fail(LINUX_EINVAL, 0)
    } else {
        match opening_inode(
            fs,
            req.inode,
            if req.writable() {
                O_RDWR
            } else {
                O_RDONLY
            },
            log,
            0,
        ) {
            StepView::Call(call) => StepView::Call(call),
            StepView::Fail(error, next) => StepView::Fail(error, next),
            StepView::Done(fd, next) => match finally(
                mapping_fd(req, fd, log, next),
                Call::Close { fd },
                log,
            ) {
                StepView::Call(call) => StepView::Call(call),
                StepView::Fail(error, next) => StepView::Fail(error, next),
                StepView::Done(addr, next) => announcing(
                    addr,
                    (region.guest_base + req.offset) as u64,
                    req.len,
                    log,
                    next,
                ),
            },
        }
    }
}

/// What taking mappings away has come to: the next call or the outcome, and the
/// mappings after it.
#[verifier::ext_equal]
pub struct Unmapping {
    pub step: StepView<()>,
    pub windows: Map<u64, u64>,
}

/// Taking one mapping away: from the guest first, then from the host.
pub open spec fn withdrawing(
    addr: u64,
    guest: u64,
    len: u64,
    log: Seq<Reply>,
    pos: int,
) -> StepView<()> {
    if pos >= log.len() {
        StepView::Call(CallView::Do(Call::RemoveMapping { guest, len }))
    } else {
        match count_of(log[pos]) {
            Ok(granted) => if granted != 0 {
                single(Call::UnmapFile { addr, len }, log, pos + 1)
            } else {
                StepView::Fail(LINUX_EINVAL, pos + 1)
            },
            Err(_) => StepView::Fail(LINUX_EINVAL, pos + 1),
        }
    }
}

/// Taking mappings away, in order, up to the first that fails.
pub open spec fn unmapping(
    windows: Map<u64, u64>,
    region: SharedRegion,
    requests: Seq<UnmapRequest>,
    index: int,
    log: Seq<Reply>,
    pos: int,
) -> Unmapping
    decreases requests.len() - index,
{
    if index >= requests.len() {
        Unmapping { step: StepView::Done((), pos), windows }
    } else {
        let req = requests[index];
        let guest = (region.guest_base + req.offset) as u64;
        if req.offset + req.len > region.size || !windows.contains_key(guest) {
            Unmapping { step: StepView::Fail(LINUX_EINVAL, pos), windows }
        } else {
            let rest = windows.remove(guest);
            match withdrawing(windows[guest], guest, req.len, log, pos) {
                StepView::Done(_, next) => unmapping(rest, region, requests, index + 1, log, next),
                step => Unmapping { step, windows: rest },
            }
        }
    }
}

/// A mapping lies in the shared memory.
pub open spec fn lies_in(region: SharedRegion, offset: u64, len: u64) -> bool {
    offset + len <= region.size
}

/// The end of a mapping is an address, and so is the guest's address of a mapping
/// that lies in the shared memory.
pub open spec fn mappable(region: SharedRegion, req: MapRequest) -> bool {
    &&& req.offset + req.len <= u64::MAX
    &&& lies_in(region, req.offset, req.len) ==> region.guest_base + req.offset <= u64::MAX
}

/// The guest's address and the end of each mapping are addresses, up to the first
/// mapping that does not lie in the shared memory.
pub open spec fn unmappable(region: SharedRegion, requests: Seq<UnmapRequest>) -> bool {
    forall|i: int|
        0 <= i < requests.len() && (forall|j: int|
            0 <= j < i ==> lies_in(region, (#[trigger] requests[j]).offset, requests[j].len))
            ==> region.guest_base + (#[trigger] requests[i]).offset <= u64::MAX
            && requests[i].offset + requests[i].len <= u64::MAX
}

fn withdraw(addr: u64, guest: u64, len: u64, log: &Vec<Reply>, pos: usize) -> (r: Step<()>)
    ensures
        r@ == withdrawing(addr, guest, len, log@, pos as int),
{
    if pos >= log.len() {
        return Step::Call(HostCall::Do(Call::RemoveMapping { guest, len }));
    }
    match log[pos].count() {
        Ok(granted) => if granted != 0 {
            run_single(Call::UnmapFile { addr, len }, log, pos + 1)
        } else {
            Step::Fail(LINUX_EINVAL, pos + 1)
        },
        Err(_) => Step::Fail(LINUX_EINVAL, pos + 1),
    }
}

impl PassthroughFs {
    fn map_file(&self, region: SharedRegion, req: MapRequest, log: &Vec<Reply>) -> (r: Step<
        (u64, u64),
    >)
        requires
            region.connected ==> mappable(region, req),
        ensures
            r@ == mapping(self@, region, req, log@),
    {
        if !region.connected {
            return Step::Fail(LINUX_ENOSYS, 0);
        }
        let writable: bool = req.flags & SETUPMAPPING_WRITE != 0;
        let (open_flags, prot): (u32, u32) = if writable {
            (O_RDWR, PROT_READ | PROT_WRITE)
        } else {
            (O_RDONLY, PROT_READ)
        };
        if req.offset + req.len > region.size {
            return Step::Fail(LINUX_EINVAL, 0);
        }
        let guest: u64 = region.guest_base + req.offset;
        let (fd, next) = match self.open_inode(req.inode, open_flags, log, 0) {
            Step::Call(call) => return Step::Call(call),
            Step::Fail(error, next) => return Step::Fail(error, next),
            Step::Done(fd, next) => (fd, next),
        };
        let mapped = if next >= log.len() {
            Step::Call(
                HostCall::Do(Call::MapFile { fd, len: req.len, prot, offset: req.file_offset }),
            )
        } else {
            match log[next].count() {
                Err(error) => Step::Fail(error.linux, next + 1),
                Ok(addr) => Step::Done(addr, next + 1),
            }
        };
        let (addr, next) = match and_finally(mapped, Call::Close { fd }, log) {
            Step::Call(call) => return Step::Call(call),
            Step::Fail(error, next) => return Step::Fail(error, next),
            Step::Done(addr, next) => (addr, next),
        };
        if next >= log.len() {
            return Step::Call(
                HostCall::Do(Call::AddMapping { host: addr, guest, len: req.len }),
            );
        }
        let granted: u64 = match log[next].count() {
            Ok(granted) => granted,
            Err(_) => 0,
        };
        if granted == 0 {
            return and_finally(
                Step::Fail(LINUX_EINVAL, next + 1),
                Call::UnmapFile { addr, len: req.len },
                log,
            );
        }
        Step::Done((guest, addr), next + 1)
    }

    /// Maps a part of a file into shared memory.
    pub fn setupmapping(&mut self, region: SharedRegion, req: MapRequest, log: &Vec<Reply>) -> (r:
        Step<()>)
        requires
            old(self).wf(),
            region.connected ==> mappable(region, req),
        ensures
            final(self).wf(),
            match mapping(old(self)@, region, req, log@) {
                StepView::Call(call) => {
                    &&& r@ == StepView::<()>::Call(call)
                    &&& final(self)@ == old(self)@
                },
                StepView::Fail(error, pos) => {
                    &&& r@ == StepView::<()>::Fail(error, pos)
                    &&& final(self)@ == old(self)@
                },
                StepView::Done((guest, host), pos) => {
                    &&& r@ == StepView::<()>::Done((), pos)
                    &&& final(self)@ == (FsView {
                        windows: old(self)@.windows.insert(guest, host),
                        ..old(self)@
                    })
                },
            },
    {
        match self.map_file(region, req, log) {
            Step::Call(call) => Step::Call(call),
            Step::Fail(error, pos) => Step::Fail(error, pos),
            Step::Done((guest, host), pos) => {
                self.map_windows.insert(guest, host);
                Step::Done((), pos)
            },
        }
    }

    fn unmap_files(
        &self,
        region: SharedRegion,
        requests: &Vec<UnmapRequest>,
        log: &Vec<Reply>,
    ) -> (r: (Step<()>, HashMap<u64, u64>))
        requires
            unmappable(region, requests@),
        ensures
            r.0@ == unmapping(self@.windows, region, requests@, 0, log@, 0).step,
            r.1@ == unmapping(self@.windows, region, requests@, 0, log@, 0).windows,
    {
        let mut windows: HashMap<u64, u64> = self.map_windows.clone();
        let mut pos: usize = 0;
        let mut i: usize = 0;
        while i < requests.len()
            invariant
                i <= requests.len(),
                unmapping(self@.windows, region, requests@, 0, log@, 0) == unmapping(
                    windows@,
                    region,
                    requests@,
                    i as int,
                    log@,
                    pos as int,
                ),
                unmappable(region, requests@),
                forall|j: int|
                    0 <= j < i ==> lies_in(
                        region,
                        (#[trigger] requests@[j]).offset,
                        requests@[j].len,
                    ),
            decreases requests.len() - i,
        {
            let req: UnmapRequest = requests[i];
            let guest: u64 = region.guest_base + req.offset;
            if req.offset + req.len > region.size {
                return (Step::Fail(LINUX_EINVAL, pos), windows);
            }
            let addr: u64 = match windows.remove(&guest) {
                Some(addr) => addr,
                None => {
                    return (Step::Fail(LINUX_EINVAL, pos), windows);
                },
            };
            match withdraw(addr, guest, req.len, log, pos) {
                Step::Done(_, next) => {
                    pos = next;
                },
                step => {
                    return (step, windows);
                },
            }
            i = i + 1;
        }
        (Step::Done((), pos), windows)
    }

    /// Takes mappings away, in order, up to the first that fails.
    pub fn removemapping(
        &mut self,
        region: SharedRegion,
        requests: &Vec<UnmapRequest>,
        log: &Vec<Reply>,
    ) -> (r: Step<()>)
        requires
            old(self).wf(),
            region.connected ==> unmappable(region, requests@),
        ensures
            final(self).wf(),
            r@ == if region.connected {
                unmapping(old(self)@.windows, region, requests@, 0, log@, 0).step
            } else {
                StepView::<()>::Fail(LINUX_ENOSYS, 0)
            },
            final(self)@ == (FsView {
                windows: if !region.connected || r@ is Call {
                    old(self)@.windows
                } else {
                    unmapping(old(self)@.windows, region, requests@, 0, log@, 0).windows
                },
                ..old(self)@
            }),
    {
        if !region.connected {
            return Step::Fail(LINUX_ENOSYS, 0);
        }
        let (step, windows) = self.unmap_files(region, requests, log);
        match step {
            Step::Call(call) => Step::Call(call),
            step => {
                self.map_windows = windows;
                step
            },
        }
    }
}

} // verus!
