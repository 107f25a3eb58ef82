//! Linux DMA-BUF storage.

use vstd::prelude::*;
use vstd::multiset::Multiset;
use crate::storage::{Grant, PlatformCall};

verus! {

/// Flags of `DMA_BUF_IOCTL_SYNC`: the CPU reads.
pub const SYNC_READ: u64 = 1;

/// The CPU writes.
pub const SYNC_WRITE: u64 = 2;

/// The CPU reads and writes.
pub const SYNC_RW: u64 = 3;

/// The access begins.
pub const SYNC_START: u64 = 0;

/// The access ends.
pub const SYNC_END: u64 = 4;

/// `DMA_HEAP_IOCTL_ALLOC`: `_IOWR('H', 0x0, struct dma_heap_allocation_data)`.
pub const DMA_HEAP_IOCTL_ALLOC: u32 = 0xc018_4800;

/// `DMA_BUF_IOCTL_SYNC`: `_IOW('b', 0, struct dma_buf_sync)`.
pub const DMA_BUF_IOCTL_SYNC: u32 = 0x4008_6200;

/// How a descriptor is opened.
#[derive(Debug, Clone, Copy, PartialEq, Eq, Structural)]
pub struct OpenMode {
    pub read: bool,
    pub write: bool,
    pub close_on_exec: bool,
}

/// For reading and writing, and closed when another program is run.
pub open spec fn read_write_cloexec() -> OpenMode {
    OpenMode { read: true, write: true, close_on_exec: true }
}

/// How an allocator is opened, and how the descriptor of a buffer behaves.
pub fn open_mode() -> (r: OpenMode)
    ensures
        r == read_write_cloexec(),
{
    OpenMode { read: true, write: true, close_on_exec: true }
}

/// The call that asks an allocator for a buffer: its request code, and the
/// fields of `struct dma_heap_allocation_data`.
#[derive(Debug, Clone, Copy, PartialEq, Eq, Structural)]
pub struct HeapRequest {
    pub code: u32,
    pub len: u64,
    /// The kernel writes the buffer's descriptor here.
    pub fd: u32,
    /// How the buffer's descriptor is to behave.
    pub fd_mode: OpenMode,
    pub heap_flags: u64,
}

/// The request for `len` bytes.
pub open spec fn heap_request_for(len: usize) -> HeapRequest {
    HeapRequest {
        code: DMA_HEAP_IOCTL_ALLOC,
        len: len as u64,
        fd: 0,
        fd_mode: read_write_cloexec(),
        heap_flags: 0,
    }
}

/// What an allocator is asked for a buffer of `len` bytes.
pub fn heap_request(len: usize) -> (r: HeapRequest)
    ensures
        r == heap_request_for(len),
        r.code == 0xc018_4800,
        r.len == len,
        r.fd == 0,
        r.fd_mode == (OpenMode { read: true, write: true, close_on_exec: true }),
        r.heap_flags == 0,
{
    HeapRequest {
        code: DMA_HEAP_IOCTL_ALLOC,
        len: len as u64,
        fd: 0,
        fd_mode: open_mode(),
        heap_flags: 0,
    }
}

/// How a buffer is mapped: what the mapping allows, whether other processes
/// see what is written, and where in the buffer it starts.
#[derive(Debug, Clone, Copy, PartialEq, Eq, Structural)]
pub struct MapMode {
    pub read: bool,
    pub write: bool,
    pub shared: bool,
    pub offset: u64,
}

/// Shared, for reading and writing, from the start.
pub open spec fn read_write_shared() -> MapMode {
    MapMode { read: true, write: true, shared: true, offset: 0 }
}

/// How every buffer is mapped.
pub fn map_mode() -> (r: MapMode)
    ensures
        r == read_write_shared(),
{
    MapMode { read: true, write: true, shared: true, offset: 0 }
}

/// The call at one end of a CPU access: its request code, and the field of
/// `struct dma_buf_sync`.
#[derive(Debug, Clone, Copy, PartialEq, Eq, Structural)]
pub struct SyncRequest {
    pub code: u32,
    pub flags: u64,
}

/// What the kernel is asked with `flags`.
pub fn sync_request(flags: u64) -> (r: SyncRequest)
    ensures
        r == (SyncRequest { code: DMA_BUF_IOCTL_SYNC, flags }),
        r.code == 0x4008_6200,
{
    SyncRequest { code: DMA_BUF_IOCTL_SYNC, flags }
}

/// The call that duplicates a descriptor for export.
#[derive(Debug, Clone, Copy, PartialEq, Eq, Structural)]
pub struct DuplicateRequest {
    pub close_on_exec: bool,
    /// The least number that the duplicate may get.
    pub least: i32,
}

/// A duplicate that is closed when another program is run, under any number.
pub fn duplicate_request() -> (r: DuplicateRequest)
    ensures
        r == (DuplicateRequest { close_on_exec: true, least: 0 }),
{
    DuplicateRequest { close_on_exec: true, least: 0 }
}

/// A CPU-mapped DMA-BUF: the descriptor is the shareable handle, `bytes` are
/// the contents of the mapping.
pub struct DmaBuf {
    pub fd: i32,
    pub bytes: Vec<u8>,
}

impl DmaBuf {
    /// The contents of the mapping.
    pub fn bytes(&self) -> (r: &[u8])
        ensures
            r@ == self.bytes@,
    {
        self.bytes.as_slice()
    }

    /// The contents of the mapping, for writing.
    pub fn bytes_mut(&mut self) -> (r: &mut [u8])
        ensures
            r@ == old(self).bytes@,
            final(self).bytes@ == final(r)@,
            final(self).fd == old(self).fd,
    {
        self.bytes.as_mut_slice()
    }

    /// One end of the kernel's CPU-access bracket. It is cache maintenance,
    /// not mutual exclusion, and its failure is ignored.
    pub fn sync(&self, flags: u64) -> (r: PlatformCall)
        ensures
            r == (PlatformCall::DmaSync { fd: self.fd, flags }),
    {
        PlatformCall::DmaSync { fd: self.fd, flags }
    }
}

/// The kernel's allocators, in the order in which they are tried.
pub open spec fn heap_path(i: int) -> Seq<char> {
    if i == 0 {
        "/dev/dma_heap/system"@
    } else {
        "/dev/dma_heap/linux,cma"@
    }
}

/// How many allocators there are.
pub const HEAPS: usize = 2;

/// The path of allocator `i`.
fn path(i: usize) -> (r: &'static str)
    requires
        i < HEAPS,
    ensures
        r@ == heap_path(i as int),
{
    if i == 0 {
        "/dev/dma_heap/system"
    } else {
        "/dev/dma_heap/linux,cma"
    }
}

/// Where an allocation stands: what it has asked for last.
#[derive(Debug, Clone, Copy, PartialEq, Eq, Structural)]
pub enum DmaStage {
    /// To open allocator number `heap`.
    Open { heap: usize },
    /// To allocate from the allocator behind `device`.
    Request { heap: usize, device: i32 },
    /// To map the buffer `fd`.
    Mapping { device: i32, fd: i32 },
    /// Nothing more.
    Ended,
}

/// What an allocation asks for next.
#[derive(Debug)]
pub enum DmaNext {
    /// Open this path.
    Open { path: &'static str, mode: OpenMode },
    /// Ask the allocator behind `device` for a buffer.
    Request { device: i32, request: HeapRequest },
    /// Map `len` bytes of the buffer `fd`.
    MapBuffer { fd: i32, len: usize, mapping: MapMode },
    /// The buffer is there.
    Granted(Grant),
    /// There is none to be had.
    GiveUp,
}

/// Whether `next` asks for allocator number `heap` to be opened.
pub open spec fn asks_to_open(next: DmaNext, heap: int) -> bool {
    next matches DmaNext::Open { path, mode } && path@ == heap_path(heap) && mode
        == read_write_cloexec()
}

/// One step: descriptors to close, then what to ask for.
#[derive(Debug)]
pub struct DmaStep {
    pub close_device: Option<i32>,
    pub close_buffer: Option<i32>,
    pub next: DmaNext,
}

/// An allocation of a mapped buffer of `len` bytes.
#[derive(Debug, Clone, Copy, PartialEq, Eq, Structural)]
pub struct DmaAlloc {
    pub len: usize,
    pub stage: DmaStage,
}

/// The descriptors behind an optional one.
pub open spec fn one_fd(fd: Option<i32>) -> Multiset<i32> {
    match fd {
        Some(d) => Multiset::singleton(d),
        None => Multiset::empty(),
    }
}

/// A step's closed descriptors and the one that it hands over.
pub open spec fn let_go(step: DmaStep) -> Multiset<i32> {
    one_fd(step.close_device).add(one_fd(step.close_buffer)).add(
        match step.next {
            DmaNext::Granted(g) => Multiset::singleton(g.fd),
            _ => Multiset::empty(),
        },
    )
}

impl DmaAlloc {
    /// The descriptors that the allocation has open.
    pub open spec fn open_fds(self) -> Multiset<i32> {
        match self.stage {
            DmaStage::Request { device, .. } => Multiset::singleton(device),
            DmaStage::Mapping { device, fd } => Multiset::singleton(device).insert(fd),
            _ => Multiset::empty(),
        }
    }

    /// Whether a step that was told of the descriptor `got` loses none: what
    /// was open, and `got`, is open after it, or closed, or handed over.
    pub open spec fn accounts_for(self, got: Option<i32>, step: DmaStep, post: DmaAlloc) -> bool {
        post.open_fds().add(let_go(step)) =~= self.open_fds().add(one_fd(got))
    }

    /// Begins with the first allocator.
    pub fn start(len: usize) -> (r: (DmaAlloc, DmaNext))
        ensures
            r.0 == (DmaAlloc { len, stage: DmaStage::Open { heap: 0 } }),
            asks_to_open(r.1, 0),
    {
        (
            DmaAlloc { len, stage: DmaStage::Open { heap: 0 } },
            DmaNext::Open { path: path(0), mode: open_mode() },
        )
    }

    /// Goes on with the allocator after number `heap`, or gives up.
    fn after(&mut self, heap: usize) -> (r: DmaNext)
        requires
            heap < HEAPS,
        ensures
            final(self).len == old(self).len,
            if heap + 1 < HEAPS {
                &&& final(self).stage == (DmaStage::Open { heap: (heap + 1) as usize })
                &&& asks_to_open(r, heap + 1)
            } else {
                &&& final(self).stage is Ended
                &&& r is GiveUp
            },
    {
        if heap + 1 < HEAPS {
            self.stage = DmaStage::Open { heap: heap + 1 };
            DmaNext::Open { path: path(heap + 1), mode: open_mode() }
        } else {
            self.stage = DmaStage::Ended;
            DmaNext::GiveUp
        }
    }

    /// The path was opened as `device`, or could not be: then the next
    /// allocator is tried.
    pub fn opened(&mut self, device: Option<i32>) -> (r: DmaStep)
        requires
            old(self).stage matches DmaStage::Open { heap } && heap < HEAPS,
        ensures
            final(self).len == old(self).len,
            r.close_device is None,
            r.close_buffer is None,
            ({
                let heap = old(self).stage->Open_heap;
                match device {
                    Some(d) => {
                        &&& final(self).stage == (DmaStage::Request { heap, device: d })
                        &&& r.next == (DmaNext::Request {
                            device: d,
                            request: heap_request_for(old(self).len),
                        })
                    },
                    None => if heap + 1 < HEAPS {
                        &&& final(self).stage == (DmaStage::Open { heap: (heap + 1) as usize })
                        &&& asks_to_open(r.next, heap + 1)
                    } else {
                        &&& final(self).stage is Ended
                        &&& r.next is GiveUp
                    },
                }
            }),
            old(self).accounts_for(device, r, *final(self)),
    {
        let heap: usize = match self.stage {
            DmaStage::Open { heap } => heap,
            _ => 0,
        };
        match device {
            Some(d) => {
                self.stage = DmaStage::Request { heap, device: d };
                DmaStep {
                    close_device: None,
                    close_buffer: None,
                    next: DmaNext::Request { device: d, request: heap_request(self.len) },
                }
            },
            None => {
                let next = self.after(heap);
                DmaStep { close_device: None, close_buffer: None, next }
            },
        }
    }

    /// The allocator gave the buffer `fd`, or none: then it is closed and the
    /// next one is tried.
    pub fn requested(&mut self, fd: Option<i32>) -> (r: DmaStep)
        requires
            old(self).stage matches DmaStage::Request { heap, .. } && heap < HEAPS,
        ensures
            final(self).len == old(self).len,
            r.close_buffer is None,
            ({
                let heap = old(self).stage->Request_heap;
                let device = old(self).stage->Request_device;
                match fd {
                    Some(d) => {
                        &&& r.close_device is None
                        &&& final(self).stage == (DmaStage::Mapping { device, fd: d })
                        &&& r.next == (DmaNext::MapBuffer {
                            fd: d,
                            len: old(self).len,
                            mapping: read_write_shared(),
                        })
                    },
                    None => {
                        &&& r.close_device == Some(device)
                        &&& if heap + 1 < HEAPS {
                            &&& final(self).stage == (DmaStage::Open {
                                heap: (heap + 1) as usize,
                            })
                            &&& asks_to_open(r.next, heap + 1)
                        } else {
                            &&& final(self).stage is Ended
                            &&& r.next is GiveUp
                        }
                    },
                }
            }),
            old(self).accounts_for(fd, r, *final(self)),
    {
        let (heap, device): (usize, i32) = match self.stage {
            DmaStage::Request { heap, device } => (heap, device),
            _ => (0, 0),
        };
        match fd {
            Some(d) => {
                self.stage = DmaStage::Mapping { device, fd: d };
                DmaStep {
                    close_device: None,
                    close_buffer: None,
                    next: DmaNext::MapBuffer { fd: d, len: self.len, mapping: map_mode() },
                }
            },
            None => {
                let next = self.after(heap);
                DmaStep { close_device: Some(device), close_buffer: None, next }
            },
        }
    }

    /// The buffer was mapped, or could not be: then it is closed, and no
    /// other allocator is tried.
    pub fn mapped(&mut self, ok: bool) -> (r: DmaStep)
        requires
            old(self).stage is Mapping,
        ensures
            final(self).len == old(self).len,
            final(self).stage is Ended,
            r.close_device == Some(old(self).stage->Mapping_device),
            ({
                let fd = old(self).stage->Mapping_fd;
                if ok {
                    &&& r.close_buffer is None
                    &&& r.next == DmaNext::Granted(Grant { fd, id: 0, len: old(self).len })
                } else {
                    &&& r.close_buffer == Some(fd)
                    &&& r.next is GiveUp
                }
            }),
            old(self).accounts_for(None, r, *final(self)),
    {
        let (device, fd): (i32, i32) = match self.stage {
            DmaStage::Mapping { device, fd } => (device, fd),
            _ => (0, 0),
        };
        self.stage = DmaStage::Ended;
        if ok {
            DmaStep {
                close_device: Some(device),
                close_buffer: None,
                next: DmaNext::Granted(Grant { fd, id: 0, len: self.len }),
            }
        } else {
            DmaStep { close_device: Some(device), close_buffer: Some(fd), next: DmaNext::GiveUp }
        }
    }
}

/// All descriptors that the operating system gave.
pub open spec fn all_got(got: Seq<Option<i32>>) -> Multiset<i32>
    decreases got.len(),
{
    if got.len() == 0 {
        Multiset::empty()
    } else {
        all_got(got.drop_last()).add(one_fd(got.last()))
    }
}

/// All descriptors that were closed or handed over.
pub open spec fn all_let_go(steps: Seq<DmaStep>) -> Multiset<i32>
    decreases steps.len(),
{
    if steps.len() == 0 {
        Multiset::empty()
    } else {
        all_let_go(steps.drop_last()).add(let_go(steps.last()))
    }
}

/// Whether an allocation went through `states`, was told of `got` in between,
/// and answered with `steps`.
pub open spec fn is_allocation(
    states: Seq<DmaAlloc>,
    got: Seq<Option<i32>>,
    steps: Seq<DmaStep>,
) -> bool {
    &&& states.len() == got.len() + 1
    &&& steps.len() == got.len()
    &&& states[0].stage is Open
    &&& forall|i: int|
        0 <= i < got.len() ==> #[trigger] states[i].accounts_for(got[i], steps[i], states[i + 1])
}

/// What an allocation was given is open, or was let go of.
proof fn lemma_allocation_accounts(
    states: Seq<DmaAlloc>,
    got: Seq<Option<i32>>,
    steps: Seq<DmaStep>,
)
    requires
        is_allocation(states, got, steps),
    ensures
        states.last().open_fds().add(all_let_go(steps)) =~= all_got(got),
    decreases got.len(),
{
    if got.len() > 0 {
        let n = got.len() - 1;
        let earlier = states.drop_last();
        assert forall|i: int| 0 <= i < n implies #[trigger] earlier[i].accounts_for(
            got.drop_last()[i],
            steps.drop_last()[i],
            earlier[i + 1],
        ) by {
            assert(states[i].accounts_for(got[i], steps[i], states[i + 1]));
        }
        lemma_allocation_accounts(earlier, got.drop_last(), steps.drop_last());
        assert(states[n].accounts_for(got[n], steps[n], states[n + 1]));
        assert forall|fd: i32| #[trigger]
            states.last().open_fds().add(all_let_go(steps)).count(fd) == all_got(got).count(fd) by {
            assert(states[n + 1].open_fds().add(let_go(steps[n])).count(fd) == states[n].open_fds().add(
                one_fd(got[n]),
            ).count(fd));
            assert(earlier.last().open_fds().add(all_let_go(steps.drop_last())).count(fd)
                == all_got(got.drop_last()).count(fd));
        }
    }
}

/// An allocation that has ended leaks nothing: every descriptor that it was
/// given it has closed, or handed over with the grant.
pub proof fn law_ended_allocation_leaks_nothing(
    states: Seq<DmaAlloc>,
    got: Seq<Option<i32>>,
    steps: Seq<DmaStep>,
)
    requires
        is_allocation(states, got, steps),
        states.last().stage is Ended,
    ensures
        all_let_go(steps) == all_got(got),
{
    lemma_allocation_accounts(states, got, steps);
    assert(all_let_go(steps) =~= all_got(got));
}

/// Descriptors are opened for reading and writing and do not survive into
/// another program; buffers are mapped from their start, shared, for reading
/// and writing; the two allocators are the kernel's, the general one first.
pub proof fn law_requests_to_the_kernel(len: usize)
    ensures
        read_write_cloexec().read && read_write_cloexec().write
            && read_write_cloexec().close_on_exec,
        read_write_shared().read && read_write_shared().write && read_write_shared().shared,
        read_write_shared().offset == 0,
        heap_path(0) == "/dev/dma_heap/system"@,
        heap_path(1) == "/dev/dma_heap/linux,cma"@,
        heap_request_for(len).code == 0xc018_4800,
        heap_request_for(len).len == len,
        heap_request_for(len).fd == 0,
        heap_request_for(len).fd_mode == read_write_cloexec(),
        heap_request_for(len).heap_flags == 0,
{
}

} // verus!
