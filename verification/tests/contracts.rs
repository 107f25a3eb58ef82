//! Statuses, storage kinds, frames and the heap behind them.

use dual_abi::abi::{
    fourcc, AStatus, A_FOURCC_RGBA8888, A_STORAGE_DMABUF, A_STORAGE_HEAP, A_STORAGE_IOSURFACE,
};
use dual_abi::b;
use dual_abi::capture::{CaptureJob, CaptureStep};
use dual_abi::dmabuf::{
    duplicate_request, sync_request, DmaAlloc, DmaNext, DmaStage, DuplicateRequest, HeapRequest,
    MapMode, OpenMode, SyncRequest, SYNC_END, SYNC_READ, SYNC_RW, SYNC_START,
};
use dual_abi::frame::Frame;
use dual_abi::heap::Heap;
use dual_abi::iosurface::{
    based, created, locked, made_properties, measured, surface_request, SurfaceCall, SurfaceNext,
    SurfaceRequest, LOCK_READ_ONLY,
};
use dual_abi::rt::{panic_message, Hook, LastError};
use dual_abi::source::A;
use dual_abi::storage::{Grant, Platform, PlatformCall, Storage};
use dual_abi::sub::Teardown;

/// A capture from its start to its end: its callback and its frame.
fn captured(d: &mut A, h: &mut Heap, cb: u64) -> (u64, Frame) {
    let job = d.capture_cb(cb);
    let r = match d.fire_job(h, job.id) {
        CaptureStep::Complete { cb, frame: Some(f) } => (cb, f),
        x => panic!("{x:?}"),
    };
    assert!(d.finish_job(job.id));
    r
}

#[test]
fn status_codes_round_trip() {
    let all = [
        (AStatus::Okay, 0),
        (AStatus::Panic, -1),
        (AStatus::InvalidArgument, -2),
        (AStatus::Busy, -3),
        (AStatus::Unavailable, -4),
        (AStatus::Unknown, i32::MIN),
    ];
    for (s, code) in all {
        assert_eq!(s.code(), code);
        assert_eq!(AStatus::from_code(code), s);
    }
}

#[test]
fn unknown_status_codes_are_errors() {
    for code in [1, 7, -5, -100, i32::MAX] {
        assert_eq!(AStatus::from_code(code), AStatus::Unknown);
        assert_eq!(AStatus::from_code(code).into_result(), Err(AStatus::Unknown));
    }
}

#[test]
fn results_cross_the_boundary_unchanged() {
    for r in [Ok(()), Err(AStatus::Busy), Err(AStatus::Unavailable)] {
        let code = AStatus::of_result(r).code();
        assert_eq!(AStatus::from_code(code).into_result(), r);
    }
}

#[test]
fn status_texts() {
    assert_eq!(AStatus::Okay.text(), "ok");
    assert_eq!(AStatus::Panic.text(), "internal panic caught at the library boundary");
    assert_eq!(AStatus::InvalidArgument.text(), "invalid argument");
    assert_eq!(AStatus::Busy.text(), "target is exclusively borrowed elsewhere");
    assert_eq!(AStatus::Unavailable.text(), "resource kind unavailable in this environment");
    assert_eq!(AStatus::Unknown.text(), "unrecognized status code from a newer library");
}

#[test]
fn format_code_spells_its_letters() {
    assert_eq!(fourcc(b'R', b'A', b'2', b'4'), A_FOURCC_RGBA8888);
    assert_eq!(fourcc(1, 2, 3, 4), 0x0403_0201);
}

#[test]
fn checksum_does_not_tell_the_seed() {
    let mut h = Heap::new(Platform::Other);
    let mut x = A::new(&mut h, 1);
    assert_eq!(b::checksum(&x, &h), 0);
    for seed in [0, 1, 2, 127, 255] {
        x.fill(&mut h, seed);
        assert_eq!(b::checksum(&x, &h), 522240);
        assert_eq!(x.data(&h)[0], seed);
        assert_eq!(x.data(&h)[4095], seed.wrapping_add(255));
    }
}

#[test]
fn a_new_producer() {
    let mut h = Heap::new(Platform::Other);
    let x = A::new(&mut h, 17);
    let w = x.shared();
    assert_eq!((w.abi_version, w.struct_size, w.id, w.counter), (1, 64, 17, 0));
    assert_eq!(f64::from_bits(x.scale()), 1.5);
    assert_eq!(w.fd, -1);
    assert_eq!(w._reserved, [0; 24]);
    assert!(x.data(&h).iter().all(|&v| v == 0));
    assert_eq!(x.data(&h).len(), 4096);
}

#[test]
fn old_window_has_no_fast_path_and_newer_has() {
    let mut h = Heap::new(Platform::Other);
    let mut x = A::new(&mut h, 40);
    x.shared.abi_version = 0;
    assert_eq!(b::process_fast(&x), None);
    x.shared.abi_version = 9;
    x.shared._reserved = [0xEE; 24];
    assert_eq!(b::process_fast(&x), Some((0x3FF8_0000_0000_0000, 40)));
}

#[test]
fn references_are_counted() {
    let mut h = Heap::new(Platform::Other);
    let mut x = A::new(&mut h, 1);
    x.fill(&mut h, 9);
    let f = x.frame(&mut h);
    assert_eq!(h.ref_count(f.buf), 2);
    let g = f.retain(&mut h);
    assert_eq!(h.ref_count(f.buf), 3);
    let raw = g.into_raw();
    assert_eq!(h.ref_count(f.buf), 3, "a raw handle carries its reference");
    let g = Frame::from_raw(raw);
    g.release(&mut h);
    assert_eq!(h.ref_count(f.buf), 2);
    Frame::retain_raw(&mut h, raw);
    Frame::release_raw(&mut h, raw);
    assert_eq!(h.ref_count(f.buf), 2);
    assert_eq!(Frame::map_mut_raw(&h, raw), None);
    x.fill(&mut h, 10);
    assert_eq!(h.ref_count(f.buf), 1, "the producer has moved to a copy");
    assert_eq!(Frame::map_mut_raw(&h, raw), Some((f.buf, 4096)));
    assert_eq!(f.data(&h)[0], 9);
    f.release(&mut h);
    assert_eq!(h.ref_count(raw.addr), 0);
}

#[test]
fn unshared_payload_is_filled_in_place() {
    let mut h = Heap::new(Platform::Other);
    let mut x = A::new(&mut h, 1);
    let before = x.payload;
    x.fill(&mut h, 3);
    assert_eq!(x.payload, before);
    let f = x.frame(&mut h);
    x.fill(&mut h, 4);
    assert_ne!(x.payload, before);
    assert_eq!(f.data(&h)[1], 4);
    assert_eq!(x.data(&h)[1], 5);
}

#[test]
fn copying_into_larger_and_empty_buffers() {
    let mut h = Heap::new(Platform::Other);
    let mut x = A::new(&mut h, 1);
    x.fill(&mut h, 1);
    let mut big = vec![0xEEu8; 5000];
    assert_eq!(x.copy_data(&mut h, &mut big), 4096);
    assert_eq!((big[0], big[4095], big[4096], big[4999]), (1, 0, 0xEE, 0xEE));
    assert_eq!(x.copy_data(&mut h, &mut []), 0);
}

fn linux_heap(fds: &[i32]) -> Heap {
    let mut h = Heap::new(Platform::Linux);
    for &fd in fds {
        h.supply.grant(Grant { fd, id: 0, len: 4096 });
    }
    h
}

#[test]
fn storage_kinds_of_platforms() {
    let mut h = Heap::new(Platform::Other);
    let mut x = A::new(&mut h, 1);
    assert_eq!(x.set_storage(&mut h, A_STORAGE_DMABUF), Err(AStatus::InvalidArgument));
    assert_eq!(x.set_storage(&mut h, A_STORAGE_IOSURFACE), Err(AStatus::InvalidArgument));
    assert_eq!(x.set_storage(&mut h, A_STORAGE_HEAP), Ok(()));

    let mut h = linux_heap(&[]);
    let mut x = A::new(&mut h, 1);
    assert_eq!(x.set_storage(&mut h, A_STORAGE_DMABUF), Err(AStatus::Unavailable));
    assert_eq!(x.set_storage(&mut h, A_STORAGE_IOSURFACE), Err(AStatus::InvalidArgument));
    assert_eq!(x.set_frame_storage(&mut h, A_STORAGE_DMABUF), Err(AStatus::Unavailable));
    assert_eq!(x.frame_storage(), A_STORAGE_HEAP);

    let mut h = Heap::new(Platform::Macos);
    let mut x = A::new(&mut h, 1);
    assert_eq!(x.set_storage(&mut h, A_STORAGE_IOSURFACE), Err(AStatus::Unavailable));
    assert_eq!(x.set_storage(&mut h, A_STORAGE_DMABUF), Err(AStatus::InvalidArgument));
}

#[test]
fn dma_payload_is_bracketed_described_and_freed() {
    let mut h = linux_heap(&[30]);
    let mut d = A::new(&mut h, 60);
    d.fill(&mut h, 4);
    d.set_storage(&mut h, A_STORAGE_DMABUF).unwrap();
    assert_eq!(d.data(&h)[0], 4, "contents are carried over");
    assert_eq!(
        h.take_calls(),
        vec![
            PlatformCall::DmaSync { fd: 30, flags: SYNC_START | SYNC_RW },
            PlatformCall::DmaSync { fd: 30, flags: SYNC_END | SYNC_RW },
        ]
    );
    d.fill(&mut h, 5);
    h.take_calls();
    let fr = d.frame(&mut h);
    let desc = fr.export(&h, 77);
    assert_eq!(desc.kind, A_STORAGE_DMABUF, "descriptor kind");
    assert_eq!(desc.len, 4096);
    assert_eq!(desc.fd, 77, "a duplicate is exported");
    assert_eq!(fr.data(&h)[0], 5, "storage-backed frame readable");

    let mut out = [0u8; 8];
    d.copy_data(&mut h, &mut out);
    assert_eq!(
        h.take_calls(),
        vec![
            PlatformCall::DmaSync { fd: 30, flags: SYNC_START | SYNC_READ },
            PlatformCall::DmaSync { fd: 30, flags: SYNC_END | SYNC_READ },
        ]
    );

    // No second buffer can be had: the detached copy falls back to the heap.
    d.fill(&mut h, 6);
    assert_eq!(fr.export(&h, 77).kind, A_STORAGE_DMABUF, "the snapshot keeps its buffer");
    let again = d.frame(&mut h);
    assert_eq!(again.export(&h, -1).kind, A_STORAGE_HEAP);
    assert_eq!(
        h.take_calls(),
        vec![
            PlatformCall::DmaSync { fd: 30, flags: SYNC_START | SYNC_READ },
            PlatformCall::DmaSync { fd: 30, flags: SYNC_END | SYNC_READ },
        ]
    );
    fr.release(&mut h);
    assert_eq!(h.take_calls(), vec![PlatformCall::DmaFree { fd: 30 }]);
}

#[test]
fn surface_payload_is_locked_per_access() {
    let mut h = Heap::new(Platform::Macos);
    h.supply.grant(Grant { fd: -1, id: 9, len: 8192 });
    let mut d = A::new(&mut h, 60);
    d.set_storage(&mut h, A_STORAGE_IOSURFACE).unwrap();
    assert_eq!(
        h.take_calls(),
        vec![
            PlatformCall::SurfaceLock { id: 9, options: 0 },
            PlatformCall::SurfaceUnlock { id: 9, options: 0 },
        ]
    );
    let fr = d.frame(&mut h);
    assert_eq!(fr.export(&h, 5).id, 9);
    assert_eq!(fr.export(&h, 5).fd, -1);
    d.copy_data(&mut h, &mut [0u8; 1]);
    assert_eq!(
        h.take_calls(),
        vec![
            PlatformCall::SurfaceLock { id: 9, options: LOCK_READ_ONLY },
            PlatformCall::SurfaceUnlock { id: 9, options: LOCK_READ_ONLY },
        ]
    );
    fr.release(&mut h);
    assert_eq!(d.destroy_step(&mut h), Teardown::Done);
    d.release(&mut h);
    assert_eq!(h.take_calls(), vec![PlatformCall::SurfaceFree { id: 9 }]);
}

#[test]
fn frame_storage_probe_is_given_back() {
    let mut h = linux_heap(&[40]);
    let mut d = A::new(&mut h, 1);
    d.set_frame_storage(&mut h, A_STORAGE_DMABUF).unwrap();
    assert_eq!(d.frame_storage(), A_STORAGE_DMABUF);
    assert_eq!(h.take_calls(), vec![PlatformCall::DmaFree { fd: 40 }]);
    assert_eq!(d.frame(&mut h).export(&h, 0).kind, A_STORAGE_HEAP, "the payload stays");
    // Nothing is left: a captured frame falls back to the heap.
    let f = captured(&mut d, &mut h, 1).1;
    assert_eq!(f.export(&h, 0).kind, A_STORAGE_HEAP);
    h.supply.grant(Grant { fd: 41, id: 0, len: 4096 });
    let f = captured(&mut d, &mut h, 1).1;
    assert_eq!(f.export(&h, 3).kind, A_STORAGE_DMABUF);
    assert_eq!(f.data(&h)[0], 0xCA);
}

#[test]
fn grants_that_are_too_small_are_passed_over() {
    let mut h = Heap::new(Platform::Linux);
    h.supply.grant(Grant { fd: 1, id: 0, len: 100 });
    h.supply.grant(Grant { fd: 2, id: 0, len: 4096 });
    match Storage::allocate(&mut h.supply, A_STORAGE_DMABUF, 4096) {
        Ok(Storage::DmaBuf(d)) => assert_eq!(d.fd, 2),
        _ => panic!("the second grant fits"),
    }
    assert_eq!(h.supply.grants.len(), 1);
    assert!(matches!(
        Storage::allocate(&mut h.supply, A_STORAGE_DMABUF, 4096),
        Err(AStatus::Unavailable)
    ));
}

#[test]
fn capture_job_makes_its_frame() {
    let mut h = Heap::new(Platform::Other);
    let mut d = A::new(&mut h, 1);
    let (cb, f) = captured(&mut d, &mut h, 4);
    assert_eq!(cb, 4);
    assert_eq!((f.data(&h)[0], f.data(&h)[53], f.data(&h)[54]), (0xCA, 0xFF, 0));
    let job = d.capture_cb(5);
    assert_eq!(job, CaptureJob { id: 2, cb: 5, kind: A_STORAGE_HEAP, fired: false });
    assert_eq!(b::complete_checksum(&mut d, &mut h, job.id), Some((5, 522240)));
    assert_eq!(b::complete_checksum(&mut d, &mut h, job.id), None, "once only");
    assert_eq!(b::complete_checksum(&mut d, &mut h, 99), None, "no such capture");
    assert!(!d.finish_job(99));
    assert!(d.finish_job(job.id));
    assert!(!d.finish_job(job.id));
}

#[test]
fn dma_allocation_tries_the_next_heap() {
    let (mut a, next) = DmaAlloc::start(4096);
    let mode = OpenMode { read: true, write: true, close_on_exec: true };
    match next {
        DmaNext::Open { path, mode: m } => assert_eq!((path, m), ("/dev/dma_heap/system", mode)),
        x => panic!("{x:?}"),
    }
    let s = a.opened(None);
    assert!(matches!(s.next, DmaNext::Open { path: "/dev/dma_heap/linux,cma", .. }));
    let s = a.opened(Some(3));
    match s.next {
        DmaNext::Request { device: 3, request } => assert_eq!(
            request,
            HeapRequest { code: 0xc018_4800, len: 4096, fd: 0, fd_mode: mode, heap_flags: 0 }
        ),
        x => panic!("{x:?}"),
    }
    let s = a.requested(Some(8));
    match s.next {
        DmaNext::MapBuffer { fd: 8, len: 4096, mapping } => {
            assert_eq!(mapping, MapMode { read: true, write: true, shared: true, offset: 0 });
        }
        x => panic!("{x:?}"),
    }
    let s = a.mapped(true);
    assert_eq!((s.close_device, s.close_buffer), (Some(3), None));
    match s.next {
        DmaNext::Granted(g) => assert_eq!(g, Grant { fd: 8, id: 0, len: 4096 }),
        _ => panic!("mapped"),
    }
}

#[test]
fn dma_allocation_gives_up() {
    let (mut a, _) = DmaAlloc::start(1);
    a.opened(Some(3));
    let s = a.requested(None);
    assert_eq!(s.close_device, Some(3));
    assert!(matches!(s.next, DmaNext::Open { path: "/dev/dma_heap/linux,cma", .. }));
    assert!(matches!(a.opened(None).next, DmaNext::GiveUp));
    assert_eq!(a.stage, DmaStage::Ended);

    let (mut a, _) = DmaAlloc::start(1);
    a.opened(Some(3));
    a.requested(Some(4));
    let s = a.mapped(false);
    assert_eq!((s.close_device, s.close_buffer), (Some(3), Some(4)));
    assert!(matches!(s.next, DmaNext::GiveUp), "no other heap is tried");
}

#[test]
fn surface_allocation_releases_what_it_made() {
    let (calls, next) = made_properties(true, false, true);
    assert_eq!(calls, vec![SurfaceCall::ReleaseProps, SurfaceCall::ReleaseSize]);
    assert_eq!(next, SurfaceNext::GiveUp);
    assert_eq!(made_properties(true, true, true), (vec![], SurfaceNext::Create));
    let all = vec![
        SurfaceCall::ReleaseProps,
        SurfaceCall::ReleaseSize,
        SurfaceCall::ReleaseElement,
    ];
    assert_eq!(created(false), (all.clone(), SurfaceNext::GiveUp));
    assert_eq!(created(true), (all, SurfaceNext::Measure));
    let only = vec![SurfaceCall::ReleaseSurface];
    assert_eq!(measured(4096, 4095), (only.clone(), SurfaceNext::GiveUp));
    assert_eq!(measured(4096, 4096), (vec![], SurfaceNext::Lock { options: 0 }));
    assert_eq!(locked(false), (only, SurfaceNext::GiveUp));
    assert_eq!(locked(true), (vec![], SurfaceNext::Base));
    assert_eq!(
        based(10, 5, false),
        (
            vec![SurfaceCall::Unlock { options: 0 }, SurfaceCall::ReleaseSurface],
            SurfaceNext::GiveUp
        )
    );
    assert_eq!(
        based(10, 5, true),
        (
            vec![SurfaceCall::Zero { len: 10 }],
            SurfaceNext::Granted(Grant { fd: -1, id: 5, len: 10 })
        )
    );
}

#[test]
fn last_error_is_whole_text() {
    let mut e = LastError::new();
    assert_eq!(e.last(), None);
    e.set("plain");
    assert_eq!(e.last(), Some("plain"));
    e.set("cut\0short");
    assert_eq!(e.last(), Some("error message contained an interior NUL"));
}

#[test]
fn panic_messages() {
    assert_eq!(panic_message(Some(("lib.rs", 120)), Some("boom")), "panic at lib.rs:120: boom");
    assert_eq!(panic_message(Some(("x", 7)), None), "panic at x:7: panic with a non-string payload");
    assert_eq!(panic_message(None, Some("boom")), "panic: boom");
    assert_eq!(panic_message(Some(("x", u32::MAX)), Some("")), "panic at x:4294967295: ");
    assert_eq!(panic_message(Some(("x", 0)), Some("a")), "panic at x:0: a");
}

#[test]
fn hook_is_installed_once() {
    let mut hook = Hook::new();
    assert!(hook.install_hook(true));
    assert!(!hook.install_hook(false));
    assert!(hook.verbose, "looked at the first time only");
    let mut e = LastError::new();
    assert!(hook.on_panic(&mut e, None, Some("x")));
    assert_eq!(e.last(), Some("panic: x"));
}

#[test]
fn platform_requests_are_fixed() {
    assert_eq!(
        surface_request(4096),
        SurfaceRequest { alloc_size: 4096, bytes_per_element: 1, lock_options: 0 }
    );
    assert_eq!(
        sync_request(SYNC_START | SYNC_READ),
        SyncRequest { code: 0x4008_6200, flags: 1 }
    );
    assert_eq!(duplicate_request(), DuplicateRequest { close_on_exec: true, least: 0 });
}
