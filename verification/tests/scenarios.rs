//! Scenarios over the whole library: what an application sees.

use dual_abi::abi::{
    ABuf, AStatus, A_DELIVERY_BLOCKING, A_DELIVERY_LATEST, A_FOURCC_RGBA8888, A_MODIFIER_LINEAR,
    A_STORAGE_DMABUF, A_STORAGE_HEAP, A_STORAGE_IOSURFACE,
};
use dual_abi::b;
use dual_abi::capi::Liba;
use dual_abi::capture::CaptureStep;
use dual_abi::dynamic;
use dual_abi::frame::Frame;
use dual_abi::heap::Heap;
use dual_abi::oneshot::OneShot;
use dual_abi::py::{PyObj, Scope};
use dual_abi::registry::Registry;
use dual_abi::source::{ProducerStep, A};
use dual_abi::storage::{Grant, Platform};
use dual_abi::sub::{Delivery, Invocation, PumpStep, SubCb, Teardown};

fn heap() -> Heap {
    Heap::new(Platform::Other)
}

/// Runs the producer thread's work to its end; `call` is every callback.
fn run_stream(src: &mut A, heap: &mut Heap, mut call: impl FnMut(u64, Frame, &mut Heap)) {
    loop {
        match src.producer_step(heap) {
            ProducerStep::Delivered { id, what: Delivery::Invoke(inv) } => {
                match inv {
                    Invocation::Rust { f, frame } => call(f, frame, heap),
                    Invocation::C { .. } => panic!("no function was subscribed"),
                }
                assert!(src.finish_invoke(heap, id));
            }
            ProducerStep::Done | ProducerStep::Idle => return,
            ProducerStep::Busy(_) => panic!("the callback has returned"),
            _ => {}
        }
    }
}

/// The frame of a capture, as its thread makes it.
fn captured(src: &mut A, heap: &mut Heap, id: u64) -> Frame {
    match src.fire_job(heap, id) {
        CaptureStep::Complete { frame: Some(f), .. } => f,
        x => panic!("{x:?}"),
    }
}

/// Destroys a producer with nothing in flight.
fn destroy(mut src: A, heap: &mut Heap) {
    assert_eq!(src.destroy_step(heap), Teardown::Done);
    src.release(heap);
}

/// Waits for a capture: nothing arrives until it is completed.
fn block_on<T>(mut shot: OneShot<T>, complete: impl FnOnce() -> T) -> T {
    assert!(shot.poll(7).is_none());
    assert_eq!(shot.complete(complete()), Some(7));
    shot.poll(7).expect("completed")
}

#[test]
fn rust_api_basics() {
    let mut h = heap();
    let mut x = A::new(&mut h, 40);
    assert_eq!(b::process(&mut x), 42);
    let (bits, sum) = b::process_fast(&x).expect("the window is new enough");
    assert_eq!(f64::from_bits(bits) * sum as f64, 1.5 * 42.0);
    assert_eq!(A::impl_size(), b::observed_impl_size());
}

#[test]
fn zero_copy_view_and_cow() {
    let mut h = heap();
    let mut x = A::new(&mut h, 7);
    x.fill(&mut h, 1);
    let cs = b::checksum(&x, &h);
    assert_eq!(b::data_ptr(&x), x.payload, "zero-copy: pointer identity");

    let frame = b::grab_frame(&x, &mut h);
    assert_eq!(frame.data(&h).as_ptr(), x.data(&h).as_ptr());
    x.fill(&mut h, 2);
    assert_eq!(b::frame_checksum(&frame, &h), cs, "snapshot immutable across COW");
    assert_eq!(frame.data(&h)[0], 1, "snapshot keeps seed-1 bytes");
    assert_eq!(x.data(&h)[0], 2, "producer sees seed-2 bytes");
    assert_ne!(
        frame.data(&h).as_ptr(),
        x.data(&h).as_ptr(),
        "COW: addresses diverge after post-snapshot mutation"
    );
}

#[test]
fn frame_outlives_producer() {
    let mut h = heap();
    let mut x = A::new(&mut h, 8);
    x.fill(&mut h, 1);
    let cs = b::checksum(&x, &h);
    let frame = b::grab_frame(&x, &mut h);
    destroy(x, &mut h);
    assert_eq!(b::frame_checksum(&frame, &h), cs, "frame outlives its producer");

    let info = frame.info(&h);
    assert_eq!(
        (info.rows, info.cols, info.channels, info.row_stride),
        (32, 30, 4, 128),
        "geometry travels with the payload; stride > cols*channels"
    );
    assert_eq!(frame.data(&h).len(), 4096);
}

#[test]
fn copy_data_is_bounded_by_capacity() {
    let mut h = heap();
    let mut x = A::new(&mut h, 9);
    x.fill(&mut h, 3);
    let mut out = [0u8; 64];
    assert_eq!(x.copy_data(&mut h, &mut out), 64, "writes at most the capacity given");
    assert_eq!(out[0], x.data(&h)[0]);
}

#[test]
fn error_code_convention() {
    let mut h = heap();
    let mut z = A::new(&mut h, 1);
    assert_eq!(z.try_fill(&mut h, 0), Err(AStatus::InvalidArgument), "seed 0 reserved");
    z.try_fill(&mut h, 5).unwrap();
    assert_eq!(z.data(&h)[0], 5);
}

#[test]
fn exclusive_write_requires_uniqueness() {
    let mut h = heap();
    let mut z = A::new(&mut h, 2);
    z.fill(&mut h, 4);
    let mut zf = b::grab_frame(&z, &mut h);
    assert!(zf.data_mut(&mut h).is_none(), "refused while shared with the producer");
    destroy(z, &mut h);
    zf.data_mut(&mut h).expect("unique: writable")[0] = 0xAA;
    assert_eq!(zf.data(&h)[0], 0xAA, "in-place write once unique");
}

#[test]
fn subscribe_stream_and_teardown_guarantee() {
    let mut h = heap();
    let mut src = A::new(&mut h, 50);
    let mut firsts: Vec<u8> = Vec::new();
    let mut count = 0u32;

    let sid = src.subscribe(11);
    assert!(src.stream(4, 1));
    run_stream(&mut src, &mut h, |f, frame, h| {
        assert_eq!(f, 11);
        firsts.push(frame.data(h)[0]);
        count += 1;
        frame.release(h);
    });
    assert!(src.stream_join());
    assert_eq!(firsts, vec![0, 1, 2, 3], "in-order delivery");

    assert_eq!(src.unsubscribe(&mut h, sid), Teardown::Done);
    assert!(src.stream(2, 1));
    run_stream(&mut src, &mut h, |_, frame, h| {
        count += 1;
        frame.release(h);
    });
    assert!(src.stream_join());
    assert_eq!(count, 4, "no deliveries after unsubscribe");
}

#[test]
fn destroy_is_full_teardown() {
    let mut h = heap();
    let mut seen = 0u32;
    let mut src = A::new(&mut h, 51);
    let _ = src.subscribe(1);
    assert!(src.stream(3, 1));
    assert_eq!(src.destroy_step(&mut h), Teardown::JoinStream);
    run_stream(&mut src, &mut h, |_, frame, h| {
        seen += 1;
        frame.release(h);
    });
    assert_eq!(src.destroy_step(&mut h), Teardown::Done);
    assert!(matches!(src.producer_step(&mut h), ProducerStep::Idle));
    src.release(&mut h);
    assert!(seen <= 3, "at most the streamed count was delivered, got {seen}");
    assert!(h.slots.iter().all(|s| s.count == 0), "nothing is left behind");
}

#[test]
fn async_capture_over_completion_callback() {
    let mut h = heap();
    let mut src = A::new(&mut h, 52);
    let (job, shot) = src.capture(3);
    let cap = block_on(shot, || captured(&mut src, &mut h, job.id));
    assert_eq!(cap.data(&h)[0], 0xCA, "async capture resolved from producer thread");
}

#[test]
fn composed_async_across_crates() {
    let mut h = heap();
    let mut src = A::new(&mut h, 53);
    let (job, shot) = src.capture(1);
    let cap = block_on(shot, || captured(&mut src, &mut h, job.id));
    let (job, shot) = b::capture_checksum(&mut src, 2);
    let cs = block_on(shot, || b::complete_checksum(&mut src, &mut h, job.id).unwrap().1);
    assert_eq!(cs, b::frame_checksum(&cap, &h), "b's composed async checksum");
}

#[test]
fn unsupported_storage_kind_is_rejected() {
    let mut h = heap();
    let mut d = A::new(&mut h, 60);
    assert_eq!(
        d.set_storage(&mut h, 99),
        Err(AStatus::InvalidArgument),
        "unknown kinds are refused at runtime, not compile time"
    );
}

#[test]
fn frame_pool_storage_is_independent_of_payload_storage() {
    let mut h = heap();
    let mut d = A::new(&mut h, 61);
    assert_eq!(d.frame_storage(), A_STORAGE_HEAP, "emitted frames default to heap");
    assert_eq!(
        d.set_frame_storage(&mut h, 99),
        Err(AStatus::InvalidArgument),
        "unsupported pool kinds fail eagerly rather than downgrading per frame"
    );
    d.set_frame_storage(&mut h, A_STORAGE_HEAP).unwrap();
    assert_eq!(d.frame_storage(), A_STORAGE_HEAP);
}

#[test]
fn descriptor_v2_supersets_v1() {
    let mut h = heap();
    let mut x = A::new(&mut h, 62);
    x.fill(&mut h, 1);
    let f = x.frame(&mut h);
    let (v1, v2) = (f.export(&h, -1), f.export2(&h, -1));
    assert_eq!(
        (v1.kind, v1.fd, v1.id, v1.offset, v1.len),
        (v2.kind, v2.fd, v2.id, v2.offset, v2.len),
        "v2 reproduces every v1 field"
    );
    assert_eq!(v2.fourcc, A_FOURCC_RGBA8888);
    assert_eq!(v2.modifier, A_MODIFIER_LINEAR);
    assert_eq!((v2.width, v2.height, v2.stride), (30, 32, 128));
    assert_eq!(v2.plane_count, 1, "single-plane; NV12 would be a v3 shape");
}

#[test]
fn latest_delivery_drops_rather_than_blocking_the_producer() {
    let mut h = heap();
    let mut src = A::new(&mut h, 70);
    let sid = src.subscribe_with(1, A_DELIVERY_LATEST);
    assert!(src.stream(8, 1));
    let mut slept = 0;
    let mut seen = 0;
    loop {
        match src.producer_step(&mut h) {
            ProducerStep::Delivered { id, what: Delivery::Handed } => {
                assert_eq!(id, sid);
                // The subscriber takes the first frame and is busy with it
                // for as long as the stream lasts.
                if let PumpStep::Invoke(Invocation::Rust { frame, .. }) = src.pump_step(&mut h, sid) {
                    frame.release(&mut h);
                    seen += 1;
                }
            }
            ProducerStep::Sleep(ms) => slept += ms,
            ProducerStep::Done => break,
            ProducerStep::Produced { .. } | ProducerStep::Retired { .. } => {}
            step => panic!("producer was held up by a slow subscriber: {step:?}"),
        }
    }
    assert!(slept < 100, "the producer's time is its own pauses");
    assert!(src.stream_join());
    assert!(seen + src.dropped(sid) <= 8, "seen + dropped exceeds produced");
    assert_eq!((seen, src.dropped(sid)), (1, 6));

    assert_eq!(src.unsubscribe(&mut h, sid), Teardown::JoinPump(sid));
    assert!(src.finish_invoke(&mut h, sid));
    assert!(matches!(src.pump_step(&mut h, sid), PumpStep::Skipped));
    assert!(matches!(src.pump_step(&mut h, sid), PumpStep::Exit));
    assert_eq!(src.unsubscribe(&mut h, sid), Teardown::Done);
    assert!(seen + src.dropped(sid) <= 8, "seen + dropped exceeds produced");
}

#[test]
fn blocking_delivery_is_lossless() {
    let mut h = heap();
    let mut seen = 0u32;
    let mut src = A::new(&mut h, 71);
    let sid = src.subscribe_with(1, A_DELIVERY_BLOCKING);
    assert!(src.stream(4, 1));
    run_stream(&mut src, &mut h, |_, frame, h| {
        seen += 1;
        frame.release(h);
    });
    assert!(src.stream_join());
    assert_eq!(seen, 4, "every frame delivered");
    assert_eq!(src.dropped(sid), 0, "blocking delivery drops nothing");
    assert_eq!(src.unsubscribe(&mut h, sid), Teardown::Done);
}

#[test]
fn capture_cancellation_still_invokes_exactly_once() {
    let mut h = heap();
    let mut calls = 0u32;
    let mut none = 0u32;
    let mut src = A::new(&mut h, 72);
    let id = src.capture_cb_cancellable(5);
    src.cancel_capture(id).unwrap();
    while src.capture_in_flight(id) {
        match src.fire_capture(&mut h, id) {
            CaptureStep::Complete { cb, frame } => {
                assert_eq!(cb, 5);
                calls += 1;
                if frame.is_none() {
                    none += 1;
                }
            }
            CaptureStep::Nothing => panic!("the capture is in flight"),
        }
        assert!(matches!(src.fire_capture(&mut h, id), CaptureStep::Nothing));
        assert!(src.finish_capture(id));
    }

    assert_eq!(calls, 1, "invoked exactly once");
    assert!(none <= 1, "at most one outcome can be reported");
    assert_eq!(none, 1, "cancel issued immediately wins the 2ms race natively");
    assert_eq!(
        src.cancel_capture(id),
        Err(AStatus::InvalidArgument),
        "cancelling a finished capture is a benign race"
    );
}

#[test]
fn frames_as_an_async_iterator() {
    let mut h = heap();
    let mut src = A::new(&mut h, 73);
    let mut stream = src.frames(1, 4);
    assert!(src.stream(3, 1));
    run_stream(&mut src, &mut h, |_, frame, h| {
        stream.push(h, frame);
    });
    assert!(src.stream_join());
    assert_eq!(stream.pending(), 3);
    let first = stream.next(9).expect("a frame");
    assert_eq!(first.data(&h)[0], 0, "frames arrive in order");
    assert_eq!(stream.next(9).unwrap().data(&h)[0], 1);
    assert_eq!(stream.next(9).unwrap().data(&h)[0], 2);
    assert_eq!(stream.dropped(), 0, "capacity 4 held all 3 frames");
    assert_eq!(src.unsubscribe(&mut h, stream.id()), Teardown::Done);
}

#[test]
fn async_iterator_queue_is_bounded() {
    let mut h = heap();
    let mut src = A::new(&mut h, 74);
    let mut stream = src.frames(1, 2);
    assert!(src.stream(5, 1));
    run_stream(&mut src, &mut h, |_, frame, h| {
        stream.push(h, frame);
    });
    assert!(src.stream_join());
    assert_eq!(stream.pending(), 2, "queue never exceeds its capacity");
    assert_eq!(stream.dropped(), 3, "the three oldest frames were dropped");
    assert_eq!(stream.next(9).unwrap().data(&h)[0], 3);
    assert_eq!(stream.next(9).unwrap().data(&h)[0], 4);
    assert_eq!(src.unsubscribe(&mut h, stream.id()), Teardown::Done);
}

#[test]
fn platform_storage_descriptors() {
    for (platform, kind) in [
        (Platform::Macos, A_STORAGE_IOSURFACE),
        (Platform::Linux, A_STORAGE_DMABUF),
    ] {
        let mut h = Heap::new(platform);
        h.supply.grant(Grant { fd: 30, id: 31, len: 4096 });
        let mut d = A::new(&mut h, 60);
        d.set_storage(&mut h, kind).unwrap();
        d.fill(&mut h, 5);
        let fr = d.frame(&mut h);
        let desc = fr.export(&h, 32);
        assert_eq!(desc.kind, kind, "descriptor kind");
        assert_eq!(desc.len, 4096);
        assert_eq!(fr.data(&h)[0], 5, "storage-backed frame readable");
        if kind == A_STORAGE_DMABUF {
            assert!(desc.fd >= 0, "dma-buf fd exported");
        } else {
            assert_ne!(desc.id, 0, "IOSurface ID exported");
        }
    }
}

#[test]
fn capsule_shape_expired_borrow_no_interleaving() {
    let mut lib = Liba::new(Platform::Other);
    let mut x = dynamic::A::new(&mut lib, 1);
    let before = x.counter(&lib);

    let raw = { x.as_raw_mut() };
    dynamic::A::with_raw(raw, |mut a| a.increment(&mut lib));

    assert_eq!(x.counter(&lib), before + 1);
}

#[test]
fn capsule_shape_interleaved_access_invalidates_handle() {
    let mut lib = Liba::new(Platform::Other);
    let mut x = dynamic::A::new(&mut lib, 1);

    let raw = x.as_raw_mut();
    x.increment(&mut lib);
    dynamic::A::with_raw(raw, |mut a| a.increment(&mut lib));

    assert_eq!(x.counter(&lib), 2);
}

#[test]
fn capsule_shape_guard_held_across_callback() {
    let mut lib = Liba::new(Platform::Other);
    let mut x = dynamic::A::new(&mut lib, 1);
    let before = x.counter(&lib);

    let out = {
        let guard: &mut dynamic::A = &mut x;
        let raw = guard.as_raw_mut();
        dynamic::A::with_raw(raw, |mut a| {
            a.increment(&mut lib);
            a.counter(&lib)
        })
    };

    assert_eq!(out, before + 1);
    assert_eq!(x.counter(&lib), before + 1);
}

#[test]
fn capsule_borrow_is_exclusive_while_held() {
    let mut lib = Liba::new(Platform::Other);
    let p = lib.a_create(1);
    let mut obj = PyObj { is_source: true, handle: p, borrowed: false };
    assert_eq!(obj.unwrap_a(), p);
    match obj.begin_with_a() {
        Scope::Call(raw) => {
            assert_eq!(obj.begin_with_a(), Scope::Refused(-3), "held: no second borrow");
            assert_eq!(obj.unwrap_a().addr, 0, "held: no handle");
            lib.a_increment(raw);
        }
        Scope::Refused(_) => panic!("nobody holds it"),
    }
    assert_eq!(obj.end_with_a(Some(0)), 0);
    assert!(!obj.borrowed);
    assert_eq!(lib.a_counter(p), 1);
}

#[test]
fn destroy_waits_for_a_capture_in_flight() {
    let mut h = heap();
    let mut src = A::new(&mut h, 1);
    let job = src.capture_cb(7);
    assert_eq!(src.destroy_step(&mut h), Teardown::JoinJob(job.id), "not fired yet");
    let f = captured(&mut src, &mut h, job.id);
    assert_eq!(src.destroy_step(&mut h), Teardown::JoinJob(job.id), "in its callback");
    f.release(&mut h);
    assert!(src.finish_job(job.id));
    assert_eq!(src.destroy_step(&mut h), Teardown::Done);
    assert!(matches!(src.fire_job(&mut h, job.id), CaptureStep::Nothing));
    src.release(&mut h);
    assert!(h.slots.iter().all(|s| s.count == 0), "nothing is left behind");
}

#[test]
fn captures_of_either_sort_hold_up_the_teardown() {
    let mut h = heap();
    let mut src = A::new(&mut h, 1);
    let job = src.capture_cb(7);
    let id = src.capture_cb_cancellable(8);
    assert_eq!((job.id, id), (1, 1), "numbered apart");
    assert_eq!(src.destroy_step(&mut h), Teardown::JoinCapture(id));
    assert!(matches!(
        src.fire_capture(&mut h, id),
        CaptureStep::Complete { cb: 8, frame: None }
    ));
    assert!(src.finish_capture(id));
    assert_eq!(src.destroy_step(&mut h), Teardown::JoinJob(job.id));
    captured(&mut src, &mut h, job.id).release(&mut h);
    assert!(src.finish_job(job.id));
    assert_eq!(src.destroy_step(&mut h), Teardown::Done);
}

#[test]
fn identifiers_count_up_and_are_not_used_again() {
    let mut h = heap();
    let mut src = A::new(&mut h, 1);
    assert_eq!(src.subscribe(10), 1);
    assert_eq!(src.capture_cb_cancellable(11), 2);
    assert_eq!(src.unsubscribe(&mut h, 1), Teardown::Done);
    assert!(matches!(src.fire_capture(&mut h, 2), CaptureStep::Complete { .. }));
    assert!(src.finish_capture(2));
    let _ = src.capture_cb(12);
    assert_eq!(src.subscribe_with(13, A_DELIVERY_LATEST), 3);
    assert_eq!(src.capture_cb_cancellable(14), 4);
}

#[test]
fn subscriber_in_mid_stream_gets_every_later_frame() {
    let mut h = heap();
    let mut src = A::new(&mut h, 1);
    let first = src.subscribe(10);
    assert!(src.stream(5, 0));
    // Frame 0 goes by, frame 1 is in hand when the second one arrives. Its
    // policy is unknown, which means blocking.
    let mut late: Option<u64> = None;
    let mut seen: Vec<(u64, u8)> = Vec::new();
    loop {
        match src.producer_step(&mut h) {
            ProducerStep::Produced { index: 1 } => late = Some(src.subscribe_with(20, 77)),
            ProducerStep::Delivered { id, what: Delivery::Invoke(Invocation::Rust { f, frame }) } => {
                seen.push((f, frame.data(&h)[3]));
                frame.release(&mut h);
                assert!(src.finish_invoke(&mut h, id));
            }
            ProducerStep::Done => break,
            _ => {}
        }
    }
    let all: Vec<u8> = seen.iter().filter(|s| s.0 == 10).map(|s| s.1).collect();
    assert_eq!(all, vec![3, 4, 5, 6, 7], "byte 3 of frame i is i + 3");
    let later: Vec<u8> = seen.iter().filter(|s| s.0 == 20).map(|s| s.1).collect();
    assert_eq!(later, vec![5, 6, 7], "frames 2, 3 and 4");
    assert_eq!(src.dropped(first), 0);
    assert_eq!(src.dropped(late.unwrap()), 0);
}

#[test]
fn stream_keeps_the_storage_kind_of_its_start() {
    let mut h = Heap::new(Platform::Linux);
    h.supply.grant(Grant { fd: 40, id: 0, len: 4096 });
    let mut src = A::new(&mut h, 1);
    src.set_frame_storage(&mut h, A_STORAGE_DMABUF).unwrap();
    src.subscribe(10);
    assert!(src.stream(2, 0));
    src.set_frame_storage(&mut h, A_STORAGE_HEAP).unwrap();
    h.supply.grant(Grant { fd: 41, id: 0, len: 4096 });
    let mut kinds: Vec<u32> = Vec::new();
    run_stream(&mut src, &mut h, |_, frame, h| {
        kinds.push(frame.export(h, 0).kind);
        frame.release(h);
    });
    // One buffer was to be had: the second frame falls back.
    assert_eq!(kinds, vec![A_STORAGE_DMABUF, A_STORAGE_HEAP]);
}

#[test]
fn handle_client_captures_and_streams() {
    let mut lib = Liba::new(Platform::Other);
    let mut reg = Registry::new();
    let mut x = dynamic::A::new(&mut lib, 1);
    let (job, mut shot) = x.capture(&mut lib, 6);
    assert_eq!((job.id, job.cb), (1, 6));
    match lib.fire_job(x.as_raw(), job.id) {
        CaptureStep::Complete { cb: 6, frame: Some(f) } => {
            let f = dynamic::Frame { buf: ABuf { addr: f.buf } };
            assert_eq!(shot.complete(f), None);
        }
        x => panic!("{x:?}"),
    }
    assert_eq!(shot.poll(1).expect("captured").data(&lib)[0], 0xCA);
    assert!(lib.finish_job(x.as_raw(), job.id));

    let stream = x.frames(&mut lib, &mut reg, 9, 2);
    assert_eq!((stream.id, stream.pending()), (1, 0));
    assert_eq!(reg.subs.len(), 1);
    assert_eq!(x.unsubscribe(&mut lib, &mut reg, stream.id), (Teardown::Done, Some(9)));
    assert_eq!(x.destroy(&mut lib, &mut reg), (Teardown::Done, vec![]));
}

#[test]
fn lent_frame_keeps_its_bytes_until_the_call_returns() {
    let mut h = heap();
    let mut src = A::new(&mut h, 1);
    let blocking = src.subscribe_c(1, 2, A_DELIVERY_BLOCKING);
    let mailbox = src.subscribe_c(3, 4, A_DELIVERY_LATEST);
    assert!(src.stream(2, 0));
    assert!(matches!(src.producer_step(&mut h), ProducerStep::Produced { index: 0 }));
    let buf = match src.producer_step(&mut h) {
        ProducerStep::Delivered { what: Delivery::Invoke(Invocation::C { buf, .. }), .. } => buf,
        x => panic!("{x:?}"),
    };
    let before = h.bytes(buf.addr).to_vec();
    src.fill(&mut h, 9);
    assert_eq!(src.unsubscribe(&mut h, blocking), Teardown::AwaitGate(blocking));
    assert_eq!(src.destroy_step(&mut h), Teardown::JoinStream);
    assert!(matches!(src.producer_step(&mut h), ProducerStep::Busy(_)));
    assert_eq!(h.bytes(buf.addr), &before[..]);
    assert!(src.finish_invoke(&mut h, blocking));

    // The pump's frame outlives the producer's hold on it.
    assert!(matches!(
        src.producer_step(&mut h),
        ProducerStep::Delivered { what: Delivery::Handed, .. }
    ));
    let buf = match src.pump_step(&mut h, mailbox) {
        PumpStep::Invoke(Invocation::C { buf, .. }) => buf,
        x => panic!("{x:?}"),
    };
    loop {
        if let ProducerStep::Done = src.producer_step(&mut h) {
            break;
        }
    }
    assert_eq!(src.unsubscribe(&mut h, mailbox), Teardown::JoinPump(mailbox));
    assert_eq!(h.ref_count(buf.addr), 1, "only the pump holds it");
    assert_eq!(h.bytes(buf.addr), &before[..]);
    assert!(src.finish_invoke(&mut h, mailbox));
    assert_eq!(h.ref_count(buf.addr), 0);
}

#[test]
fn mailbox_calls_carry_frames_in_increasing_order() {
    let mut h = heap();
    let mut src = A::new(&mut h, 1);
    let id = src.subscribe_with(10, A_DELIVERY_LATEST);
    assert!(src.stream(6, 0));
    let mut seen: Vec<u8> = Vec::new();
    let mut retired = 0;
    loop {
        match src.producer_step(&mut h) {
            ProducerStep::Retired { .. } => {
                retired += 1;
                // The pump comes for every second frame only.
                if retired % 2 == 0 {
                    if let PumpStep::Invoke(Invocation::Rust { frame, .. }) =
                        src.pump_step(&mut h, id)
                    {
                        assert_eq!(frame.data(&h)[1], frame.data(&h)[0] + 1);
                        seen.push(frame.data(&h)[0]);
                        frame.release(&mut h);
                        assert!(src.finish_invoke(&mut h, id));
                    }
                }
            }
            ProducerStep::Done => break,
            _ => {}
        }
    }
    assert_eq!(seen, vec![1, 3, 5]);
    assert_eq!(src.dropped(id), 3);
}

#[test]
fn add_sub_gives_the_next_number() {
    let mut h = heap();
    let mut src = A::new(&mut h, 1);
    assert_eq!(src.add_sub(SubCb::Rust(5), A_DELIVERY_BLOCKING), 1);
    assert_eq!(src.add_sub(SubCb::C { cb: 6, user: 7 }, A_DELIVERY_LATEST), 2);
    assert_eq!(src.subs.len(), 2);
    assert_eq!(src.unsubscribe(&mut h, 1), Teardown::Done);
    assert_eq!(src.add_sub(SubCb::Rust(8), 99), 3);
    assert_eq!(src.subs.iter().map(|s| s.id).collect::<Vec<u64>>(), vec![2, 3]);
}
