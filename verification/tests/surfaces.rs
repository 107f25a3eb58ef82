//! The C entry points, the clients behind handles, and the module surfaces.

use dual_abi::abi::{
    ABuf, AHandle, APyCapiV1, AStatus, AVtableV1, A_DELIVERY_LATEST, A_STORAGE_DMABUF,
    A_STORAGE_HEAP,
};
use dual_abi::amod::{map_status, AmError, AmSource, AmFrame};
use dual_abi::bmod;
use dual_abi::bolt::{AbError, AbFrameEvent, AbSource, AbShape};
use dual_abi::capi::{a_last_error_message, a_test_panic, shield, Liba};
use dual_abi::capture::CaptureStep;
use dual_abi::dynamic::{
    once_cancellable_trampoline, once_trampoline, stream_trampoline, A, STREAM_TRAMPOLINE,
};
use dual_abi::heap::Heap;
use dual_abi::probe::{AnHandle, Pool};
use dual_abi::py::{
    fill_view, make_capi, make_capsule_name, releasebuffer, BufferError, PyFrame, PyObj, Scope,
};
use dual_abi::py_b::{
    route, with_a, with_unwrapped, wrapped, Capi, CapiError, Found, Route, WithCtx, WithError,
};
use dual_abi::registry::Registry;
use dual_abi::rt::{Hook, LastError};
use dual_abi::source::ProducerStep;
use dual_abi::storage::{Grant, Platform};
use dual_abi::sub::{Delivery, Invocation, PumpStep, Teardown};
use dual_abi::vtable::Table;

const NULL: AHandle = AHandle { addr: 0 };

#[test]
fn c_handles_live_and_die() {
    let mut lib = Liba::new(Platform::Other);
    assert_eq!(lib.a_destroy(NULL), Teardown::Done, "null is ignored");
    let p = lib.a_create(40);
    let q = lib.a_create(41);
    assert_ne!(p, q);
    assert_eq!((lib.a_id(p), lib.a_id(q)), (40, 41));
    assert_eq!(f64::from_bits(lib.a_scale(p)), 1.5);
    assert_eq!(lib.a_shared(p).struct_size, 64);
    assert_eq!(lib.b_process(p), 42);
    assert_eq!(lib.a_counter(p), 2);
    assert_eq!(lib.a_counter(q), 0);
    assert_eq!(lib.b_process_fast(p), Some((0x3FF8_0000_0000_0000, 42)));
    assert_eq!(Liba::a_impl_size(), Liba::b_observed_impl_size());
    assert_eq!(lib.a_destroy(p), Teardown::Done);
    assert!(!lib.is_live(p) && lib.is_live(q));
    let r = lib.a_create(1);
    assert_ne!(r, p, "a dead handle is not given out again");
}

#[test]
fn c_buffers() {
    let mut lib = Liba::new(Platform::Other);
    let p = lib.a_create(1);
    lib.a_fill(p, 7);
    let view = lib.a_data(p);
    assert_eq!((view.ptr, view.len), (lib.b_data_ptr(p), 4096), "zero-copy");
    let b = lib.a_frame(p);
    assert_eq!(b.addr, view.ptr, "a snapshot is the same place");
    assert_eq!(lib.a_buf_map(b), view);
    assert_eq!((lib.a_buf_map_mut(b).ptr, lib.a_buf_map_mut(b).len), (0, 0), "shared");
    assert_eq!(lib.a_buf_info(b).row_stride, 128);
    assert_eq!(lib.a_buf_export(b, -1).kind, A_STORAGE_HEAP);
    assert_eq!(lib.a_buf_export2(b, -1).width, 30);
    assert_eq!(lib.b_frame_checksum(b), 522240);
    lib.a_buf_retain(b);
    lib.a_buf_release(b);
    let g = lib.b_grab_frame(p);
    assert_eq!(g, b);
    lib.a_buf_release(g);
    assert_eq!(lib.a_destroy(p), Teardown::Done);
    assert_eq!(lib.a_buf_map_mut(b).ptr, b.addr, "unique now");
    lib.a_buf_release(b);
    assert!(lib.heap.slots.iter().all(|s| s.count == 0));
}

#[test]
fn c_copy_probe() {
    let mut lib = Liba::new(Platform::Other);
    let p = lib.a_create(1);
    lib.a_fill(p, 1);
    assert_eq!(lib.a_copy_data(p, None), 0);
    assert_eq!(lib.a_copy_data(p, Some(&mut [])), 0);
    let mut out = [0u8; 3];
    assert_eq!(lib.a_copy_data(p, Some(&mut out)), 3);
    assert_eq!(out, [1, 2, 3]);
}

#[test]
fn c_statuses_and_last_error() {
    let mut lib = Liba::new(Platform::Linux);
    let mut err = LastError::new();
    let p = lib.a_create(1);
    assert_eq!(a_last_error_message(&err), None);
    assert_eq!(lib.a_try_fill(&mut err, p, 3), 0);
    assert_eq!(a_last_error_message(&err), None, "success records nothing");
    assert_eq!(lib.a_try_fill(&mut err, p, 0), -2);
    assert_eq!(a_last_error_message(&err), Some("invalid argument"));
    assert_eq!(lib.a_set_storage(&mut err, p, A_STORAGE_DMABUF), -4);
    assert_eq!(
        a_last_error_message(&err),
        Some("resource kind unavailable in this environment")
    );
    assert_eq!(lib.a_set_storage(&mut err, p, 99), -2);
    assert_eq!(lib.a_set_storage(&mut err, p, A_STORAGE_HEAP), 0);
    assert_eq!(lib.a_data(p).len, 4096);
    assert_eq!(lib.a_set_frame_storage(&mut err, p, 99), -2);
    lib.heap.supply.grant(Grant { fd: 5, id: 0, len: 64 });
    assert_eq!(lib.a_set_frame_storage(&mut err, p, A_STORAGE_DMABUF), 0);
    assert_eq!(lib.a_frame_storage(p), A_STORAGE_DMABUF);
    assert_eq!(lib.a_capture_cancel(&mut err, p, 8), -2);
}

#[test]
fn shield_keeps_the_hooks_message() {
    let mut err = LastError::new();
    let hook = Hook::new();
    assert_eq!(a_test_panic(&mut err, &hook, ("cshim.rs", 280)), -1);
    assert_eq!(
        a_last_error_message(&err),
        Some("panic at cshim.rs:280: deliberate internal panic for shield validation")
    );
    assert_eq!(shield(&mut err, Some(AStatus::Okay)), 0);
    assert_eq!(shield(&mut err, Some(AStatus::Busy)), -3);
    assert_eq!(a_last_error_message(&err), Some("target is exclusively borrowed elsewhere"));
}

#[test]
fn c_stream_and_capture() {
    let mut lib = Liba::new(Platform::Other);
    let p = lib.a_create(1);
    let s = lib.a_subscribe(p, 10, 11);
    assert!(lib.a_stream(p, 1, 2));
    assert!(matches!(lib.producer_step(p), ProducerStep::Produced { index: 0 }));
    match lib.producer_step(p) {
        ProducerStep::Delivered { id, what: Delivery::Invoke(Invocation::C { cb, user, buf }) } => {
            assert_eq!((id, cb, user), (s, 10, 11));
            assert_eq!(lib.b_frame_checksum(buf), 522240);
        }
        x => panic!("{x:?}"),
    }
    assert_eq!(lib.a_destroy(p), Teardown::JoinStream);
    assert!(lib.finish_invoke(p, s));
    assert!(matches!(lib.producer_step(p), ProducerStep::Sleep(2)));
    assert!(matches!(lib.producer_step(p), ProducerStep::Retired { index: 0 }));
    assert!(matches!(lib.producer_step(p), ProducerStep::Done));
    assert!(lib.a_stream_join(p));
    let m = lib.a_subscribe_with(p, 1, 2, A_DELIVERY_LATEST);
    assert_eq!(lib.a_sub_dropped(p, m), 0);
    assert!(matches!(lib.pump_step(p, m), PumpStep::Wait));
    assert_eq!(lib.a_unsubscribe(p, m), Teardown::JoinPump(m));
    assert!(matches!(lib.pump_step(p, m), PumpStep::Exit));
    assert_eq!(lib.a_unsubscribe(p, m), Teardown::Done);

    let job = lib.a_capture(p, 77);
    match lib.fire_job(p, job.id) {
        CaptureStep::Complete { cb: 77, frame: Some(f) } => {
            assert_eq!(lib.heap.bytes(f.buf)[0], 0xCA);
            lib.a_buf_release(ABuf { addr: f.buf });
        }
        x => panic!("{x:?}"),
    }
    assert!(matches!(lib.fire_job(p, job.id), CaptureStep::Nothing));
    assert_eq!(lib.a_destroy(p), Teardown::JoinJob(job.id), "its callback has not returned");
    assert!(lib.finish_job(p, job.id));
    let c = lib.a_capture2(p, 78);
    let mut err = LastError::new();
    assert_eq!(lib.a_capture_cancel(&mut err, p, c), 0);
    match lib.fire_capture(p, c) {
        CaptureStep::Complete { cb: 78, frame } => assert!(frame.is_none()),
        x => panic!("{x:?}"),
    }
    assert!(lib.finish_capture(p, c));
    let job = lib.b_capture_checksum(p, 5);
    assert_eq!(job.cb, 5);
    assert_eq!(lib.a_destroy(p), Teardown::JoinJob(job.id));
    assert!(!lib.finish_job(p, job.id), "it has not fired");
    assert_eq!(lib.b_complete_checksum(p, job.id), Some((5, 522240)));
    assert_eq!(lib.b_complete_checksum(p, job.id), None, "once only");
    assert_eq!(lib.b_complete_checksum(p, 99), None, "no such capture");
    assert!(lib.finish_job(p, job.id));
    assert_eq!(lib.a_destroy(p), Teardown::Done);
}

#[test]
fn client_behind_a_handle_is_the_same_producer() {
    let mut lib = Liba::new(Platform::Other);
    let mut err = LastError::new();
    let mut reg = Registry::new();
    let mut x = A::new(&mut lib, 40);
    assert_eq!(x.id(&lib), 40);
    x.increment(&mut lib);
    assert_eq!(x.counter(&lib), 1);
    assert_eq!(x.shared(&lib).counter, 1);
    assert_eq!(f64::from_bits(x.scale(&lib)), 1.5);
    assert_eq!(A::impl_size(), Liba::a_impl_size());
    x.fill(&mut lib, 2);
    assert_eq!(x.data(&lib)[0], 2);
    assert_eq!(x.try_fill(&mut lib, &mut err, 0), Err(AStatus::InvalidArgument));
    assert_eq!(x.try_fill(&mut lib, &mut err, 5), Ok(()));
    assert_eq!(x.set_storage(&mut lib, &mut err, 99), Err(AStatus::InvalidArgument));
    assert_eq!(x.set_storage(&mut lib, &mut err, A_STORAGE_HEAP), Ok(()));
    assert_eq!(x.set_frame_storage(&mut lib, &mut err, 99), Err(AStatus::InvalidArgument));
    assert_eq!(x.frame_storage(&lib), A_STORAGE_HEAP);
    assert_eq!(x.cancel_capture(&mut lib, &mut err, 9), Err(AStatus::InvalidArgument));
    let mut out = [0u8; 2];
    assert_eq!(x.copy_data(&mut lib, &mut out), 2);
    assert_eq!(out, [5, 6]);

    let mut f = x.frame(&mut lib);
    assert_eq!(f.data(&lib)[0], 5);
    assert_eq!(f.info(&lib).cols, 30);
    assert_eq!(f.export(&lib, 1).fd, -1);
    assert_eq!(f.export2(&lib, 1).height, 32);
    assert!(f.data_mut(&mut lib).is_none());
    let g = f.retain(&mut lib);
    g.release(&mut lib);

    let id = x.subscribe(&mut lib, &mut reg, 900);
    let other = A::new(&mut lib, 1).subscribe_with(&mut lib, &mut reg, 901, 0);
    assert_eq!((id, other), (1, 1), "identifiers are per producer");
    assert_eq!(x.dropped(&lib, id), 0);
    assert_eq!(x.unsubscribe(&mut lib, &mut reg, id), (Teardown::Done, Some(900)));
    assert_eq!(x.unsubscribe(&mut lib, &mut reg, id), (Teardown::Done, None));
    let again = x.subscribe(&mut lib, &mut reg, 902);
    assert_eq!(again, 2);
    assert_eq!(reg.subs.len(), 2);
    assert!(x.stream(&mut lib, 0, 1));
    assert!(x.stream_join(&mut lib));
    let job = x.capture_cb(&mut lib, 3);
    assert_eq!(job.cb, 3);
    assert_eq!(x.destroy(&mut lib, &mut reg).0, Teardown::JoinJob(job.id));
    assert!(matches!(lib.fire_job(x.as_raw(), job.id), CaptureStep::Complete { cb: 3, .. }));
    assert!(lib.finish_job(x.as_raw(), job.id));
    let raw = x.as_raw_mut();
    assert_eq!(raw, x.as_raw());
    assert_eq!(A::with_raw(raw, |y| y.handle.addr), raw.addr);
    assert_eq!(x.destroy(&mut lib, &mut reg), (Teardown::Done, vec![902]));
    assert_eq!(reg.subs[0].cb, 901);
    assert!(f.data_mut(&mut lib).is_some(), "unique: writable");
}

#[test]
fn trampolines_respect_ownership() {
    let mut lib = Liba::new(Platform::Other);
    let p = lib.a_create(1);
    assert_eq!(STREAM_TRAMPOLINE, 1);
    let b = lib.a_frame(p);
    let (user, f) = stream_trampoline(&mut lib.heap, 5, b);
    assert_eq!((user, f.buf), (5, b));
    assert_eq!(lib.heap.ref_count(b.addr), 3, "a lent frame is retained");
    let (user, f) = once_trampoline(6, b);
    assert_eq!((user, f.buf), (6, b));
    assert_eq!(lib.heap.ref_count(b.addr), 3, "ownership moves");
    assert!(once_cancellable_trampoline(7, ABuf { addr: 0 }).1.is_none());
    assert_eq!(once_cancellable_trampoline(7, b).1.expect("a frame").buf, b);
}

#[test]
fn first_table_stays() {
    let mut t = Table::new();
    assert!(!t.is_installed());
    t.init_vtable(AVtableV1 { home: 1 });
    t.init_vtable(AVtableV1 { home: 0 });
    assert_eq!(t.vt().home, 1);
    let mut libs = vec![Liba::new(Platform::Other), Liba::new(Platform::Other)];
    let p = t.library(&mut libs).a_create(6);
    assert_eq!(libs[1].a_id(p), 6);
    assert!(!libs[0].is_live(p));
}

#[test]
fn modules_share_by_number() {
    let mut lib = Liba::new(Platform::Other);
    let mut err = LastError::new();
    let mut s = AmSource::new(&mut lib, 40);
    assert_eq!((s.id(&lib), s.counter(&lib)), (40, 0));
    assert_eq!(bmod::process_source(&mut lib, s.raw_handle()), 42);
    assert_eq!(s.counter(&lib), 2);
    s.fill(&mut lib, 3);
    assert_eq!(bmod::checksum_source(&lib, s.raw_handle()), 522240);
    assert_eq!(s.try_fill(&mut lib, &mut err, 0), Err(AmError::InvalidArgument));
    assert_eq!(s.try_fill(&mut lib, &mut err, 4), Ok(()));
    assert_eq!(s.set_storage(&mut lib, &mut err, 99), Err(AmError::InvalidArgument));
    let f = s.frame(&mut lib);
    assert_eq!((f.first_byte(&lib), f.len(&lib)), (4, 4096));
    let d = f.export_desc(&lib, 3);
    assert_eq!((d.kind, d.fd, d.id, d.len), (0, -1, 0, 4096));
    let raw = f.raw_retained(&mut lib);
    assert_eq!(lib.heap.ref_count(raw), 3);
    assert_eq!(bmod::frame_checksum(&lib, raw), 522240);
    assert_eq!(lib.heap.ref_count(raw), 3, "borrowed");
    assert_eq!(bmod::consume_frame_checksum(&mut lib, raw), 522240);
    assert_eq!(lib.heap.ref_count(raw), 2, "consumed");
    let raw = f.raw_retained(&mut lib);
    assert_eq!(AmFrame::from_raw(raw).first_byte(&lib), 4);
    let (job, mut shot) = s.capture(&mut lib, 8);
    match lib.fire_job(AHandle { addr: s.raw_handle() }, job.id) {
        CaptureStep::Complete { cb: 8, frame: Some(f) } => {
            assert_eq!(shot.complete(AmSource::captured(ABuf { addr: f.buf })), None);
        }
        x => panic!("{x:?}"),
    }
    assert_eq!(shot.poll(1).expect("captured").first_byte(&lib), 0xCA);
    let (job, _) = bmod::capture_checksum(&mut lib, s.raw_handle(), 9);
    assert_eq!(job.cb, 9);
}

#[test]
fn foreign_errors() {
    assert_eq!(map_status(AStatus::InvalidArgument), AmError::InvalidArgument);
    assert_eq!(map_status(AStatus::Panic), AmError::Panic);
    assert_eq!(map_status(AStatus::Unavailable), AmError::Internal);
    assert_eq!(map_status(AStatus::Busy), AmError::Internal);
    let mut h = Heap::new(Platform::Linux);
    let mut s = AbSource::new(&mut h, 1);
    assert_eq!(s.set_storage(&mut h, 99), Err(AbError::InvalidArgument));
    assert_eq!(s.set_storage(&mut h, A_STORAGE_DMABUF), Err(AbError::Internal));
}

#[test]
fn events_reach_their_subscribers() {
    let mut h = Heap::new(Platform::Other);
    let mut s = AbSource::new(&mut h, 40);
    let early = s.events();
    assert!(s.start(1, 3, 0));
    assert!(!s.start(1, 3, 0), "the first stream has frames to send");
    assert_eq!(s.inner.subs.len(), 1, "subscribed once");
    loop {
        match s.inner.producer_step(&mut h) {
            ProducerStep::Delivered { id, what: Delivery::Invoke(Invocation::Rust { frame, .. }) } => {
                s.on_frame(&mut h, frame);
                s.inner.finish_invoke(&mut h, id);
            }
            ProducerStep::Done => break,
            _ => {}
        }
    }
    assert!(s.join());
    for i in 0..3u32 {
        let e = AbFrameEvent::from_raw(early.pop_event().expect("an event"));
        assert_eq!(e, AbFrameEvent { index: i, first_byte: i as u8, checksum: 522240 });
    }
    assert_eq!(early.pop_event(), None);
    assert_eq!(s.events().pop_event(), None, "a later subscriber starts empty");
}

#[test]
fn full_event_ring_drops_the_newest() {
    let mut h = Heap::new(Platform::Other);
    let mut s = AbSource::new(&mut h, 1);
    let sub = s.events();
    for _ in 0..300 {
        let f = s.frame(&mut h).inner;
        s.on_frame(&mut h, f);
    }
    assert_eq!(sub.available_count(), 256);
    assert_eq!(sub.pop_event().map(|e| e.0), Some(0));
}

#[test]
fn mobile_surface() {
    let mut h = Heap::new(Platform::Other);
    let mut s = AbSource::new(&mut h, 40);
    assert_eq!((s.id(), s.counter()), (40, 0));
    assert_eq!(s.process(), 42);
    let (bits, sum) = s.process_fast().expect("new enough");
    assert_eq!(f64::from_bits(bits) * sum as f64, 63.0);
    s.fill(&mut h, 1);
    assert_eq!(s.try_fill(&mut h, 0), Err(AbError::InvalidArgument));
    assert_eq!(s.try_fill(&mut h, 2), Ok(()));
    assert_eq!(s.checksum(&h), 522240);
    let f = s.frame(&mut h);
    assert_eq!(f.checksum(&h), 522240);
    assert_eq!(f.shape(&h), AbShape { rows: 32, cols: 30, channels: 4, row_stride: 128 });
    assert_eq!(f.data(&h)[..3], [2, 3, 4]);
    assert_eq!(f.export_desc(&h, 9).fd, -1);
    assert_eq!(s.capture(3).0.cb, 3);
    let job = s.capture_checksum(4).0;
    assert_eq!(job.cb, 4);
    assert_eq!(s.complete_checksum(&mut h, job.id), Some((4, 522240)));
    assert_eq!(s.complete_checksum(&mut h, job.id), None, "once only");
}

fn py_frame(h: &mut Heap) -> PyFrame {
    let a = dual_abi::source::A::new(h, 1);
    PyFrame { inner: a.frame(h) }
}

#[test]
fn buffer_requests() {
    let mut h = Heap::new(Platform::Other);
    let f = py_frame(&mut h);
    assert_eq!(f.shape(&h), (32, 30, 4));
    assert_eq!(f.strides(&h), (128, 4, 1));
    let strided = pyo3::ffi::PyBUF_STRIDES;
    let v = f.getbuffer(&h, true, strided).expect("strided and read-only");
    assert_eq!((v.len, v.readonly, v.itemsize, v.ndim), (3840, 1, 1, 3));
    assert_eq!((v.shape, v.strides), ((32, 30, 4), (128, 4, 1)));
    assert_eq!(v.buf, f.inner.buf);
    assert!(!v.format);
    let full = pyo3::ffi::PyBUF_FULL_RO;
    assert!(f.getbuffer(&h, true, full).expect("full, read-only").format);
    assert_eq!(f.getbuffer(&h, false, strided), Err(BufferError::NoView));
    for flags in [pyo3::ffi::PyBUF_WRITABLE, pyo3::ffi::PyBUF_FULL, pyo3::ffi::PyBUF_STRIDED] {
        assert_eq!(f.getbuffer(&h, true, flags), Err(BufferError::ReadOnly));
    }
    for flags in [pyo3::ffi::PyBUF_SIMPLE, pyo3::ffi::PyBUF_ND, pyo3::ffi::PyBUF_FORMAT] {
        assert_eq!(f.getbuffer(&h, true, flags), Err(BufferError::NeedsStrides));
    }
    for flags in [
        pyo3::ffi::PyBUF_C_CONTIGUOUS,
        pyo3::ffi::PyBUF_F_CONTIGUOUS,
        pyo3::ffi::PyBUF_ANY_CONTIGUOUS,
    ] {
        assert_eq!(f.getbuffer(&h, true, flags), Err(BufferError::NotContiguous));
    }
    let granted = fill_view(f.getbuffer(&h, true, strided), 70);
    assert_eq!((granted.obj, granted.view, granted.suboffsets), (Some(70), Some(v), None));
    let refused = fill_view(f.getbuffer(&h, true, pyo3::ffi::PyBUF_SIMPLE), 70);
    assert_eq!((refused.obj, refused.view, refused.suboffsets), (None, None, None));
    assert!(releasebuffer(true, true));
    assert!(!releasebuffer(true, false));
    assert!(!releasebuffer(false, false));
    assert_eq!(BufferError::NoView.text(), "Py_buffer is null");
    assert_eq!(BufferError::ReadOnly.text(), "frame buffers are read-only");
    assert_eq!(
        BufferError::NeedsStrides.text(),
        "frame is not contiguous: a strided buffer request is required"
    );
    assert_eq!(BufferError::NotContiguous.text(), "frame has padded rows and is not contiguous");
}

#[test]
fn scoped_borrows() {
    let mut other = PyObj { is_source: false, handle: NULL, borrowed: false };
    assert_eq!(other.begin_with_a(), Scope::Refused(-2));
    assert_eq!(other.unwrap_a(), NULL);
    let h = AHandle { addr: 3 };
    let mut o = PyObj { is_source: true, handle: h, borrowed: false };
    assert_eq!(o.unwrap_a(), h);
    assert_eq!(o.begin_with_a(), Scope::Call(h));
    assert_eq!(o.begin_with_a(), Scope::Refused(-3));
    assert_eq!(o.end_with_a(None), -1, "the callback unwound");
    assert_eq!(o.begin_with_a(), Scope::Call(h));
    assert_eq!(o.end_with_a(Some(-4)), -4);
}

fn found(version: u32) -> Found {
    Found {
        is_capsule: true,
        name: Some(make_capsule_name()),
        capi: APyCapiV1 { abi_version: version, vtable: AVtableV1 { home: 0 } },
    }
}

#[test]
fn capsule_is_checked_and_kept() {
    assert_eq!(make_capsule_name(), "a._C_API");
    assert_eq!(make_capi(AVtableV1 { home: 2 }).abi_version, 5);
    let mut c = Capi::new();
    assert_eq!(c.capi(Found { is_capsule: false, ..found(5) }), Err(CapiError::NotACapsule));
    assert_eq!(c.capi(Found { name: None, ..found(5) }), Err(CapiError::NameMismatch));
    let spoofed = Found { name: Some("a._c_api".to_string()), ..found(5) };
    assert_eq!(c.capi(spoofed), Err(CapiError::NameMismatch));
    assert_eq!(c.capi(found(2)), Err(CapiError::TooOld(2)));
    assert!(c.is_missing() && !c.table.is_installed(), "a failure is not remembered");
    assert_eq!(c.capi(found(9)).expect("newer is fine").abi_version, 9);
    assert!(c.table.is_installed());
    assert_eq!(c.capi(found(2)).expect("kept").abi_version, 9);
    assert_eq!(CapiError::NotACapsule.text(), "a._C_API is not a capsule");
    assert_eq!(CapiError::NameMismatch.text(), "a._C_API capsule name mismatch");
    assert_eq!(CapiError::TooOld(2).text(), "a._C_API version 2 < required 3");
    assert_eq!(CapiError::TooOld(10).text(), "a._C_API version 10 < required 3");
}

fn message<R>(r: Result<R, WithError>) -> (u8, String) {
    match r {
        Ok(_) => (0, String::new()),
        Err(WithError::Type(s)) => (1, s),
        Err(WithError::Runtime(s)) => (2, s),
        Err(WithError::Panicked) => (3, String::new()),
    }
}

#[test]
fn code_on_a_producer_object() {
    assert_eq!(route(&found(4).capi), Route::Unwrap);
    assert_eq!(route(&found(5).capi), Route::Scoped);

    let mut ctx: WithCtx<u64> = WithCtx::new();
    let entered = ctx.enter();
    assert!(entered);
    let code = ctx.leave(entered, Some(42));
    assert_eq!(code, 0);
    let again = ctx.enter();
    assert_eq!(ctx.leave(again, Some(43)), -1, "a second entry is refused");
    assert!(matches!(with_a(ctx, code), Ok(42)));

    let mut ctx: WithCtx<u64> = WithCtx::new();
    let entered = ctx.enter();
    let code = ctx.leave(entered, None);
    assert_eq!(code, -1);
    assert_eq!(message(with_a(ctx, code)).0, 3, "the panic goes on");

    let none = || WithCtx::<u64>::new();
    assert_eq!(
        message(with_a(none(), 0)),
        (2, "a.with_a reported Ok without invoking the callback".to_string())
    );
    assert_eq!(message(with_a(none(), -2)), (1, "expected an a.A object".to_string()));
    assert_eq!(
        message(with_a(none(), -3)),
        (2, "the a.A object is already borrowed (re-entrant or concurrent access)".to_string())
    );
    assert_eq!(
        message(with_a(none(), -1)),
        (2, "a.with_a failed: internal panic caught at the library boundary".to_string())
    );
    assert_eq!(
        message(with_a(none(), -77)),
        (2, "a.with_a failed: unrecognized status code from a newer library".to_string())
    );
    assert_eq!(message(with_unwrapped::<u64>(None)), (1, "expected an a.A object".to_string()));
    assert!(matches!(with_unwrapped(Some(8)), Ok(8)));
    assert_eq!(wrapped(0), Err("a.wrap_frame failed"));
    assert_eq!(wrapped(9), Ok(9));
}

#[test]
fn pool_hands_out_its_places() {
    let mut pool = Pool::new();
    let handles: Vec<AnHandle> = (0..64).map(|i| pool.an_create(100 + i)).collect();
    assert_eq!((handles[0].addr, handles[63].addr), (1, 64));
    assert_eq!(pool.an_create(1).addr, 0, "exhausted");
    assert_eq!(pool.an_id(handles[5]), 105);
    pool.an_increment(handles[5]);
    pool.an_increment(handles[5]);
    assert_eq!((pool.an_counter(handles[5]), pool.an_counter(handles[6])), (2, 0));
    pool.an_destroy(handles[9]);
    pool.an_destroy(handles[3]);
    let again = pool.an_create(7);
    assert_eq!(again.addr, 4, "the first free place");
    assert_eq!((pool.an_id(again), pool.an_counter(again)), (7, 0));
    let bogus = AnHandle { addr: 65 };
    pool.an_destroy(bogus);
    pool.an_increment(bogus);
    assert_eq!((pool.an_id(bogus), pool.an_counter(AnHandle { addr: 0 })), (0, 0));
    pool.slots[0].counter = u64::MAX;
    pool.an_increment(handles[0]);
    assert_eq!(pool.an_counter(handles[0]), 0, "wraps");
}

#[test]
fn references_that_are_the_callers() {
    let mut lib = Liba::new(Platform::Other);
    let p = lib.a_create(1);
    let payload = ABuf { addr: lib.a_data(p).ptr };
    assert!(!lib.is_lent(payload), "only the producer holds it");
    let b = lib.a_frame(p);
    assert_eq!(b, payload);
    assert!(lib.is_lent(b));
    lib.a_buf_release(b);
    assert!(!lib.is_lent(b));
    assert!(!lib.is_lent(ABuf { addr: 99 }));
    // A frame in hand and in a mailbox is held twice by the producer.
    let m = lib.a_subscribe_with(p, 1, 2, A_DELIVERY_LATEST);
    assert!(lib.a_stream(p, 1, 0));
    assert!(matches!(lib.producer_step(p), ProducerStep::Produced { index: 0 }));
    assert!(matches!(
        lib.producer_step(p),
        ProducerStep::Delivered { what: Delivery::Handed, .. }
    ));
    match lib.pump_step(p, m) {
        PumpStep::Invoke(Invocation::C { buf, .. }) => {
            assert_eq!(lib.heap.ref_count(buf.addr), 2);
            assert!(!lib.is_lent(buf), "borrowed for the call");
            lib.a_buf_retain(buf);
            assert!(lib.is_lent(buf), "retained");
        }
        x => panic!("{x:?}"),
    }
}
