//! Subscriptions, mailboxes, captures, streams and teardown.

use dual_abi::abi::{AStatus, A_DELIVERY_LATEST, A_STORAGE_HEAP};
use dual_abi::capture::CaptureStep;
use dual_abi::frame::Frame;
use dual_abi::heap::Heap;
use dual_abi::oneshot::OneShot;
use dual_abi::py::{reports, resolve, Callbacks, Next, PyA, StreamDelivery, StreamState};
use dual_abi::registry::Registry;
use dual_abi::source::{ProducerStep, A};
use dual_abi::storage::Platform;
use dual_abi::sub::{Delivery, Invocation, PumpStep, Teardown};

fn new() -> (Heap, A) {
    let mut h = Heap::new(Platform::Other);
    let a = A::new(&mut h, 1);
    (h, a)
}

/// Steps the producer thread until it has made frame `index`.
fn produce(src: &mut A, h: &mut Heap, index: u32) {
    match src.producer_step(h) {
        ProducerStep::Produced { index: i } => assert_eq!(i, index),
        s => panic!("{s:?}"),
    }
}

/// Finishes the frame in hand.
fn retire(src: &mut A, h: &mut Heap, period: u32) {
    match src.producer_step(h) {
        ProducerStep::Sleep(ms) => assert_eq!(ms, period),
        s => panic!("{s:?}"),
    }
    assert!(matches!(src.producer_step(h), ProducerStep::Retired { .. }));
}

fn frame_of(inv: Invocation) -> dual_abi::frame::Frame {
    match inv {
        Invocation::Rust { frame, .. } => frame,
        Invocation::C { .. } => panic!("a closure was subscribed"),
    }
}

#[test]
fn latest_subscriber_misses_frames_while_busy() {
    let (mut h, mut src) = new();
    let sid = src.subscribe_with(1, A_DELIVERY_LATEST);
    assert!(matches!(src.pump_step(&mut h, sid), PumpStep::Wait));
    assert!(src.stream(8, 1));
    let mut busy = false;
    for i in 0..8 {
        produce(&mut src, &mut h, i);
        match src.producer_step(&mut h) {
            ProducerStep::Delivered { id, what: Delivery::Handed } => assert_eq!(id, sid),
            s => panic!("the producer never waits: {s:?}"),
        }
        if !busy {
            // The pump comes for the first frame and stays in its callback.
            match src.pump_step(&mut h, sid) {
                PumpStep::Invoke(inv) => frame_of(inv).release(&mut h),
                s => panic!("{s:?}"),
            }
            busy = true;
        }
        assert!(matches!(src.pump_step(&mut h, sid), PumpStep::Busy));
        retire(&mut src, &mut h, 1);
    }
    assert!(matches!(src.producer_step(&mut h), ProducerStep::Done));
    assert_eq!(src.dropped(sid), 6, "one delivered, six replaced, one waiting");
    assert!(src.finish_invoke(&mut h, sid));
    match src.pump_step(&mut h, sid) {
        PumpStep::Invoke(inv) => {
            let f = frame_of(inv);
            assert_eq!(f.data(&h)[0], 7, "what waits is the newest");
            f.release(&mut h);
        }
        s => panic!("{s:?}"),
    }
    assert!(src.finish_invoke(&mut h, sid));
    assert!(matches!(src.pump_step(&mut h, sid), PumpStep::Wait));
}

#[test]
fn unsubscribe_waits_for_pump_and_gate() {
    let (mut h, mut src) = new();
    let sid = src.subscribe_with(1, A_DELIVERY_LATEST);
    assert!(src.stream(1, 0));
    produce(&mut src, &mut h, 0);
    src.producer_step(&mut h);
    match src.pump_step(&mut h, sid) {
        PumpStep::Invoke(inv) => frame_of(inv).release(&mut h),
        s => panic!("{s:?}"),
    }
    assert_eq!(src.unsubscribe(&mut h, sid), Teardown::JoinPump(sid));
    assert_eq!(src.dropped(sid), 0, "no longer listed");
    assert!(src.finish_invoke(&mut h, sid));
    assert_eq!(src.unsubscribe(&mut h, sid), Teardown::JoinPump(sid));
    assert!(matches!(src.pump_step(&mut h, sid), PumpStep::Exit));
    assert_eq!(src.unsubscribe(&mut h, sid), Teardown::Done);
    assert_eq!(src.unsubscribe(&mut h, sid), Teardown::Done);
    assert!(matches!(src.pump_step(&mut h, sid), PumpStep::Exit));
}

#[test]
fn closed_pump_skips_what_is_left() {
    let (mut h, mut src) = new();
    let sid = src.subscribe_with(1, A_DELIVERY_LATEST);
    assert!(src.stream(1, 0));
    produce(&mut src, &mut h, 0);
    src.producer_step(&mut h);
    assert_eq!(src.unsubscribe(&mut h, sid), Teardown::JoinPump(sid));
    assert!(matches!(src.pump_step(&mut h, sid), PumpStep::Skipped));
    assert!(matches!(src.pump_step(&mut h, sid), PumpStep::Exit));
    assert_eq!(src.unsubscribe(&mut h, sid), Teardown::Done);
    retire(&mut src, &mut h, 0);
    assert_eq!(h.slots.iter().filter(|s| s.count > 0).count(), 1, "only the payload is left");
}

#[test]
fn blocking_subscriber_is_waited_for() {
    let (mut h, mut src) = new();
    let sid = src.subscribe_c(10, 20, 0);
    assert!(src.stream(1, 3));
    assert!(!src.stream(1, 3), "the first stream has a frame to send");
    assert!(!src.stream_join());
    produce(&mut src, &mut h, 0);
    match src.producer_step(&mut h) {
        ProducerStep::Delivered { what: Delivery::Invoke(Invocation::C { cb, user, buf }), .. } => {
            assert_eq!((cb, user), (10, 20));
            assert_eq!(h.ref_count(buf.addr), 1, "the frame is only lent");
        }
        s => panic!("{s:?}"),
    }
    assert!(matches!(src.producer_step(&mut h), ProducerStep::Busy(id) if id == sid));
    assert_eq!(src.unsubscribe(&mut h, sid), Teardown::AwaitGate(sid));
    assert!(src.finish_invoke(&mut h, sid));
    assert!(!src.finish_invoke(&mut h, sid), "nothing is in flight");
    assert_eq!(src.unsubscribe(&mut h, sid), Teardown::Done);
    retire(&mut src, &mut h, 3);
    assert!(matches!(src.producer_step(&mut h), ProducerStep::Done));
    assert!(src.stream_join());
    assert!(matches!(src.producer_step(&mut h), ProducerStep::Idle));
}

#[test]
fn subscriber_that_leaves_during_a_frame_is_skipped() {
    let (mut h, mut src) = new();
    let first = src.subscribe(1);
    let second = src.subscribe(2);
    assert!(src.stream(1, 0));
    produce(&mut src, &mut h, 0);
    assert_eq!(src.unsubscribe(&mut h, second), Teardown::Done);
    match src.producer_step(&mut h) {
        ProducerStep::Delivered { id, what: Delivery::Invoke(inv) } => {
            assert_eq!(id, first);
            frame_of(inv).release(&mut h);
        }
        s => panic!("{s:?}"),
    }
    src.finish_invoke(&mut h, first);
    match src.producer_step(&mut h) {
        ProducerStep::Delivered { id, what: Delivery::Skipped } => assert_eq!(id, second),
        s => panic!("{s:?}"),
    }
}

#[test]
fn subscriber_that_comes_during_a_frame_gets_the_next() {
    let (mut h, mut src) = new();
    assert!(src.stream(2, 0));
    produce(&mut src, &mut h, 0);
    let late = src.subscribe(1);
    retire(&mut src, &mut h, 0);
    produce(&mut src, &mut h, 1);
    match src.producer_step(&mut h) {
        ProducerStep::Delivered { id, what: Delivery::Invoke(inv) } => {
            assert_eq!(id, late);
            let f = frame_of(inv);
            assert_eq!(f.data(&h)[0], 1);
            f.release(&mut h);
        }
        s => panic!("{s:?}"),
    }
}

#[test]
fn frame_bytes_wrap_with_the_index() {
    let (mut h, mut src) = new();
    assert!(src.stream(258, 0));
    for i in 0..258u32 {
        produce(&mut src, &mut h, i);
        retire(&mut src, &mut h, 0);
    }
    let sid = src.subscribe(1);
    assert!(src.stream_join());
    assert!(src.stream(0, 0));
    assert!(matches!(src.producer_step(&mut h), ProducerStep::Done));
    assert_eq!(sid, 1);
}

#[test]
fn identifiers_are_shared_and_never_reused() {
    let (mut h, mut src) = new();
    let a = src.subscribe(1);
    let b = src.capture_cb_cancellable(2);
    let c = src.subscribe_with(3, 99);
    assert_eq!((a, b, c), (1, 2, 3));
    assert_eq!(src.unsubscribe(&mut h, c), Teardown::Done, "an unknown policy has no pump");
    assert_eq!(src.subscribe(4), 4);
    assert_eq!(src.unsubscribe(&mut h, 77), Teardown::Done);
}

#[test]
fn capture_completes_and_cancelling_then_is_too_late() {
    let (mut h, mut src) = new();
    let id = src.capture_cb_cancellable(6);
    assert!(!src.finish_capture(id), "its callback has not been called");
    let frame = match src.fire_capture(&mut h, id) {
        CaptureStep::Complete { cb: 6, frame } => frame.expect("not cancelled"),
        s => panic!("{s:?}"),
    };
    assert_eq!(frame.data(&h)[0], 0xCA);
    assert_eq!(src.cancel_capture(id), Ok(()), "still in flight");
    assert_eq!(src.cancel_capture(id), Err(AStatus::InvalidArgument), "cancelled already");
    assert!(src.finish_capture(id));
    assert!(!src.capture_in_flight(id));
    assert!(matches!(src.fire_capture(&mut h, id), CaptureStep::Nothing));
}

#[test]
fn destroy_cancels_captures_one_by_one() {
    let (mut h, mut src) = new();
    let a = src.capture_cb_cancellable(1);
    let b = src.capture_cb_cancellable(2);
    for id in [a, b] {
        assert_eq!(src.destroy_step(&mut h), Teardown::JoinCapture(id));
        match src.fire_capture(&mut h, id) {
            CaptureStep::Complete { frame, .. } => assert!(frame.is_none()),
            s => panic!("{s:?}"),
        }
        assert!(src.finish_capture(id));
    }
    assert_eq!(src.destroy_step(&mut h), Teardown::Done);
    src.release(&mut h);
}

#[test]
fn destroy_tears_down_subscriptions_in_order() {
    let (mut h, mut src) = new();
    let a = src.subscribe(1);
    let b = src.subscribe_with(2, A_DELIVERY_LATEST);
    assert!(src.stream(1, 0));
    produce(&mut src, &mut h, 0);
    match src.producer_step(&mut h) {
        ProducerStep::Delivered { id, what: Delivery::Invoke(inv) } => {
            assert_eq!(id, a);
            frame_of(inv).release(&mut h);
        }
        s => panic!("{s:?}"),
    }
    assert_eq!(src.destroy_step(&mut h), Teardown::JoinStream);
    src.finish_invoke(&mut h, a);
    assert!(matches!(
        src.producer_step(&mut h),
        ProducerStep::Delivered { what: Delivery::Handed, .. }
    ));
    retire(&mut src, &mut h, 0);
    assert_eq!(src.destroy_step(&mut h), Teardown::JoinPump(b));
    assert!(matches!(src.pump_step(&mut h, b), PumpStep::Skipped));
    assert!(matches!(src.pump_step(&mut h, b), PumpStep::Exit));
    assert_eq!(src.destroy_step(&mut h), Teardown::Done);
    src.release(&mut h);
    assert!(h.slots.iter().all(|s| s.count == 0));
}

#[test]
fn waiting_consumer_is_woken_by_the_next_frame() {
    let (mut h, mut src) = new();
    let mut stream = src.frames(1, 0);
    assert_eq!(stream.capacity, 1, "a capacity of zero is taken as one");
    assert!(stream.next(42).is_none());
    let f = src.frame(&mut h);
    assert_eq!(stream.push(&mut h, f), Some(42));
    let f = src.frame(&mut h);
    assert_eq!(stream.push(&mut h, f), None, "woken once");
    assert_eq!((stream.pending(), stream.dropped()), (1, 1));
}

#[test]
fn one_shot_arrives_once() {
    let mut shot: OneShot<u64> = OneShot::new();
    assert_eq!(shot.complete(5), None, "nobody waits");
    assert_eq!(shot.poll(1), Some(5));
    assert_eq!(shot.poll(1), None);
    assert_eq!(shot.complete(6), Some(1));
    assert_eq!(shot.poll(2), Some(6));
}

#[test]
fn registry_is_keyed_by_producer_and_identifier() {
    let mut r = Registry::new();
    r.remember(10, 1, 100);
    r.remember(20, 1, 200);
    r.remember(10, 2, 101);
    assert_eq!(r.forget_registry_entry(20, 1), Some(200));
    assert_eq!(r.forget_registry_entry(20, 1), None);
    r.remember(20, 3, 203);
    assert_eq!(r.forget_handle(10), vec![100, 101]);
    assert_eq!(r.subs.len(), 1);
    assert_eq!(r.forget_handle(20), vec![203]);
}

#[test]
fn collector_sees_every_callable_once() {
    let mut c = Callbacks::new();
    c.subscribe(1, 100);
    c.subscribe(2, 200);
    assert_eq!(c.traverse(), vec![100, 200]);
    assert_eq!(c.deliver(2), Some(200));
    assert_eq!(c.deliver(3), None);
    c.unsubscribe(1);
    assert_eq!(c.traverse(), vec![200]);
    c.clear();
    assert_eq!(c.traverse(), Vec::<u64>::new());
    assert_eq!(c.deliver(2), None, "the subscription outlives the callable");
    assert_eq!(c.slots.len(), 1);
}

#[test]
fn callable_goes_after_the_teardown() {
    let mut h = Heap::new(Platform::Other);
    let mut a = PyA::new(&mut h, 5);
    assert_eq!(a.inner.id(), 5);
    let id = a.subscribe(1, 100);
    assert!(a.inner.stream(1, 0));
    produce(&mut a.inner, &mut h, 0);
    match a.inner.producer_step(&mut h) {
        ProducerStep::Delivered { what: Delivery::Invoke(inv), .. } => {
            frame_of(inv).release(&mut h)
        }
        s => panic!("{s:?}"),
    }
    assert_eq!(a.unsubscribe(&mut h, id), Teardown::AwaitGate(id));
    assert_eq!(a.subs.traverse(), vec![100]);
    a.inner.finish_invoke(&mut h, id);
    assert_eq!(a.unsubscribe(&mut h, id), Teardown::Done);
    assert_eq!(a.subs.traverse(), Vec::<u64>::new());
}

#[test]
fn awaitable_stream_hands_over_or_queues() {
    let mut h = Heap::new(Platform::Other);
    let mut a = PyA::new(&mut h, 5);
    let (mut st, id) = a.frames(1, 2);
    assert_eq!(id, 1);
    assert!(matches!(st.next(7, 8), Next::Parked));
    assert!(matches!(st.next(7, 9), Next::AlreadyAwaited));
    let f = a.inner.frame(&mut h);
    match st.deliver(&mut h, f) {
        StreamDelivery::HandOver { event_loop: 7, fut: 8, frame } => frame.release(&mut h),
        s => panic!("{s:?}"),
    }
    for seed in 1..=3 {
        a.inner.fill(&mut h, seed);
        let f = a.inner.frame(&mut h);
        assert!(matches!(st.deliver(&mut h, f), StreamDelivery::Queued));
    }
    assert_eq!((st.pending(), st.dropped()), (2, 1));
    match st.next(7, 10) {
        Next::Ready(f) => assert_eq!(f.data(&h)[0], 2, "the oldest was dropped"),
        s => panic!("{s:?}"),
    }
}

#[test]
fn stream_state_has_room_for_one_at_least() {
    assert_eq!(StreamState::new(0).capacity, 1);
    assert_eq!(StreamState::new(4).capacity, 4);
}

#[test]
fn future_completion_decisions() {
    assert!(resolve(false));
    assert!(!resolve(true), "a cancelled future keeps its state");
    assert!(!reports(None));
    assert!(!reports(Some(true)), "a closed loop discards the result");
    assert!(reports(Some(false)));
}

#[test]
fn awaitable_stream_accounts_for_every_frame() {
    let mut h = Heap::new(Platform::Other);
    let mut s = StreamState::new(2);
    let mut out: Vec<u8> = Vec::new();
    let mut came = 0;
    // A consumer waits for the first frame; four more come, two are taken.
    assert!(matches!(s.next(1, 2), Next::Parked));
    for seed in 1..=5u8 {
        let frame = Frame { buf: h.make_frame(seed, A_STORAGE_HEAP) };
        came += 1;
        match s.deliver(&mut h, frame) {
            StreamDelivery::HandOver { event_loop: 1, fut: 2, frame } => {
                out.push(frame.data(&h)[0]);
                frame.release(&mut h);
            }
            StreamDelivery::Queued => assert!(seed > 1),
            x => panic!("{x:?}"),
        }
        assert!(s.pending() <= 2);
    }
    match s.next(3, 4) {
        Next::Ready(frame) => {
            out.push(frame.data(&h)[0]);
            frame.release(&mut h);
        }
        x => panic!("{x:?}"),
    }
    assert_eq!(out, vec![1, 4], "the oldest that wait go first, the newest stay");
    assert_eq!(came, out.len() as u64 + s.dropped() + s.pending() as u64);
    assert_eq!((s.dropped(), s.pending()), (2, 1));
}
