use std::cell::Cell;
use std::rc::Rc;

use flui_core::{AlwaysStoppedAnimation, AnimationStatus, IntTween, ListenerIdSource, StepTween};

#[test]
fn always_stopped_returns_constant_value_and_forward_status() {
    let a = AlwaysStoppedAnimation::new(0.42_f64);
    assert_eq!(a.value(), 0.42);
    assert_eq!(a.status(), AnimationStatus::Forward);
}

#[test]
fn always_stopped_listeners_are_no_op() {
    let a = AlwaysStoppedAnimation::new(0.0_f64);
    let mut ids = ListenerIdSource::new();
    let counter = Rc::new(Cell::new(0u32));
    let counter_in = Rc::clone(&counter);
    let id = a.add_listener(&mut ids, move || {
        counter_in.set(counter_in.get() + 1);
    });
    assert_ne!(id.get(), 0);
    a.remove_listener(id);
    assert_eq!(counter.get(), 0);
}

#[test]
fn always_stopped_ids_come_from_the_source() {
    let a = AlwaysStoppedAnimation::new(1u8);
    let mut ids = ListenerIdSource::new();
    let first = a.add_listener(&mut ids, ());
    let second = a.add_listener(&mut ids, ());
    assert_eq!(first.get(), 1);
    assert_eq!(second.get(), 2);
}

#[test]
fn integer_tweens_keep_their_bounds() {
    let t = IntTween::new(-3, 9);
    assert_eq!((t.begin, t.end), (-3, 9));
    let s = StepTween::new(4, 0);
    assert_eq!((s.begin, s.end), (4, 0));
}
