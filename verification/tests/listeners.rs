use flui_core::{ListenerId, ListenerIdSource, LocalListeners, LocalStatusListeners, AnimationStatus};
use std::cell::{Cell, RefCell};
use std::rc::Rc;

type Callback = Rc<dyn Fn()>;

/// Runs one dispatch the way the listener protocol prescribes.
fn notify(listeners: &RefCell<LocalListeners<Callback>>) {
    let snapshot = listeners.borrow().dispatch_order();
    for id in snapshot {
        let cb = listeners.borrow().get(id).cloned();
        if let Some(cb) = cb {
            cb();
        }
    }
}

#[test]
fn listener_ids_are_unique_and_non_zero() {
    let mut ids = ListenerIdSource::new();
    let id1 = ids.next();
    let id2 = ids.next();
    assert_ne!(id1, id2);
    assert_ne!(id1.get(), 0);
    assert_ne!(id2.get(), 0);
}

#[test]
fn empty_listeners_default_state() {
    let listeners: LocalListeners<Callback> = LocalListeners::new();
    assert!(listeners.is_empty());
    assert_eq!(listeners.len(), 0);
}

#[test]
fn add_and_remove_round_trip() {
    let mut ids = ListenerIdSource::new();
    let listeners: RefCell<LocalListeners<Callback>> = RefCell::new(LocalListeners::new());
    let counter = Rc::new(Cell::new(0));
    let counter_in = Rc::clone(&counter);

    let id = listeners.borrow_mut().add(&mut ids, Rc::new(move || counter_in.set(counter_in.get() + 1)));
    assert_eq!(listeners.borrow().len(), 1);

    notify(&listeners);
    assert_eq!(counter.get(), 1);

    listeners.borrow_mut().remove(id);
    assert!(listeners.borrow().is_empty());

    notify(&listeners);
    assert_eq!(counter.get(), 1, "removed listener must not fire");
}

#[test]
fn remove_unknown_id_is_no_op() {
    let mut ids = ListenerIdSource::new();
    let mut listeners: LocalListeners<Callback> = LocalListeners::new();
    let id = listeners.add(&mut ids, Rc::new(|| {}));
    listeners.remove(id);
    listeners.remove(id);
    assert!(listeners.is_empty());
}

#[test]
fn reentrant_add_during_notify_fires_only_on_next_dispatch() {
    let ids = Rc::new(RefCell::new(ListenerIdSource::new()));
    let listeners: Rc<RefCell<LocalListeners<Callback>>> = Rc::new(RefCell::new(LocalListeners::new()));
    let outer_count = Rc::new(Cell::new(0));
    let inner_count = Rc::new(Cell::new(0));

    let listeners_in = Rc::clone(&listeners);
    let ids_in = Rc::clone(&ids);
    let inner_count_for_outer = Rc::clone(&inner_count);
    let outer_count_in = Rc::clone(&outer_count);
    let outer: Callback = Rc::new(move || {
        outer_count_in.set(outer_count_in.get() + 1);
        let inner_count_inner = Rc::clone(&inner_count_for_outer);
        listeners_in.borrow_mut().add(
            &mut ids_in.borrow_mut(),
            Rc::new(move || inner_count_inner.set(inner_count_inner.get() + 1)),
        );
    });
    listeners.borrow_mut().add(&mut ids.borrow_mut(), outer);

    notify(&listeners);
    assert_eq!(outer_count.get(), 1);
    assert_eq!(inner_count.get(), 0, "newcomer must not fire mid-dispatch");

    notify(&listeners);
    assert_eq!(outer_count.get(), 2);
    assert_eq!(inner_count.get(), 1);
}

#[test]
fn reentrant_remove_during_notify_skips_target() {
    let ids = RefCell::new(ListenerIdSource::new());
    let listeners: Rc<RefCell<LocalListeners<Callback>>> = Rc::new(RefCell::new(LocalListeners::new()));
    let a_count = Rc::new(Cell::new(0));
    let b_count = Rc::new(Cell::new(0));

    let id_b: Rc<Cell<Option<ListenerId>>> = Rc::new(Cell::new(None));
    let listeners_in = Rc::clone(&listeners);
    let a_count_in = Rc::clone(&a_count);
    let id_b_for_a = Rc::clone(&id_b);
    listeners.borrow_mut().add(
        &mut ids.borrow_mut(),
        Rc::new(move || {
            a_count_in.set(a_count_in.get() + 1);
            if let Some(id) = id_b_for_a.get() {
                listeners_in.borrow_mut().remove(id);
            }
        }),
    );

    let b_count_in = Rc::clone(&b_count);
    let id = listeners
        .borrow_mut()
        .add(&mut ids.borrow_mut(), Rc::new(move || b_count_in.set(b_count_in.get() + 1)));
    id_b.set(Some(id));

    notify(&listeners);
    assert_eq!(a_count.get(), 1);
    assert_eq!(b_count.get(), 0, "B must be skipped after A removes it");
}

#[test]
fn status_listeners_round_trip() {
    let mut ids = ListenerIdSource::new();
    let listeners: RefCell<LocalStatusListeners<Rc<dyn Fn(AnimationStatus)>>> =
        RefCell::new(LocalStatusListeners::new());
    let captured: Rc<Cell<Option<AnimationStatus>>> = Rc::new(Cell::new(None));
    let captured_in = Rc::clone(&captured);
    let id = listeners
        .borrow_mut()
        .add(&mut ids, Rc::new(move |status| captured_in.set(Some(status))));

    let notify_status = |status: AnimationStatus| {
        let snapshot = listeners.borrow().dispatch_order();
        for id in snapshot {
            let cb = listeners.borrow().get(id).cloned();
            if let Some(cb) = cb {
                cb(status);
            }
        }
    };

    notify_status(AnimationStatus::Forward);
    assert_eq!(captured.get(), Some(AnimationStatus::Forward));

    notify_status(AnimationStatus::Completed);
    assert_eq!(captured.get(), Some(AnimationStatus::Completed));

    listeners.borrow_mut().remove(id);
    notify_status(AnimationStatus::Reverse);
    assert_eq!(
        captured.get(),
        Some(AnimationStatus::Completed),
        "removed status listener must not fire"
    );
}

#[test]
fn dispatch_order_is_registration_order() {
    let mut ids = ListenerIdSource::new();
    let mut listeners: LocalListeners<u8> = LocalListeners::new();
    let a = listeners.add(&mut ids, 1);
    let b = listeners.add(&mut ids, 2);
    let c = listeners.add(&mut ids, 3);
    assert_eq!(listeners.dispatch_order(), vec![a, b, c]);
    listeners.remove(b);
    assert_eq!(listeners.dispatch_order(), vec![a, c]);
    assert_eq!(listeners.get(c), Some(&3));
    assert_eq!(listeners.get(b), None);
    assert!(listeners.contains(a));
    assert!(!listeners.contains(b));
}
