use node_rs::timers::{OneShotTimeout, RepeatableTimeout};
use node_rs::{clear_timeout, set_timeout};
use std::cell::Cell;
use std::rc::Rc;

#[test]
fn a_one_shot_timer_starts_pending_and_referenced() {
    let timer = OneShotTimeout::new("callback", 1000);
    assert_eq!(timer.delay(), 1000);
    assert!(timer.is_pending());
    assert!(!timer.has_fired());
    assert!(timer.keeps_alive());
}

#[test]
fn a_one_shot_timer_fires_exactly_once() {
    let calls = Rc::new(Cell::new(0));
    let counter = calls.clone();
    let mut timer = OneShotTimeout::new(move || counter.set(counter.get() + 1), 10);
    for _ in 0..5 {
        if let Some(callback) = timer.fire() {
            callback();
        }
    }
    assert_eq!(calls.get(), 1);
    assert!(timer.has_fired());
    assert!(!timer.is_pending());
}

#[test]
fn firing_releases_the_callback_storage() {
    let callback = Rc::new(());
    let mut timer = OneShotTimeout::new(callback.clone(), 10);
    assert_eq!(Rc::strong_count(&callback), 2);
    let handed_out = timer.fire();
    assert!(handed_out.is_some());
    drop(handed_out);
    assert_eq!(Rc::strong_count(&callback), 1);
}

#[test]
fn clear_after_fire_changes_nothing() {
    let mut timer = OneShotTimeout::new(7u8, 10);
    assert_eq!(timer.fire(), Some(7));
    timer.clear();
    assert!(timer.has_fired());
    assert!(!timer.is_pending());
    assert_eq!(timer.fire(), None);
    timer.clear();
    assert!(timer.has_fired());
}

#[test]
fn a_cleared_timer_never_fires() {
    let mut timer = OneShotTimeout::new("callback", 1000);
    timer.clear();
    assert!(!timer.is_pending());
    assert!(!timer.has_fired());
    assert_eq!(timer.fire(), None);
    assert_eq!(timer.fire(), None);
    assert!(!timer.has_fired());
}

#[test]
fn clearing_releases_the_callback_storage_once() {
    let callback = Rc::new(());
    let mut timer = OneShotTimeout::new(callback.clone(), 10);
    timer.clear();
    assert_eq!(Rc::strong_count(&callback), 1);
    timer.clear();
    assert_eq!(Rc::strong_count(&callback), 1);
}

#[test]
fn unreference_lets_the_loop_end() {
    let mut timer = OneShotTimeout::new((), 10);
    timer.unreference();
    assert!(timer.is_pending());
    assert!(!timer.keeps_alive());
    timer.reference();
    assert!(timer.keeps_alive());
    timer.unreference().reference().unreference();
    assert!(!timer.keeps_alive());
}

#[test]
fn a_spent_timer_does_not_keep_the_loop_alive() {
    let mut fired = OneShotTimeout::new((), 10);
    fired.fire();
    assert!(!fired.keeps_alive());
    let mut cleared = OneShotTimeout::new((), 10);
    cleared.reference().clear();
    assert!(!cleared.keeps_alive());
}

#[test]
fn set_timeout_makes_a_pending_timer() {
    let mut timer = set_timeout(3u32, -5);
    assert_eq!(timer.delay(), -5);
    assert!(timer.is_pending());
    assert_eq!(timer.fire(), Some(3));
}

#[test]
fn clear_timeout_cancels_the_timer() {
    let mut timer = set_timeout(3u32, 1000);
    clear_timeout(&mut timer);
    assert!(!timer.is_pending());
    assert_eq!(timer.fire(), None);
}

#[test]
fn a_repeatable_timer_starts_scheduled() {
    let timer = RepeatableTimeout::new("callback", 250);
    assert_eq!(timer.delay(), 250);
    assert!(timer.is_scheduled());
    assert!(!timer.is_disposed());
    assert!(timer.keeps_alive());
}

#[test]
fn a_repeatable_timer_fires_each_time_it_was_armed() {
    let calls = Rc::new(Cell::new(0));
    let counter = calls.clone();
    let mut timer = RepeatableTimeout::new(move || counter.set(counter.get() + 1), 10);
    for round in 1..=4 {
        if let Some(callback) = timer.fire() {
            callback();
        }
        assert_eq!(calls.get(), round);
        assert!(!timer.is_scheduled());
        assert!(timer.fire().is_none());
        timer.refresh();
        assert!(timer.is_scheduled());
    }
}

#[test]
fn a_cleared_repeatable_timer_does_not_fire() {
    let mut timer = RepeatableTimeout::new(1u8, 10);
    timer.clear();
    assert!(!timer.is_scheduled());
    assert!(!timer.is_disposed());
    assert_eq!(timer.fire(), None);
}

#[test]
fn refresh_after_clear_fires_the_stored_callback() {
    let callback = Rc::new(5u8);
    let mut timer = RepeatableTimeout::new(callback.clone(), 10);
    timer.clear().refresh();
    assert!(timer.is_scheduled());
    let due = timer.fire().expect("the timer was armed again");
    assert!(Rc::ptr_eq(due, &callback));
    assert_eq!(Rc::strong_count(&callback), 2);
}

#[test]
fn dispose_releases_the_callback_storage() {
    let callback = Rc::new(());
    let mut timer = RepeatableTimeout::new(callback.clone(), 10);
    assert!(timer.fire().is_some());
    assert_eq!(Rc::strong_count(&callback), 2);
    timer.dispose();
    assert!(timer.is_disposed());
    assert_eq!(Rc::strong_count(&callback), 1);
}

#[test]
fn a_disposed_timer_stays_at_rest() {
    let mut timer = RepeatableTimeout::new(1u8, 10);
    timer.clear();
    timer.dispose();
    timer.refresh();
    assert!(!timer.is_scheduled());
    assert_eq!(timer.fire(), None);
    assert!(!timer.keeps_alive());
}

#[test]
fn a_repeatable_timer_can_be_unreferenced() {
    let mut timer = RepeatableTimeout::new(1u8, 10);
    timer.unreference();
    assert!(timer.is_scheduled());
    assert!(!timer.keeps_alive());
    timer.reference();
    assert!(timer.keeps_alive());
    timer.clear();
    assert!(!timer.keeps_alive());
    timer.unreference().refresh().reference();
    assert!(timer.keeps_alive());
}
