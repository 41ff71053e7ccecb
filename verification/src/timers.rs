//! Timers: one-shot and repeatable callbacks that the host calls back after a
//! delay.
//!
//! A timer owns the storage of its callback. The host arms, cancels and fires
//! the timer; this module decides what each of those events does to the
//! storage and whether a callback is due. The embedding program reports that
//! the host's timer has elapsed by calling `fire`, and invokes the callback
//! that `fire` hands out.

use vstd::prelude::*;

verus! {

/// What can happen to a one-shot timer after it was created.
#[derive(Clone, Copy, PartialEq, Eq, Structural, Debug)]
pub enum OneShotEvent {
    /// The delay has passed and the host calls back.
    Elapse,
    /// The timer is cancelled.
    Clear,
    /// The timer is asked to keep the event loop alive.
    Reference,
    /// The timer is asked not to keep the event loop alive.
    Unreference,
}

/// The state of a one-shot timer.
pub struct OneShotView<F> {
    /// The delay in milliseconds that the timer was created with.
    pub delay: int,
    /// The callback that the timer stores, until the storage is released.
    pub callback: Option<F>,
    /// Whether the pending timer keeps the event loop alive.
    pub referenced: bool,
    /// Whether the callback has been handed out for its call.
    pub fired: bool,
}

impl<F> OneShotView<F> {
    /// A timer stores its callback only as long as the callback is still to
    /// be called.
    pub open spec fn wf(self) -> bool {
        self.callback is Some ==> !self.fired
    }

    /// The timer as `new` makes it: pending and referenced.
    pub open spec fn fresh(callback: F, delay: int) -> Self {
        OneShotView { delay, callback: Some(callback), referenced: true, fired: false }
    }

    /// Whether the callback is still to be called.
    pub open spec fn pending(self) -> bool {
        self.callback is Some
    }

    /// Whether the timer alone keeps the event loop alive.
    pub open spec fn keeps_alive(self) -> bool {
        self.pending() && self.referenced
    }

    /// The callback that is due when the host calls back, if any.
    pub open spec fn due(self) -> Option<F> {
        self.callback
    }

    /// The state after the host called back: the callback, if the timer still
    /// stored one, has left the storage for its one call.
    pub open spec fn elapse(self) -> Self {
        if self.pending() {
            OneShotView { callback: None, fired: true, ..self }
        } else {
            self
        }
    }

    /// The state after a cancellation: the storage is released.
    pub open spec fn clear(self) -> Self {
        OneShotView { callback: None, ..self }
    }

    /// The state after `event`.
    pub open spec fn step(self, event: OneShotEvent) -> Self {
        match event {
            OneShotEvent::Elapse => self.elapse(),
            OneShotEvent::Clear => self.clear(),
            OneShotEvent::Reference => OneShotView { referenced: true, ..self },
            OneShotEvent::Unreference => OneShotView { referenced: false, ..self },
        }
    }

    /// Whether `event` makes the callback run.
    pub open spec fn delivers(self, event: OneShotEvent) -> bool {
        event == OneShotEvent::Elapse && self.pending()
    }

    /// The state after all of `events`, in their order.
    pub open spec fn run(self, events: Seq<OneShotEvent>) -> Self
        decreases events.len(),
    {
        if events.len() == 0 {
            self
        } else {
            self.step(events[0]).run(events.drop_first())
        }
    }

    /// Whether `event` releases the callback storage.
    pub open spec fn releases(self, event: OneShotEvent) -> bool {
        (event == OneShotEvent::Elapse || event == OneShotEvent::Clear) && self.pending()
    }

    /// How often the callback storage is released in the course of `events`.
    pub open spec fn released(self, events: Seq<OneShotEvent>) -> nat
        decreases events.len(),
    {
        if events.len() == 0 {
            0
        } else {
            let rest = self.step(events[0]).released(events.drop_first());
            if self.releases(events[0]) {
                rest + 1
            } else {
                rest
            }
        }
    }

    /// How often the callback runs in the course of `events`.
    pub open spec fn deliveries(self, events: Seq<OneShotEvent>) -> nat
        decreases events.len(),
    {
        if events.len() == 0 {
            0
        } else {
            let rest = self.step(events[0]).deliveries(events.drop_first());
            if self.delivers(events[0]) {
                rest + 1
            } else {
                rest
            }
        }
    }
}

/// A timer whose callback is called at most once and whose callback storage
/// is released by the call or by a cancellation, whichever comes first.
pub struct OneShotTimeout<F> {
    delay: i32,
    callback: Option<F>,
    referenced: bool,
    fired: bool,
}

impl<F> View for OneShotTimeout<F> {
    type V = OneShotView<F>;

    closed spec fn view(&self) -> OneShotView<F> {
        OneShotView {
            delay: self.delay as int,
            callback: self.callback,
            referenced: self.referenced,
            fired: self.fired,
        }
    }
}

impl<F> OneShotTimeout<F> {
    /// Creates a timer that is to call `callback` once, after about `delay`
    /// milliseconds. The timer starts out pending and referenced.
    pub fn new(callback: F, delay: i32) -> (timeout: Self)
        ensures
            timeout@ == OneShotView::fresh(callback, delay as int),
            timeout@.wf(),
    {
        OneShotTimeout { delay, callback: Some(callback), referenced: true, fired: false }
    }

    /// Lets the pending timer keep the event loop alive.
    pub fn reference(&mut self) -> (same: &mut Self)
        ensures
            same@ == old(self)@.step(OneShotEvent::Reference),
            *final(self) == *final(same),
    {
        self.referenced = true;
        self
    }

    /// Lets the event loop end although the timer is pending.
    pub fn unreference(&mut self) -> (same: &mut Self)
        ensures
            same@ == old(self)@.step(OneShotEvent::Unreference),
            *final(self) == *final(same),
    {
        self.referenced = false;
        self
    }

    /// Cancels the timer and releases the callback storage. On a timer that
    /// has fired or was cancelled before, nothing changes.
    pub fn clear(&mut self) -> (same: &mut Self)
        ensures
            same@ == old(self)@.clear(),
            old(self)@.wf() ==> same@.wf(),
            !old(self)@.pending() ==> same@ == old(self)@,
            *final(self) == *final(same),
    {
        self.callback = None;
        self
    }

    /// Takes note that the host called back. Hands out the callback for its
    /// one call if the timer was pending, and releases the storage.
    pub fn fire(&mut self) -> (callback: Option<F>)
        ensures
            callback == old(self)@.due(),
            callback is Some == old(self)@.delivers(OneShotEvent::Elapse),
            final(self)@ == old(self)@.elapse(),
            old(self)@.wf() ==> final(self)@.wf(),
    {
        let callback = self.callback.take();
        if callback.is_some() {
            self.fired = true;
        }
        callback
    }

    /// The delay in milliseconds that the timer was created with.
    pub fn delay(&self) -> (delay: i32)
        ensures
            delay == self@.delay,
    {
        self.delay
    }

    /// Whether the callback is still to be called.
    pub fn is_pending(&self) -> (pending: bool)
        ensures
            pending == self@.pending(),
    {
        self.callback.is_some()
    }

    /// Whether the callback has been handed out for its call.
    pub fn has_fired(&self) -> (fired: bool)
        ensures
            fired == self@.fired,
    {
        self.fired
    }

    /// Whether the timer alone keeps the event loop alive.
    pub fn keeps_alive(&self) -> (alive: bool)
        ensures
            alive == self@.keeps_alive(),
    {
        self.callback.is_some() && self.referenced
    }
}

/// Creates a one-shot timer that is to call `callback` once, after about
/// `delay` milliseconds.
pub fn set_timeout<F>(callback: F, delay: i32) -> (timeout: OneShotTimeout<F>)
    ensures
        timeout@ == OneShotView::fresh(callback, delay as int),
        timeout@.wf(),
{
    OneShotTimeout::new(callback, delay)
}

/// Cancels `timeout` and releases its callback storage.
pub fn clear_timeout<F>(timeout: &mut OneShotTimeout<F>)
    ensures
        final(timeout)@ == old(timeout)@.clear(),
        old(timeout)@.wf() ==> final(timeout)@.wf(),
{
    timeout.clear();
}

/// The callback of a one-shot timer never runs once the timer has fired or
/// was cancelled, whatever happens to the timer afterwards.
pub proof fn lemma_one_shot_spent<F>(timer: OneShotView<F>, events: Seq<OneShotEvent>)
    requires
        !timer.pending(),
    ensures
        timer.deliveries(events) == 0,
        !timer.run(events).pending(),
    decreases events.len(),
{
    if events.len() > 0 {
        lemma_one_shot_spent(timer.step(events[0]), events.drop_first());
    }
}

/// The callback storage of a one-shot timer is released at most once,
/// whatever happens to the timer: by the call of the callback or by a
/// cancellation, never by both. It is released exactly once if the timer
/// was pending and the host calls back or the timer is cancelled at all.
pub proof fn lemma_one_shot_released_once<F>(timer: OneShotView<F>, events: Seq<OneShotEvent>)
    ensures
        timer.released(events) <= 1,
        !timer.pending() ==> timer.released(events) == 0,
        timer.pending() && (exists|i: int|
            0 <= i < events.len() && (#[trigger] events[i] == OneShotEvent::Elapse || events[i]
                == OneShotEvent::Clear)) ==> timer.released(events) == 1 && !timer.run(
            events,
        ).pending(),
        timer.released(events) == 0 ==> timer.run(events).callback == timer.callback,
    decreases events.len(),
{
    if events.len() > 0 {
        let next = timer.step(events[0]);
        let rest = events.drop_first();
        lemma_one_shot_released_once(next, rest);
        if !next.pending() {
            lemma_one_shot_spent(next, rest);
        }
        if timer.pending() && !timer.releases(events[0]) {
            if exists|i: int|
                0 <= i < events.len() && (#[trigger] events[i] == OneShotEvent::Elapse || events[i]
                    == OneShotEvent::Clear) {
                let i = choose|i: int|
                    0 <= i < events.len() && (#[trigger] events[i] == OneShotEvent::Elapse
                        || events[i] == OneShotEvent::Clear);
                assert(i > 0);
                assert(rest[i - 1] == events[i]);
            }
        }
    }
}

/// The callback of a one-shot timer runs at most once, whatever happens to
/// the timer.
pub proof fn lemma_one_shot_at_most_once<F>(timer: OneShotView<F>, events: Seq<OneShotEvent>)
    ensures
        timer.deliveries(events) <= 1,
    decreases events.len(),
{
    if events.len() > 0 {
        let next = timer.step(events[0]);
        if timer.delivers(events[0]) {
            lemma_one_shot_spent(next, events.drop_first());
        } else {
            lemma_one_shot_at_most_once(next, events.drop_first());
        }
    }
}

/// The callback of a pending one-shot timer runs exactly once if the host
/// calls back before the timer is cancelled. After that call the storage is
/// released, and stays so.
pub proof fn lemma_one_shot_exactly_once<F>(
    timer: OneShotView<F>,
    events: Seq<OneShotEvent>,
    at: int,
)
    requires
        timer.pending(),
        0 <= at < events.len(),
        events[at] == OneShotEvent::Elapse,
        forall|i: int| 0 <= i < at ==> events[i] != OneShotEvent::Clear,
    ensures
        timer.deliveries(events) == 1,
        !timer.run(events).pending(),
    decreases events.len(),
{
    let next = timer.step(events[0]);
    let rest = events.drop_first();
    if events[0] == OneShotEvent::Elapse {
        lemma_one_shot_spent(next, rest);
    } else {
        assert(at > 0);
        assert forall|i: int| 0 <= i < at - 1 implies rest[i] != OneShotEvent::Clear by {
            assert(rest[i] == events[i + 1]);
        }
        lemma_one_shot_exactly_once(next, rest, at - 1);
    }
}

/// Once a one-shot timer has fired, cancelling it changes nothing.
pub proof fn lemma_clear_after_fire<F>(timer: OneShotView<F>)
    ensures
        timer.elapse().clear() == timer.elapse(),
{
}

/// What can happen to a repeatable timer after it was created, short of its
/// disposal.
#[derive(Clone, Copy, PartialEq, Eq, Structural, Debug)]
pub enum RepeatableEvent {
    /// The delay has passed and the host calls back.
    Elapse,
    /// The timer is cancelled.
    Clear,
    /// The timer is armed again.
    Refresh,
    /// The timer is asked to keep the event loop alive.
    Reference,
    /// The timer is asked not to keep the event loop alive.
    Unreference,
}

/// The state of a repeatable timer.
pub struct RepeatableView<F> {
    /// The delay in milliseconds that the timer was created with.
    pub delay: int,
    /// The callback that the timer stores, until the timer is disposed of.
    pub callback: Option<F>,
    /// Whether the host is to call back when the delay has passed.
    pub scheduled: bool,
    /// Whether the scheduled timer keeps the event loop alive.
    pub referenced: bool,
}

impl<F> RepeatableView<F> {
    /// Only a timer that stores its callback can be scheduled.
    pub open spec fn wf(self) -> bool {
        self.scheduled ==> self.callback is Some
    }

    /// The timer as `new` makes it: scheduled and referenced.
    pub open spec fn fresh(callback: F, delay: int) -> Self {
        RepeatableView { delay, callback: Some(callback), scheduled: true, referenced: true }
    }

    /// Whether the callback storage has been released.
    pub open spec fn disposed(self) -> bool {
        self.callback is None
    }

    /// Whether the timer alone keeps the event loop alive.
    pub open spec fn keeps_alive(self) -> bool {
        self.scheduled && self.referenced
    }

    /// The callback that is due when the host calls back, if any.
    pub open spec fn due(self) -> Option<F> {
        if self.scheduled {
            self.callback
        } else {
            None
        }
    }

    /// The state after the host called back: the timer rests until it is
    /// armed again, and keeps its callback.
    pub open spec fn elapse(self) -> Self {
        RepeatableView { scheduled: false, ..self }
    }

    /// The state after a cancellation: the timer rests, and keeps its
    /// callback.
    pub open spec fn clear(self) -> Self {
        RepeatableView { scheduled: false, ..self }
    }

    /// The state after the timer was armed again. A timer that was disposed
    /// of has nothing to call and stays at rest.
    pub open spec fn refresh(self) -> Self {
        RepeatableView { scheduled: self.callback is Some, ..self }
    }

    /// The state after the callback storage was released.
    pub open spec fn dispose(self) -> Self {
        RepeatableView { callback: None, ..self }
    }

    /// The state after `event`.
    pub open spec fn step(self, event: RepeatableEvent) -> Self {
        match event {
            RepeatableEvent::Elapse => self.elapse(),
            RepeatableEvent::Clear => self.clear(),
            RepeatableEvent::Refresh => self.refresh(),
            RepeatableEvent::Reference => RepeatableView { referenced: true, ..self },
            RepeatableEvent::Unreference => RepeatableView { referenced: false, ..self },
        }
    }

    /// Whether `event` makes the callback run.
    pub open spec fn delivers(self, event: RepeatableEvent) -> bool {
        event == RepeatableEvent::Elapse && self.due() is Some
    }

    /// The state after all of `events`, in their order.
    pub open spec fn run(self, events: Seq<RepeatableEvent>) -> Self
        decreases events.len(),
    {
        if events.len() == 0 {
            self
        } else {
            self.step(events[0]).run(events.drop_first())
        }
    }
}

/// A timer that can be armed again after it fired or was cancelled. It keeps
/// its callback until it is disposed of.
pub struct RepeatableTimeout<F> {
    delay: i32,
    callback: Option<F>,
    scheduled: bool,
    referenced: bool,
}

impl<F> View for RepeatableTimeout<F> {
    type V = RepeatableView<F>;

    closed spec fn view(&self) -> RepeatableView<F> {
        RepeatableView {
            delay: self.delay as int,
            callback: self.callback,
            scheduled: self.scheduled,
            referenced: self.referenced,
        }
    }
}

impl<F> RepeatableTimeout<F> {
    /// Creates a timer that is to call `callback` after about `delay`
    /// milliseconds, and again each time it has been refreshed. The timer
    /// starts out scheduled and referenced.
    pub fn new(callback: F, delay: i32) -> (timeout: Self)
        ensures
            timeout@ == RepeatableView::fresh(callback, delay as int),
            timeout@.wf(),
    {
        RepeatableTimeout { delay, callback: Some(callback), scheduled: true, referenced: true }
    }

    /// Releases the callback storage. The timer must be at rest and must
    /// still store its callback.
    pub fn dispose(&mut self)
        requires
            !old(self)@.scheduled,
            !old(self)@.disposed(),
        ensures
            final(self)@ == old(self)@.dispose(),
            final(self)@.disposed(),
            final(self)@.wf(),
    {
        self.callback = None;
    }

    /// Lets the scheduled timer keep the event loop alive.
    pub fn reference(&mut self) -> (same: &mut Self)
        ensures
            same@ == old(self)@.step(RepeatableEvent::Reference),
            *final(self) == *final(same),
    {
        self.referenced = true;
        self
    }

    /// Lets the event loop end although the timer is scheduled.
    pub fn unreference(&mut self) -> (same: &mut Self)
        ensures
            same@ == old(self)@.step(RepeatableEvent::Unreference),
            *final(self) == *final(same),
    {
        self.referenced = false;
        self
    }

    /// Arms the timer again with the delay it was created with. The stored
    /// callback is kept; a timer that was disposed of stays at rest.
    pub fn refresh(&mut self) -> (same: &mut Self)
        ensures
            same@ == old(self)@.refresh(),
            same@.wf(),
            *final(self) == *final(same),
    {
        self.scheduled = self.callback.is_some();
        self
    }

    /// Cancels the timer. The stored callback is kept, so that the timer can
    /// be refreshed.
    pub fn clear(&mut self) -> (same: &mut Self)
        ensures
            same@ == old(self)@.clear(),
            same@.wf(),
            *final(self) == *final(same),
    {
        self.scheduled = false;
        self
    }

    /// Takes note that the host called back. Lends the callback for a call if
    /// the timer was scheduled; the timer then rests until it is refreshed.
    pub fn fire(&mut self) -> (callback: Option<&F>)
        ensures
            match callback {
                Some(callback) => old(self)@.due() == Some(*callback),
                None => old(self)@.due() is None,
            },
            callback is Some == old(self)@.delivers(RepeatableEvent::Elapse),
            final(self)@ == old(self)@.elapse(),
            final(self)@.wf(),
    {
        let due = self.scheduled;
        self.scheduled = false;
        if due {
            self.callback.as_ref()
        } else {
            None
        }
    }

    /// The delay in milliseconds that the timer was created with.
    pub fn delay(&self) -> (delay: i32)
        ensures
            delay == self@.delay,
    {
        self.delay
    }

    /// Whether the host is to call back when the delay has passed.
    pub fn is_scheduled(&self) -> (scheduled: bool)
        ensures
            scheduled == self@.scheduled,
    {
        self.scheduled
    }

    /// Whether the callback storage has been released.
    pub fn is_disposed(&self) -> (disposed: bool)
        ensures
            disposed == self@.disposed(),
    {
        self.callback.is_none()
    }

    /// Whether the timer alone keeps the event loop alive.
    pub fn keeps_alive(&self) -> (alive: bool)
        ensures
            alive == self@.keeps_alive(),
    {
        self.scheduled && self.referenced
    }
}

/// No event short of disposal touches the callback storage of a repeatable
/// timer: the callback that `new` stored is the one that every later call
/// uses.
pub proof fn lemma_repeatable_keeps_callback<F>(
    timer: RepeatableView<F>,
    events: Seq<RepeatableEvent>,
)
    ensures
        timer.run(events).callback == timer.callback,
        timer.run(events).delay == timer.delay,
        timer.wf() ==> timer.run(events).wf(),
    decreases events.len(),
{
    if events.len() > 0 {
        lemma_repeatable_keeps_callback(timer.step(events[0]), events.drop_first());
    }
}

/// A repeatable timer that stores its callback fires whenever the host calls
/// back while it is scheduled, and only then: not after a cancellation, and
/// again after a refresh that follows the cancellation.
pub proof fn lemma_repeatable_fires_until_cleared<F>(timer: RepeatableView<F>)
    requires
        timer.wf(),
        !timer.disposed(),
    ensures
        timer.scheduled ==> timer.delivers(RepeatableEvent::Elapse),
        !timer.clear().delivers(RepeatableEvent::Elapse),
        timer.clear().refresh().delivers(RepeatableEvent::Elapse),
        timer.elapse().refresh().delivers(RepeatableEvent::Elapse),
        timer.clear().refresh().due() == timer.callback,
        timer.clear().refresh().callback == timer.callback,
{
}

} // verus!
