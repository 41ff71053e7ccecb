//! Promises: eventual completion signals, their combination and their
//! continuations, kept by a single-threaded cooperative scheduler.
//!
//! The scheduler never calls user code. A continuation that is due is handed
//! out as a `Job`; the embedding program runs it and reports what it returned
//! with `finish`.
//!
//! What the operations do is stated over the state of a scheduler that the
//! module `schedule` defines; the laws of promises are proved there.

use vstd::prelude::*;
use crate::host::{HostValue, ValueView};
use crate::schedule::{
    lemma_at_rest_at, lemma_chained, lemma_combined, lemma_created, lemma_finished,
    lemma_first_rejected_unique, lemma_force, lemma_handed_out, lemma_others_stay_sound,
    lemma_settled, lemma_sweep, places, KindView, NodeView, SchedulerView,
};

verus! {

/// Whether a promise has settled, and with what.
#[derive(Debug, PartialEq, Eq)]
pub enum Settlement {
    Pending,
    Fulfilled(HostValue),
    Rejected(HostValue),
}

/// The mathematical content of a `Settlement`.
pub enum SettlementView {
    Pending,
    Fulfilled(ValueView),
    Rejected(ValueView),
}

impl View for Settlement {
    type V = SettlementView;

    open spec fn view(&self) -> SettlementView {
        match self {
            Settlement::Pending => SettlementView::Pending,
            Settlement::Fulfilled(value) => SettlementView::Fulfilled(value@),
            Settlement::Rejected(reason) => SettlementView::Rejected(reason@),
        }
    }
}

impl Clone for Settlement {
    fn clone(&self) -> (copy: Settlement)
        ensures
            copy@ == self@,
    {
        match self {
            Settlement::Pending => Settlement::Pending,
            Settlement::Fulfilled(value) => Settlement::Fulfilled(value.clone()),
            Settlement::Rejected(reason) => Settlement::Rejected(reason.clone()),
        }
    }
}

/// A handle to a promise of a scheduler.
#[derive(Clone, Copy, PartialEq, Eq, Structural, Debug)]
pub struct Promise {
    /// The place of the promise in its scheduler, in order of creation.
    pub id: usize,
}

/// The capability to settle one promise, by fulfilling it or by rejecting it.
#[derive(Clone, Copy, PartialEq, Eq, Structural, Debug)]
pub struct PromiseCallback {
    /// The promise that the capability settles.
    pub promise: Promise,
    /// Whether the capability rejects the promise rather than fulfils it.
    pub rejects: bool,
}

/// How far the continuation of a chained promise has come.
#[derive(Clone, Copy, PartialEq, Eq, Structural, Debug)]
pub enum Stage {
    /// The continuation is stored and has not been handed out.
    Waiting,
    /// The continuation has been handed out and has not returned.
    Running,
    /// The continuation returned the promise with this place, which the
    /// chained promise now follows.
    Following(usize),
    /// The chained promise has settled without following another promise.
    Done,
}

/// What the continuation of a chained promise returned.
#[derive(Debug, PartialEq, Eq)]
pub enum Outcome {
    /// A plain value: the chained promise is fulfilled with it.
    Value(HostValue),
    /// Another promise: the chained promise settles as that one does.
    Chained(Promise),
}

/// The mathematical content of an `Outcome`.
pub enum OutcomeView {
    Value(ValueView),
    Chained(Promise),
}

impl View for Outcome {
    type V = OutcomeView;

    open spec fn view(&self) -> OutcomeView {
        match self {
            Outcome::Value(value) => OutcomeView::Value(value@),
            Outcome::Chained(promise) => OutcomeView::Chained(*promise),
        }
    }
}

/// A continuation that is due, with the value that it is to be called with.
pub struct Job<F> {
    /// The chained promise that the continuation belongs to.
    pub promise: Promise,
    /// The continuation.
    pub callback: F,
    /// The value that the parent promise was fulfilled with.
    pub value: HostValue,
}

/// How a promise came to be, as the scheduler stores it.
enum Kind {
    Root,
    All(Vec<usize>),
    Then { parent: usize, stage: Stage },
}

impl View for Kind {
    type V = KindView;

    closed spec fn view(&self) -> KindView {
        match self {
            Kind::Root => KindView::Root,
            Kind::All(inputs) => KindView::All(inputs@),
            Kind::Then { parent, stage } => KindView::Then { parent: *parent, stage: *stage },
        }
    }
}

/// One promise, as the scheduler stores it.
struct Node<F> {
    kind: Kind,
    state: Settlement,
    callback: Option<F>,
}

impl<F> View for Node<F> {
    type V = NodeView<F>;

    closed spec fn view(&self) -> NodeView<F> {
        NodeView { kind: self.kind@, state: self.state@, callback: self.callback }
    }
}

/// A single-threaded cooperative scheduler of promises whose continuations
/// are of type `F`.
pub struct Scheduler<F> {
    nodes: Vec<Node<F>>,
}

impl<F> View for Scheduler<F> {
    type V = SchedulerView<F>;

    closed spec fn view(&self) -> SchedulerView<F> {
        SchedulerView { nodes: Seq::new(self.nodes@.len(), |i: int| self.nodes@[i]@) }
    }
}

impl<F> Scheduler<F> {
    /// Creates a scheduler without promises.
    pub fn new() -> (scheduler: Self)
        ensures
            scheduler@.nodes.len() == 0,
            scheduler@.wf(),
    {
        Scheduler { nodes: Vec::new() }
    }

    /// The number of promises made so far.
    pub fn len(&self) -> (n: usize)
        ensures
            n == self@.nodes.len(),
    {
        self.nodes.len()
    }

    /// Whether `promise` is a promise of this scheduler.
    pub fn contains(&self, promise: Promise) -> (b: bool)
        ensures
            b == self@.contains(promise),
    {
        promise.id < self.nodes.len()
    }

    /// The settlement of `promise`.
    pub fn state(&self, promise: Promise) -> (state: Settlement)
        requires
            self@.contains(promise),
        ensures
            state@ == self@.state(promise),
    {
        self.nodes[promise.id].state.clone()
    }

    /// Whether `promise` has not settled.
    pub fn is_pending(&self, promise: Promise) -> (pending: bool)
        requires
            self@.contains(promise),
        ensures
            pending == self@.state(promise) is Pending,
    {
        match &self.nodes[promise.id].state {
            Settlement::Pending => true,
            _ => false,
        }
    }

    /// Computes what a combination of `inputs` is now.
    fn verdict(&self, inputs: &Vec<usize>) -> (verdict: Settlement)
        requires
            forall|k: int| 0 <= k < inputs@.len() ==> #[trigger] inputs@[k] < self@.nodes.len(),
        ensures
            verdict@ == self@.verdict(inputs@),
    {
        let mut fulfilled = true;
        let mut k: usize = 0;
        while k < inputs.len()
            invariant
                k <= inputs@.len(),
                forall|j: int| 0 <= j < inputs@.len() ==> #[trigger] inputs@[j] < self@.nodes.len(),
                forall|j: int| 0 <= j < k ==> !(#[trigger] self@.input_state(inputs@, j) is Rejected),
                fulfilled == forall|j: int|
                    0 <= j < k ==> #[trigger] self@.input_state(inputs@, j) is Fulfilled,
            decreases inputs@.len() - k,
        {
            let at = inputs[k];
            assert(inputs@[k as int] < self@.nodes.len());
            match &self.nodes[at].state {
                Settlement::Rejected(reason) => {
                    proof {
                        assert(self@.first_rejected(inputs@, k as int));
                        let chosen = choose|c: int| self@.first_rejected(inputs@, c);
                        lemma_first_rejected_unique(self@, inputs@, chosen, k as int);
                    }
                    return Settlement::Rejected(reason.clone());
                },
                Settlement::Fulfilled(_) => {},
                Settlement::Pending => {
                    fulfilled = false;
                },
            }
            k = k + 1;
        }
        proof {
            if exists|c: int| self@.first_rejected(inputs@, c) {
                let c = choose|c: int| self@.first_rejected(inputs@, c);
                assert(self@.input_state(inputs@, c) is Rejected);
            }
        }
        if fulfilled {
            Settlement::Fulfilled(HostValue::Undefined)
        } else {
            Settlement::Pending
        }
    }

    /// Computes what the promise at place `i` is to be, going by the promises
    /// that it depends on.
    fn ruling(&self, i: usize) -> (ruling: Settlement)
        requires
            i < self@.nodes.len(),
            self@.sound_node(i as int),
        ensures
            ruling@ == self@.ruling(i as int),
    {
        match &self.nodes[i].kind {
            Kind::Root => Settlement::Pending,
            Kind::All(inputs) => {
                proof {
                    assert forall|k: int| 0 <= k < inputs@.len() implies #[trigger] inputs@[k]
                        < self@.nodes.len() by {
                        assert(inputs@[k] < i);
                    }
                }
                self.verdict(inputs)
            },
            Kind::Then { parent, stage } => match stage {
                Stage::Waiting => match &self.nodes[*parent].state {
                    Settlement::Rejected(reason) => Settlement::Rejected(reason.clone()),
                    _ => Settlement::Pending,
                },
                Stage::Following(leader) => self.nodes[*leader].state.clone(),
                _ => Settlement::Pending,
            },
        }
    }

    /// Gives the promise at place `i` its turn: settles it if it is pending
    /// and the promises that it depends on settle it. Says whether it did.
    fn force(&mut self, i: usize) -> (changed: bool)
        requires
            i < old(self)@.nodes.len(),
            old(self)@.sound_node(i as int),
        ensures
            changed == old(self)@.forced(i as int),
            final(self)@ == old(self)@.force(i as int),
    {
        let pending = match &self.nodes[i].state {
            Settlement::Pending => true,
            _ => false,
        };
        if !pending {
            return false;
        }
        let ruling = self.ruling(i);
        let settles = match &ruling {
            Settlement::Pending => false,
            _ => true,
        };
        if !settles {
            return false;
        }
        let waiting: Option<usize> = match &self.nodes[i].kind {
            Kind::Then { parent, stage } => match stage {
                Stage::Waiting => Some(*parent),
                _ => None,
            },
            _ => None,
        };
        let ghost before = self@;
        self.nodes[i].state = ruling;
        self.nodes[i].callback = None;
        match waiting {
            Some(parent) => {
                self.nodes[i].kind = Kind::Then { parent, stage: Stage::Done };
            },
            None => {},
        }
        assert(self@.nodes =~= before.force(i as int).nodes);
        true
    }

    /// Gives every promise its turn to settle, round after round, until a
    /// round settles none.
    fn propagate(&mut self)
        requires
            old(self)@.sound(),
        ensures
            final(self)@ == old(self)@.at_rest(),
    {
        let ghost entry = self@;
        let n = self.nodes.len();
        let mut changed = true;
        while changed
            invariant
                self@.nodes.len() == n,
                self@.sound(),
                self@.at_rest() == entry.at_rest(),
                !changed ==> self@.at_rest() == self@,
            decreases self@.pending_count() + if changed { 1nat } else { 0nat },
        {
            let ghost start = self@;
            changed = false;
            let mut i: usize = 0;
            while i < n
                invariant
                    i <= n,
                    self@.nodes.len() == n,
                    start.nodes.len() == n,
                    start.sound(),
                    self@.sound(),
                    self@ == start.sweep(i as int),
                    changed <==> self@.pending_count() < start.pending_count(),
                decreases n - i,
            {
                proof {
                    lemma_sweep(start, i as int);
                    lemma_force(self@, i as int);
                    assert(self@.sound_node(i as int));
                }
                let forced = self.force(i);
                if forced {
                    changed = true;
                }
                i = i + 1;
            }
            proof {
                lemma_sweep(start, n as int);
            }
        }
    }

    /// Adds `node` as the newest promise.
    fn add(&mut self, node: Node<F>) -> (promise: Promise)
        ensures
            promise.id == old(self)@.nodes.len(),
            final(self)@ == old(self)@.with_new(node@),
    {
        let ghost before = self@;
        let id = self.nodes.len();
        self.nodes.push(node);
        assert(self@.nodes =~= before.nodes.push(node@));
        Promise { id }
    }

    /// Hands out the continuation that is due, with the value that its
    /// parent promise was fulfilled with. Where several are due, the one of
    /// the promise made first goes first. A continuation is handed out once.
    pub fn next_job(&mut self) -> (job: Option<Job<F>>)
        requires
            old(self)@.wf(),
        ensures
            match job {
                Some(job) => {
                    let i = job.promise.id as int;
                    &&& old(self)@.first_ready(i)
                    &&& old(self)@.nodes[i].callback == Some(job.callback)
                    &&& old(self)@.nodes[old(self)@.nodes[i].kind->parent as int].state
                        == SettlementView::Fulfilled(job.value@)
                    &&& final(self)@ == old(self)@.handed_out(i)
                },
                None => {
                    &&& forall|i: int|
                        0 <= i < old(self)@.nodes.len() ==> !#[trigger] old(self)@.ready(i)
                    &&& final(self)@ == old(self)@
                },
            },
            final(self)@.wf(),
            old(self)@.evolves(final(self)@),
    {
        let ghost before = self@;
        let n = self.nodes.len();
        let mut i: usize = 0;
        while i < n
            invariant
                i <= n,
                n == self@.nodes.len(),
                self@ == before,
                before == old(self)@,
                before.wf(),
                forall|j: int| 0 <= j < i ==> !#[trigger] before.ready(j),
            decreases n - i,
        {
            proof {
                lemma_at_rest_at(before, i as int);
            }
            let due: Option<(usize, HostValue)> = match &self.nodes[i].kind {
                Kind::Then { parent, stage } => match stage {
                    Stage::Waiting => match &self.nodes[*parent].state {
                        Settlement::Fulfilled(value) => Some((*parent, value.clone())),
                        _ => None,
                    },
                    _ => None,
                },
                _ => None,
            };
            match due {
                Some((parent, value)) => {
                    let callback = self.nodes[i].callback.take().unwrap();
                    self.nodes[i].kind = Kind::Then { parent, stage: Stage::Running };
                    proof {
                        assert(self@.nodes =~= before.handed_out(i as int).nodes);
                        lemma_handed_out(before, i as int);
                    }
                    return Some(Job { promise: Promise { id: i }, callback, value });
                },
                None => {},
            }
            i = i + 1;
        }
        None
    }

    /// Takes note that the continuation of `promise` returned `outcome`, and
    /// lets the promises that depend on `promise` follow. Nothing changes
    /// unless the continuation of `promise` has been handed out and has not
    /// returned before.
    pub fn finish(&mut self, promise: Promise, outcome: Outcome)
        requires
            old(self)@.wf(),
            outcome@ matches OutcomeView::Chained(leader) ==> old(self)@.contains(leader),
        ensures
            final(self)@ == old(self)@.finished(promise, outcome@),
            old(self)@.running(promise) ==> old(self)@.returned(
                promise.id as int,
                outcome@,
            ).settles_into(final(self)@),
            !final(self)@.running(promise),
            final(self)@.wf(),
            old(self)@.evolves(final(self)@),
    {
        let ghost before = self@;
        proof {
            lemma_finished(before, promise, outcome@);
        }
        let i = promise.id;
        if i >= self.nodes.len() {
            return ;
        }
        proof {
            lemma_at_rest_at(before, i as int);
        }
        let running: Option<usize> = match &self.nodes[i].kind {
            Kind::Then { parent, stage } => match stage {
                Stage::Running => Some(*parent),
                _ => None,
            },
            _ => None,
        };
        match running {
            None => {},
            Some(parent) => {
                match outcome {
                    Outcome::Value(value) => {
                        self.nodes[i].state = Settlement::Fulfilled(value);
                        self.nodes[i].kind = Kind::Then { parent, stage: Stage::Done };
                    },
                    Outcome::Chained(leader) => {
                        let state = self.nodes[leader.id].state.clone();
                        self.nodes[i].state = state;
                        self.nodes[i].kind = Kind::Then {
                            parent,
                            stage: Stage::Following(leader.id),
                        };
                    },
                }
                proof {
                    assert(self@.nodes =~= before.returned(i as int, outcome@).nodes);
                    lemma_others_stay_sound(before, self@, i as int);
                    assert(self@.sound_node(i as int));
                }
                self.propagate();
            },
        }
    }
}

impl Promise {
    /// Creates a pending promise, and calls `user_callback` at once with the
    /// two capabilities that settle it: the first fulfils the promise, the
    /// second rejects it.
    pub fn new<F, I: FnOnce(PromiseCallback, PromiseCallback)>(
        scheduler: &mut Scheduler<F>,
        user_callback: I,
    ) -> (promise: Promise)
        requires
            old(scheduler)@.wf(),
            user_callback.requires(
                (
                    PromiseCallback {
                        promise: Promise { id: old(scheduler)@.nodes.len() as usize },
                        rejects: false,
                    },
                    PromiseCallback {
                        promise: Promise { id: old(scheduler)@.nodes.len() as usize },
                        rejects: true,
                    },
                ),
            ),
        ensures
            promise.id == old(scheduler)@.nodes.len(),
            final(scheduler)@ == old(scheduler)@.created(),
            final(scheduler)@.wf(),
            old(scheduler)@.evolves(final(scheduler)@),
            user_callback.ensures(
                (
                    PromiseCallback { promise, rejects: false },
                    PromiseCallback { promise, rejects: true },
                ),
                (),
            ),
    {
        proof {
            lemma_created(scheduler@);
        }
        let node = Node { kind: Kind::Root, state: Settlement::Pending, callback: None };
        let promise = scheduler.add(node);
        user_callback(
            PromiseCallback { promise, rejects: false },
            PromiseCallback { promise, rejects: true },
        );
        promise
    }

    /// Creates the combination of `promises`: a promise that is rejected as
    /// soon as one of them is, with the reason of the first that is, and
    /// fulfilled, with no value of its own, once all of them are.
    pub fn all<F>(scheduler: &mut Scheduler<F>, promises: &[Promise]) -> (promise: Promise)
        requires
            old(scheduler)@.wf(),
            forall|k: int|
                0 <= k < promises@.len() ==> old(scheduler)@.contains(#[trigger] promises@[k]),
        ensures
            promise.id == old(scheduler)@.nodes.len(),
            final(scheduler)@ == old(scheduler)@.combined(places(promises@)),
            final(scheduler)@.wf(),
            old(scheduler)@.evolves(final(scheduler)@),
    {
        let mut inputs: Vec<usize> = Vec::new();
        let mut k: usize = 0;
        while k < promises.len()
            invariant
                k <= promises@.len(),
                inputs@.len() == k,
                forall|j: int| 0 <= j < k ==> #[trigger] inputs@[j] == promises@[j].id,
            decreases promises@.len() - k,
        {
            inputs.push(promises[k].id);
            k = k + 1;
        }
        assert(inputs@ =~= places(promises@));
        proof {
            assert forall|k: int| 0 <= k < inputs@.len() implies #[trigger] inputs@[k]
                < scheduler@.nodes.len() by {
                assert(scheduler@.contains(promises@[k]));
            }
            lemma_combined(scheduler@, inputs@);
        }
        let state = scheduler.verdict(&inputs);
        let node = Node { kind: Kind::All(inputs), state, callback: None };
        scheduler.add(node)
    }

    /// Creates the promise of what `callback` returns once `self` is
    /// fulfilled, as `chain` does.
    pub fn then<F>(&self, scheduler: &mut Scheduler<F>, callback: F) -> (promise: Promise)
        requires
            old(scheduler)@.wf(),
            old(scheduler)@.contains(*self),
        ensures
            promise.id == old(scheduler)@.nodes.len(),
            final(scheduler)@ == old(scheduler)@.chained(*self, callback),
            final(scheduler)@.wf(),
            old(scheduler)@.evolves(final(scheduler)@),
    {
        self.chain(scheduler, callback)
    }

    /// Creates the promise of what `callback` returns once `self` is
    /// fulfilled. The continuation is stored until then, and is due when
    /// `self` is fulfilled. If `self` is rejected the new promise is rejected
    /// for the same reason, and the continuation is never called.
    pub fn chain<F>(&self, scheduler: &mut Scheduler<F>, callback: F) -> (promise: Promise)
        requires
            old(scheduler)@.wf(),
            old(scheduler)@.contains(*self),
        ensures
            promise.id == old(scheduler)@.nodes.len(),
            final(scheduler)@ == old(scheduler)@.chained(*self, callback),
            final(scheduler)@.wf(),
            old(scheduler)@.evolves(final(scheduler)@),
    {
        proof {
            lemma_chained(scheduler@, *self, callback);
        }
        let rejected: Option<Settlement> = match &scheduler.nodes[self.id].state {
            Settlement::Rejected(reason) => Some(Settlement::Rejected(reason.clone())),
            _ => None,
        };
        let node = match rejected {
            Some(state) => Node {
                kind: Kind::Then { parent: self.id, stage: Stage::Done },
                state,
                callback: None,
            },
            None => Node {
                kind: Kind::Then { parent: self.id, stage: Stage::Waiting },
                state: Settlement::Pending,
                callback: Some(callback),
            },
        };
        scheduler.add(node)
    }
}

impl PromiseCallback {
    /// Settles the promise with `value`, and lets the promises that depend
    /// on it follow. A promise that has settled, or that is not one made by
    /// `Promise::new` in `scheduler`, stays as it is.
    fn settle<F>(self, scheduler: &mut Scheduler<F>, value: HostValue)
        requires
            old(scheduler)@.wf(),
        ensures
            final(scheduler)@ == old(scheduler)@.settled(self, value@),
    {
        let ghost before = scheduler@;
        let id = self.promise.id;
        if id >= scheduler.nodes.len() {
            return ;
        }
        proof {
            lemma_at_rest_at(before, id as int);
        }
        let open = match &scheduler.nodes[id].kind {
            Kind::Root => match &scheduler.nodes[id].state {
                Settlement::Pending => true,
                _ => false,
            },
            _ => false,
        };
        if !open {
            return ;
        }
        let state = if self.rejects {
            Settlement::Rejected(value)
        } else {
            Settlement::Fulfilled(value)
        };
        scheduler.nodes[id].state = state;
        proof {
            assert(scheduler@.nodes =~= before.with_state(
                id as int,
                SchedulerView::<F>::settlement_by(self, value@),
            ).nodes);
            lemma_others_stay_sound(before, scheduler@, id as int);
            assert(scheduler@.sound_node(id as int));
        }
        scheduler.propagate();
    }

    /// Settles the promise with no value: fulfils it if this is the
    /// fulfilling capability, rejects it if this is the rejecting one, and
    /// lets the promises that depend on it follow. A promise that has
    /// settled stays as it is.
    pub fn complete<F>(self, scheduler: &mut Scheduler<F>)
        requires
            old(scheduler)@.wf(),
        ensures
            final(scheduler)@ == old(scheduler)@.settled(self, ValueView::Undefined),
            old(scheduler)@.open_to(self) ==> final(scheduler)@.state(self.promise)
                == SchedulerView::<F>::settlement_by(self, ValueView::Undefined),
            old(scheduler)@.open_to(self) ==> old(scheduler)@.with_state(
                self.promise.id as int,
                SchedulerView::<F>::settlement_by(self, ValueView::Undefined),
            ).settles_into(final(scheduler)@),
            !final(scheduler)@.open_to(self),
            final(scheduler)@.wf(),
            old(scheduler)@.evolves(final(scheduler)@),
    {
        proof {
            lemma_settled(scheduler@, self, ValueView::Undefined);
        }
        self.settle(scheduler, HostValue::Undefined);
    }

    /// Settles the promise with `value`: fulfils it if this is the
    /// fulfilling capability, rejects it if this is the rejecting one, and
    /// lets the promises that depend on it follow. A promise that has
    /// settled stays as it is.
    pub fn with<F>(self, scheduler: &mut Scheduler<F>, value: HostValue)
        requires
            old(scheduler)@.wf(),
        ensures
            final(scheduler)@ == old(scheduler)@.settled(self, value@),
            old(scheduler)@.open_to(self) ==> final(scheduler)@.state(self.promise)
                == SchedulerView::<F>::settlement_by(self, value@),
            old(scheduler)@.open_to(self) ==> old(scheduler)@.with_state(
                self.promise.id as int,
                SchedulerView::<F>::settlement_by(self, value@),
            ).settles_into(final(scheduler)@),
            !final(scheduler)@.open_to(self),
            final(scheduler)@.wf(),
            old(scheduler)@.evolves(final(scheduler)@),
    {
        proof {
            lemma_settled(scheduler@, self, value@);
        }
        self.settle(scheduler, value);
    }
}

} // verus!
