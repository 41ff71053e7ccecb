//! The state of a scheduler of promises, the steps that change it, and the
//! laws that hold of every state that a scheduler comes to.
//!
//! The file has three parts: the state with its steps, the reasons why every
//! step leaves the scheduler at rest, and the laws.

use vstd::prelude::*;
use crate::host::ValueView;
use crate::promise::{OutcomeView, Promise, PromiseCallback, SettlementView, Stage};

verus! {

/// How a promise came to be, and so what settles it.
pub enum KindView {
    /// Made by `Promise::new`: settled by its capabilities.
    Root,
    /// Made by `Promise::all` over the promises at these places.
    All(Seq<usize>),
    /// Made by `Promise::then` on the promise at place `parent`.
    Then { parent: usize, stage: Stage },
}

/// The state of one promise.
pub struct NodeView<F> {
    pub kind: KindView,
    pub state: SettlementView,
    /// The continuation that the promise stores.
    pub callback: Option<F>,
}

/// The state of a scheduler: its promises, in order of creation.
pub struct SchedulerView<F> {
    pub nodes: Seq<NodeView<F>>,
}

/// The places of `promises` in their scheduler.
pub open spec fn places(promises: Seq<Promise>) -> Seq<usize> {
    Seq::new(promises.len(), |k: int| promises[k].id)
}

impl<F> SchedulerView<F> {
    /// Whether `promise` is a promise of this scheduler.
    pub open spec fn contains(self, promise: Promise) -> bool {
        promise.id < self.nodes.len()
    }

    /// The settlement of `promise`.
    pub open spec fn state(self, promise: Promise) -> SettlementView {
        self.nodes[promise.id as int].state
    }

    /// The settlement of the promise at place `inputs[k]`.
    pub open spec fn input_state(self, inputs: Seq<usize>, k: int) -> SettlementView {
        self.nodes[inputs[k] as int].state
    }

    /// Whether `inputs[k]` is a rejected promise and none before it is.
    pub open spec fn first_rejected(self, inputs: Seq<usize>, k: int) -> bool {
        &&& 0 <= k < inputs.len()
        &&& self.input_state(inputs, k) is Rejected
        &&& forall|j: int| 0 <= j < k ==> !(#[trigger] self.input_state(inputs, j) is Rejected)
    }

    /// Whether some promise among `inputs` is rejected.
    pub open spec fn some_rejected(self, inputs: Seq<usize>) -> bool {
        exists|k: int| 0 <= k < inputs.len() && #[trigger] self.input_state(inputs, k) is Rejected
    }

    /// Whether every promise among `inputs` is fulfilled.
    pub open spec fn all_fulfilled(self, inputs: Seq<usize>) -> bool {
        forall|k: int| 0 <= k < inputs.len() ==> #[trigger] self.input_state(inputs, k) is Fulfilled
    }

    /// What a combination of `inputs` is now: rejected as the first input
    /// that is rejected; else fulfilled, with no value of its own, if every
    /// input is fulfilled; else pending.
    pub open spec fn verdict(self, inputs: Seq<usize>) -> SettlementView {
        if exists|k: int| self.first_rejected(inputs, k) {
            let k = choose|k: int| self.first_rejected(inputs, k);
            self.input_state(inputs, k)
        } else if self.all_fulfilled(inputs) {
            SettlementView::Fulfilled(ValueView::Undefined)
        } else {
            SettlementView::Pending
        }
    }

    /// What the promise at place `i` is to be, going by the promises that it
    /// depends on: `Pending` where nothing settles it now.
    pub open spec fn ruling(self, i: int) -> SettlementView {
        match self.nodes[i].kind {
            KindView::Root => SettlementView::Pending,
            KindView::All(inputs) => self.verdict(inputs),
            KindView::Then { parent, stage } => match stage {
                Stage::Waiting => if self.nodes[parent as int].state is Rejected {
                    self.nodes[parent as int].state
                } else {
                    SettlementView::Pending
                },
                Stage::Following(leader) => self.nodes[leader as int].state,
                _ => SettlementView::Pending,
            },
        }
    }

    /// Whether the promise at place `i` is pending although the promises
    /// that it depends on settle it.
    pub open spec fn forced(self, i: int) -> bool {
        self.nodes[i].state is Pending && !(self.ruling(i) is Pending)
    }

    /// Whether the promise at place `i` is in a state that it can have come
    /// to: it depends on promises made before it, and if it has settled, the
    /// promises that it depends on account for that.
    pub open spec fn sound_node(self, i: int) -> bool {
        let node = self.nodes[i];
        match node.kind {
            KindView::Root => node.callback is None,
            KindView::All(inputs) => {
                &&& node.callback is None
                &&& forall|k: int| 0 <= k < inputs.len() ==> #[trigger] inputs[k] < i
                &&& match node.state {
                    SettlementView::Pending => true,
                    SettlementView::Fulfilled(value) => value == ValueView::Undefined
                        && self.all_fulfilled(inputs),
                    SettlementView::Rejected(reason) => exists|k: int|
                        0 <= k < inputs.len() && #[trigger] self.input_state(inputs, k)
                            == node.state,
                }
            },
            KindView::Then { parent, stage } => {
                &&& parent < i
                &&& node.callback is Some <==> stage == Stage::Waiting
                &&& match stage {
                    Stage::Waiting => node.state is Pending,
                    Stage::Running => node.state is Pending && self.nodes[parent as int].state
                        is Fulfilled,
                    Stage::Following(leader) => {
                        &&& leader < self.nodes.len()
                        &&& self.nodes[parent as int].state is Fulfilled
                        &&& node.state is Pending || node.state
                            == self.nodes[leader as int].state
                    },
                    Stage::Done => {
                        ||| node.state is Fulfilled && self.nodes[parent as int].state
                            is Fulfilled
                        ||| node.state is Rejected && node.state
                            == self.nodes[parent as int].state
                    },
                }
            },
        }
    }

    /// Whether every promise is in a state that it can have come to.
    pub open spec fn sound(self) -> bool {
        forall|i: int| 0 <= i < self.nodes.len() ==> #[trigger] self.sound_node(i)
    }

    /// Whether the scheduler is at rest: every promise is in a state that it
    /// can have come to, and no pending promise is settled by the promises
    /// that it depends on.
    pub open spec fn wf(self) -> bool {
        &&& self.sound()
        &&& forall|i: int| 0 <= i < self.nodes.len() ==> !#[trigger] self.forced(i)
    }

    /// Whether the continuation of the promise at place `i` is due: it is
    /// stored, and the parent promise is fulfilled.
    pub open spec fn ready(self, i: int) -> bool {
        match self.nodes[i].kind {
            KindView::Then { parent, stage } => stage == Stage::Waiting
                && self.nodes[parent as int].state is Fulfilled,
            _ => false,
        }
    }

    /// Whether `i` is the least place of a continuation that is due.
    pub open spec fn first_ready(self, i: int) -> bool {
        &&& 0 <= i < self.nodes.len()
        &&& self.ready(i)
        &&& forall|j: int| 0 <= j < i ==> !#[trigger] self.ready(j)
    }

    /// Whether the continuation of `promise` has been handed out and has not
    /// returned.
    pub open spec fn running(self, promise: Promise) -> bool {
        &&& self.contains(promise)
        &&& self.nodes[promise.id as int].kind matches KindView::Then { parent, stage }
        &&& stage == Stage::Running
    }

    /// Whether `capability` settles its promise now: the promise is one
    /// made by `Promise::new` in this scheduler and is still pending.
    pub open spec fn open_to(self, capability: PromiseCallback) -> bool {
        &&& self.contains(capability.promise)
        &&& self.nodes[capability.promise.id as int].kind is Root
        &&& self.state(capability.promise) is Pending
    }

    /// The settlement that `capability` brings about with `value`.
    pub open spec fn settlement_by(capability: PromiseCallback, value: ValueView) -> SettlementView {
        if capability.rejects {
            SettlementView::Rejected(value)
        } else {
            SettlementView::Fulfilled(value)
        }
    }

    /// The state with the promise at place `i` replaced by `node`.
    pub open spec fn with_node(self, i: int, node: NodeView<F>) -> Self {
        SchedulerView { nodes: self.nodes.update(i, node) }
    }

    /// The state with `node` as its newest promise.
    pub open spec fn with_new(self, node: NodeView<F>) -> Self {
        SchedulerView { nodes: self.nodes.push(node) }
    }

    /// The state with the promise at place `i` settled as `state`, before
    /// the promises that depend on it have followed.
    pub open spec fn with_state(self, i: int, state: SettlementView) -> Self {
        self.with_node(i, NodeView { state, ..self.nodes[i] })
    }

    /// The kind of a promise of kind `kind` once it has settled by the
    /// promises that it depends on.
    pub open spec fn settled_kind(kind: KindView) -> KindView {
        match kind {
            KindView::Then { parent, stage: Stage::Waiting } => KindView::Then {
                parent,
                stage: Stage::Done,
            },
            _ => kind,
        }
    }

    /// The state after the promise at place `i` has settled, if it is
    /// pending and the promises that it depends on settle it: it is as they
    /// rule, and has given up its continuation.
    pub open spec fn force(self, i: int) -> Self {
        if self.forced(i) {
            self.with_node(
                i,
                NodeView {
                    kind: Self::settled_kind(self.nodes[i].kind),
                    state: self.ruling(i),
                    callback: None,
                },
            )
        } else {
            self
        }
    }

    /// The state after each of the first `n` promises had its turn to
    /// settle, in order of creation.
    pub open spec fn sweep(self, n: int) -> Self
        decreases n,
    {
        if n <= 0 {
            self
        } else {
            self.sweep(n - 1).force(n - 1)
        }
    }

    /// The number of pending promises among the first `n`.
    pub open spec fn pending_upto(self, n: int) -> nat
        decreases n,
    {
        if n <= 0 {
            0
        } else {
            let rest = self.pending_upto(n - 1);
            if self.nodes[n - 1].state is Pending {
                rest + 1
            } else {
                rest
            }
        }
    }

    /// The number of pending promises.
    pub open spec fn pending_count(self) -> nat {
        self.pending_upto(self.nodes.len() as int)
    }

    /// The state at rest that `self` comes to: every promise has its turn to
    /// settle, in order of creation, again and again until a round settles
    /// none.
    pub open spec fn at_rest(self) -> Self
        decreases self.pending_count(),
    {
        let next = self.sweep(self.nodes.len() as int);
        if next.pending_count() < self.pending_count() {
            next.at_rest()
        } else {
            self
        }
    }

    /// The state after `Promise::new`: one more promise, pending, which only
    /// its capabilities settle.
    pub open spec fn created(self) -> Self {
        self.with_new(
            NodeView { kind: KindView::Root, state: SettlementView::Pending, callback: None },
        )
    }

    /// The state after `Promise::all` over the promises at `inputs`: one more
    /// promise, which is what the combination of its inputs is at this
    /// moment.
    pub open spec fn combined(self, inputs: Seq<usize>) -> Self {
        self.with_new(
            NodeView { kind: KindView::All(inputs), state: self.verdict(inputs), callback: None },
        )
    }

    /// The state after `Promise::then` on `parent` with `callback`: one more
    /// promise, which stores the continuation and is pending, unless the
    /// parent is rejected: then it is rejected for the same reason, and
    /// stores nothing.
    pub open spec fn chained(self, parent: Promise, callback: F) -> Self {
        self.with_new(
            if self.state(parent) is Rejected {
                NodeView {
                    kind: KindView::Then { parent: parent.id, stage: Stage::Done },
                    state: self.state(parent),
                    callback: None,
                }
            } else {
                NodeView {
                    kind: KindView::Then { parent: parent.id, stage: Stage::Waiting },
                    state: SettlementView::Pending,
                    callback: Some(callback),
                }
            },
        )
    }

    /// The state after `capability` was used with `value`: its promise is
    /// settled and every promise that depends on it has followed, if the
    /// capability settles its promise now; else nothing has changed.
    pub open spec fn settled(self, capability: PromiseCallback, value: ValueView) -> Self {
        if self.open_to(capability) {
            self.with_state(
                capability.promise.id as int,
                Self::settlement_by(capability, value),
            ).at_rest()
        } else {
            self
        }
    }

    /// The state after the continuation of the promise at place `i` was
    /// handed out.
    pub open spec fn handed_out(self, i: int) -> Self {
        self.with_node(
            i,
            NodeView {
                kind: KindView::Then {
                    parent: self.nodes[i].kind->parent,
                    stage: Stage::Running,
                },
                state: SettlementView::Pending,
                callback: None,
            },
        )
    }

    /// The state after the continuation of the promise at place `i` returned
    /// `outcome`, before the promises that depend on it have followed: the
    /// promise is fulfilled with the value returned, or is as the promise
    /// returned is and follows it from now on.
    pub open spec fn returned(self, i: int, outcome: OutcomeView) -> Self {
        let parent = self.nodes[i].kind->parent;
        match outcome {
            OutcomeView::Value(value) => self.with_node(
                i,
                NodeView {
                    kind: KindView::Then { parent, stage: Stage::Done },
                    state: SettlementView::Fulfilled(value),
                    callback: None,
                },
            ),
            OutcomeView::Chained(leader) => self.with_node(
                i,
                NodeView {
                    kind: KindView::Then { parent, stage: Stage::Following(leader.id) },
                    state: self.state(leader),
                    callback: None,
                },
            ),
        }
    }

    /// The state after it was reported that the continuation of `promise`
    /// returned `outcome`: the promise is as the outcome has it and every
    /// promise that depends on it has followed, if the continuation was
    /// running; else nothing has changed.
    pub open spec fn finished(self, promise: Promise, outcome: OutcomeView) -> Self {
        if self.running(promise) {
            self.returned(promise.id as int, outcome).at_rest()
        } else {
            self
        }
    }

    /// Whether `next` comes from `self` by settling pending promises that
    /// depend on others, and by nothing else: each promise either is as it
    /// was, or was pending, is settled now and has given up its
    /// continuation; one that still stored its continuation is settled only
    /// by the rejection of its parent.
    pub open spec fn settles_into(self, next: Self) -> bool {
        &&& next.nodes.len() == self.nodes.len()
        &&& forall|i: int|
            0 <= i < self.nodes.len() ==> {
                ||| #[trigger] next.nodes[i] == self.nodes[i]
                ||| {
                    &&& self.nodes[i].state is Pending
                    &&& !(self.nodes[i].kind is Root)
                    &&& !(next.nodes[i].state is Pending)
                    &&& next.nodes[i].kind == Self::settled_kind(self.nodes[i].kind)
                    &&& next.nodes[i].callback is None
                    &&& self.nodes[i].kind matches KindView::Then { parent, stage } ==> stage
                        != Stage::Running && (stage == Stage::Waiting
                        ==> next.nodes[parent as int].state is Rejected)
                }
            }
    }

    /// Whether `next` can come after `self`: promises are added and never
    /// removed, a promise stays of its kind, one that has settled stays as
    /// it settled, and one that has given up its continuation does not get
    /// it back.
    pub open spec fn evolves(self, next: Self) -> bool {
        &&& self.nodes.len() <= next.nodes.len()
        &&& forall|i: int|
            0 <= i < self.nodes.len() ==> {
                &&& !(self.nodes[i].state is Pending) ==> (#[trigger] next.nodes[i]).state
                    == self.nodes[i].state
                &&& self.nodes[i].callback is None ==> next.nodes[i].callback is None
                &&& match self.nodes[i].kind {
                    KindView::Root => next.nodes[i].kind is Root,
                    KindView::All(inputs) => next.nodes[i].kind == self.nodes[i].kind,
                    KindView::Then { parent, stage } => next.nodes[i].kind is Then
                        && next.nodes[i].kind->parent == parent,
                }
            }
    }
}

/// One operation on a scheduler.
pub enum Step<F> {
    /// `Promise::new`.
    Create,
    /// `Promise::all` over the promises at these places.
    Combine(Seq<usize>),
    /// `Promise::then` on a promise, with a continuation.
    Chain(Promise, F),
    /// The use of a capability, with a value.
    Settle(PromiseCallback, ValueView),
    /// `Scheduler::next_job`.
    HandOut,
    /// `Scheduler::finish` for a promise, with what its continuation returned.
    Finish(Promise, OutcomeView),
}

impl<F> SchedulerView<F> {
    /// Whether the operation `step` can be asked for in this state: the
    /// promises that it names are promises of this scheduler.
    pub open spec fn admits(self, step: Step<F>) -> bool {
        match step {
            Step::Create => true,
            Step::Combine(inputs) => forall|k: int|
                0 <= k < inputs.len() ==> #[trigger] inputs[k] < self.nodes.len(),
            Step::Chain(parent, callback) => self.contains(parent),
            Step::Settle(capability, value) => true,
            Step::HandOut => true,
            Step::Finish(promise, outcome) => outcome matches OutcomeView::Chained(leader)
                ==> self.contains(leader),
        }
    }

    /// The state after the operation `step`. An operation that cannot be
    /// asked for changes nothing.
    pub open spec fn step(self, step: Step<F>) -> Self {
        if !self.admits(step) {
            self
        } else {
            match step {
                Step::Create => self.created(),
                Step::Combine(inputs) => self.combined(inputs),
                Step::Chain(parent, callback) => self.chained(parent, callback),
                Step::Settle(capability, value) => self.settled(capability, value),
                Step::HandOut => if exists|i: int| self.first_ready(i) {
                    self.handed_out(choose|i: int| self.first_ready(i))
                } else {
                    self
                },
                Step::Finish(promise, outcome) => self.finished(promise, outcome),
            }
        }
    }

    /// The state after all of `steps`, in their order.
    pub open spec fn run(self, steps: Seq<Step<F>>) -> Self
        decreases steps.len(),
    {
        if steps.len() == 0 {
            self
        } else {
            self.step(steps[0]).run(steps.drop_first())
        }
    }

    /// The state after each of `capabilities` was used with no value, in
    /// their order.
    pub open spec fn completed(self, capabilities: Seq<PromiseCallback>) -> Self
        decreases capabilities.len(),
    {
        if capabilities.len() == 0 {
            self
        } else {
            self.settled(capabilities[0], ValueView::Undefined).completed(
                capabilities.drop_first(),
            )
        }
    }

    /// Whether the capability that fulfils the promise at place `i` is
    /// among `capabilities`.
    pub open spec fn fulfilled_by(capabilities: Seq<PromiseCallback>, i: usize) -> bool {
        exists|j: int|
            0 <= j < capabilities.len() && (#[trigger] capabilities[j]).promise.id == i
                && !capabilities[j].rejects
    }
}

/// Settling a pending promise leaves every other promise in a state that it
/// can have come to.
pub(crate) proof fn lemma_others_stay_sound<F>(before: SchedulerView<F>, after: SchedulerView<F>, i: int)
    requires
        before.sound(),
        0 <= i < before.nodes.len(),
        before.nodes[i].state is Pending,
        after.nodes.len() == before.nodes.len(),
        forall|j: int| 0 <= j < before.nodes.len() && j != i ==> after.nodes[j] == before.nodes[j],
    ensures
        forall|j: int| 0 <= j < before.nodes.len() && j != i ==> #[trigger] after.sound_node(j),
{
    assert forall|j: int| 0 <= j < before.nodes.len() && j != i implies #[trigger] after.sound_node(
        j,
    ) by {
        assert(before.sound_node(j));
        let node = before.nodes[j];
        match node.kind {
            KindView::Root => {},
            KindView::All(inputs) => {
                assert forall|k: int| 0 <= k < inputs.len() implies after.input_state(inputs, k)
                    == before.input_state(inputs, k) || before.input_state(inputs, k) is Pending by {
                    assert(inputs[k] < j);
                }
                match node.state {
                    SettlementView::Pending => {},
                    SettlementView::Fulfilled(value) => {
                        assert forall|k: int| 0 <= k < inputs.len() implies #[trigger] after.input_state(
                            inputs,
                            k,
                        ) is Fulfilled by {
                            assert(before.input_state(inputs, k) is Fulfilled);
                        }
                    },
                    SettlementView::Rejected(reason) => {
                        let k = choose|k: int|
                            0 <= k < inputs.len() && #[trigger] before.input_state(inputs, k)
                                == node.state;
                        assert(after.input_state(inputs, k) == node.state);
                    },
                }
            },
            KindView::Then { parent, stage } => {},
        }
    }
}

/// The number of pending promises among the first `n` does not depend on the
/// promises after them.
proof fn lemma_pending_upto_same<F>(before: SchedulerView<F>, after: SchedulerView<F>, n: int)
    requires
        n <= before.nodes.len(),
        n <= after.nodes.len(),
        forall|j: int|
            0 <= j < n ==> after.nodes[j].state is Pending == before.nodes[j].state is Pending,
    ensures
        after.pending_upto(n) == before.pending_upto(n),
    decreases n,
{
    if n > 0 {
        lemma_pending_upto_same(before, after, n - 1);
    }
}

/// Settling one pending promise lowers the number of pending promises by one.
proof fn lemma_pending_drops_upto<F>(
    before: SchedulerView<F>,
    after: SchedulerView<F>,
    i: int,
    n: int,
)
    requires
        0 <= i < n <= before.nodes.len(),
        after.nodes.len() == before.nodes.len(),
        before.nodes[i].state is Pending,
        !(after.nodes[i].state is Pending),
        forall|j: int|
            0 <= j < before.nodes.len() && j != i ==> after.nodes[j].state is Pending
                == before.nodes[j].state is Pending,
    ensures
        after.pending_upto(n) + 1 == before.pending_upto(n),
    decreases n,
{
    if n - 1 == i {
        lemma_pending_upto_same(before, after, n - 1);
    } else {
        lemma_pending_drops_upto(before, after, i, n - 1);
    }
}

/// At most one input of a combination is its first rejected input.
pub(crate) proof fn lemma_first_rejected_unique<F>(s: SchedulerView<F>, inputs: Seq<usize>, a: int, b: int)
    requires
        s.first_rejected(inputs, a),
        s.first_rejected(inputs, b),
    ensures
        a == b,
{
    if a < b {
        assert(!(s.input_state(inputs, a) is Rejected));
    }
    if b < a {
        assert(!(s.input_state(inputs, b) is Rejected));
    }
}

/// A combination with a rejected input has a first rejected input.
proof fn lemma_first_rejected_exists<F>(s: SchedulerView<F>, inputs: Seq<usize>, k: int)
    requires
        0 <= k < inputs.len(),
        s.input_state(inputs, k) is Rejected,
    ensures
        exists|first: int| s.first_rejected(inputs, first),
    decreases k,
{
    if exists|j: int| 0 <= j < k && #[trigger] s.input_state(inputs, j) is Rejected {
        let j = choose|j: int| 0 <= j < k && #[trigger] s.input_state(inputs, j) is Rejected;
        lemma_first_rejected_exists(s, inputs, j);
    } else {
        assert(s.first_rejected(inputs, k));
    }
}

/// What a combination is depends on the settlements of its inputs alone.
proof fn lemma_verdict_same<F>(before: SchedulerView<F>, after: SchedulerView<F>, inputs: Seq<usize>)
    requires
        forall|k: int|
            0 <= k < inputs.len() ==> #[trigger] after.input_state(inputs, k)
                == before.input_state(inputs, k),
    ensures
        after.verdict(inputs) == before.verdict(inputs),
        after.all_fulfilled(inputs) == before.all_fulfilled(inputs),
{
    assert forall|k: int| after.first_rejected(inputs, k) == before.first_rejected(inputs, k) by {
        if 0 <= k < inputs.len() {
            assert(after.input_state(inputs, k) == before.input_state(inputs, k));
            if before.first_rejected(inputs, k) {
                assert forall|j: int| 0 <= j < k implies !(#[trigger] after.input_state(inputs, j)
                    is Rejected) by {
                    assert(!(before.input_state(inputs, j) is Rejected));
                }
            }
            if after.first_rejected(inputs, k) {
                assert forall|j: int| 0 <= j < k implies !(#[trigger] before.input_state(inputs, j)
                    is Rejected) by {
                    assert(!(after.input_state(inputs, j) is Rejected));
                }
            }
        }
    }
    if exists|k: int| before.first_rejected(inputs, k) {
        let a = choose|k: int| before.first_rejected(inputs, k);
        assert(after.first_rejected(inputs, a));
        let b = choose|k: int| after.first_rejected(inputs, k);
        assert(before.first_rejected(inputs, b));
        lemma_first_rejected_unique(before, inputs, a, b);
    }
    if before.all_fulfilled(inputs) {
        assert forall|k: int| 0 <= k < inputs.len() implies #[trigger] after.input_state(inputs, k)
            is Fulfilled by {
            assert(before.input_state(inputs, k) is Fulfilled);
        }
    }
    if after.all_fulfilled(inputs) {
        assert forall|k: int| 0 <= k < inputs.len() implies #[trigger] before.input_state(inputs, k)
            is Fulfilled by {
            assert(after.input_state(inputs, k) is Fulfilled);
        }
    }
}

/// A promise that is as it was, among promises whose settlements are as
/// they were, is in a state that it can have come to, and is settled by the
/// promises it depends on exactly if it was.
proof fn lemma_node_unaffected<F>(before: SchedulerView<F>, after: SchedulerView<F>, j: int)
    requires
        0 <= j < before.nodes.len() <= after.nodes.len(),
        before.sound_node(j),
        after.nodes[j] == before.nodes[j],
        forall|d: int| 0 <= d < before.nodes.len() ==> after.nodes[d].state == before.nodes[d].state,
    ensures
        after.sound_node(j),
        after.ruling(j) == before.ruling(j),
        after.forced(j) == before.forced(j),
{
    match before.nodes[j].kind {
        KindView::Root => {},
        KindView::All(inputs) => {
            assert forall|k: int| 0 <= k < inputs.len() implies #[trigger] after.input_state(
                inputs,
                k,
            ) == before.input_state(inputs, k) by {
                assert(inputs[k] < j);
            }
            lemma_verdict_same(before, after, inputs);
            match before.nodes[j].state {
                SettlementView::Rejected(reason) => {
                    let k = choose|k: int|
                        0 <= k < inputs.len() && #[trigger] before.input_state(inputs, k)
                            == before.nodes[j].state;
                    assert(after.input_state(inputs, k) == after.nodes[j].state);
                },
                _ => {},
            }
        },
        KindView::Then { parent, stage } => {},
    }
}

/// At rest, each promise is in a state that it can have come to, and is not
/// settled by the promises that it depends on.
pub(crate) proof fn lemma_at_rest_at<F>(s: SchedulerView<F>, i: int)
    requires
        s.wf(),
        0 <= i < s.nodes.len(),
    ensures
        s.sound_node(i),
        !s.forced(i),
{
}

/// One turn of one promise keeps every promise in a state that it can have
/// come to, and lowers the number of pending promises by one if the promise
/// settles.
pub(crate) proof fn lemma_force<F>(s: SchedulerView<F>, i: int)
    requires
        s.sound(),
        0 <= i < s.nodes.len(),
    ensures
        s.force(i).sound(),
        s.force(i).nodes.len() == s.nodes.len(),
        s.forced(i) ==> s.force(i).pending_count() + 1 == s.pending_count(),
        !s.forced(i) ==> s.force(i) == s,
{
    if s.forced(i) {
        let after = s.force(i);
        assert(s.sound_node(i));
        lemma_others_stay_sound(s, after, i);
        match s.nodes[i].kind {
            KindView::Root => {},
            KindView::All(inputs) => {
                assert forall|k: int| 0 <= k < inputs.len() implies after.input_state(inputs, k)
                    == s.input_state(inputs, k) by {
                    assert(inputs[k] < i);
                }
                if exists|k: int| s.first_rejected(inputs, k) {
                    let k = choose|k: int| s.first_rejected(inputs, k);
                    assert(after.input_state(inputs, k) == after.nodes[i].state);
                } else {
                    assert forall|k: int| 0 <= k < inputs.len() implies #[trigger] after.input_state(
                        inputs,
                        k,
                    ) is Fulfilled by {
                        assert(s.input_state(inputs, k) is Fulfilled);
                    }
                }
            },
            KindView::Then { parent, stage } => {},
        }
        assert(after.sound_node(i));
        lemma_pending_drops_upto(s, after, i, s.nodes.len() as int);
    }
}

/// Settling one more promise that the promises it depends on settle keeps
/// up that the state comes from `entry` by such settling alone.
proof fn lemma_force_keeps_settling<F>(entry: SchedulerView<F>, before: SchedulerView<F>, i: int)
    requires
        entry.settles_into(before),
        before.sound(),
        0 <= i < before.nodes.len(),
    ensures
        entry.settles_into(before.force(i)),
{
    let after = before.force(i);
    if before.forced(i) {
        assert(before.sound_node(i));
        assert forall|j: int| 0 <= j < entry.nodes.len() implies {
            ||| #[trigger] after.nodes[j] == entry.nodes[j]
            ||| {
                &&& entry.nodes[j].state is Pending
                &&& !(entry.nodes[j].kind is Root)
                &&& !(after.nodes[j].state is Pending)
                &&& after.nodes[j].kind == SchedulerView::<F>::settled_kind(entry.nodes[j].kind)
                &&& after.nodes[j].callback is None
                &&& entry.nodes[j].kind matches KindView::Then { parent, stage } ==> stage
                    != Stage::Running && (stage == Stage::Waiting
                    ==> after.nodes[parent as int].state is Rejected)
            }
        } by {
            assert(before.nodes[j] == entry.nodes[j] || !(before.nodes[j].state is Pending));
            assert(before.sound_node(j));
            if j == i {
                assert(before.nodes[j] == entry.nodes[j]);
                match entry.nodes[j].kind {
                    KindView::Then { parent, stage } => {
                        assert(parent < i);
                        assert(after.nodes[parent as int] == before.nodes[parent as int]);
                    },
                    _ => {},
                }
            } else {
                assert(after.nodes[j] == before.nodes[j]);
                if before.nodes[j] != entry.nodes[j] {
                    match entry.nodes[j].kind {
                        KindView::Then { parent, stage } => {
                            assert(parent < j);
                            if stage == Stage::Waiting {
                                assert(before.nodes[parent as int].state is Rejected);
                                assert(after.nodes[parent as int] == before.nodes[parent as int]);
                            }
                        },
                        _ => {},
                    }
                }
            }
        }
    }
}

/// One round of turns keeps every promise in a state that it can have come
/// to and settles pending promises only. If it settles none, nothing was to
/// be settled among the promises that had their turn.
pub(crate) proof fn lemma_sweep<F>(s: SchedulerView<F>, n: int)
    requires
        s.sound(),
        0 <= n <= s.nodes.len(),
    ensures
        s.sweep(n).sound(),
        s.sweep(n).nodes.len() == s.nodes.len(),
        s.settles_into(s.sweep(n)),
        s.sweep(n).pending_count() <= s.pending_count(),
        s.sweep(n).pending_count() == s.pending_count() ==> s.sweep(n) == s && forall|j: int|
            0 <= j < n ==> !#[trigger] s.forced(j),
    decreases n,
{
    if n > 0 {
        lemma_sweep(s, n - 1);
        let before = s.sweep(n - 1);
        lemma_force(before, n - 1);
        lemma_force_keeps_settling(s, before, n - 1);
    }
}

/// Settling in two steps is settling: what comes from a state by settling
/// pending promises, and from there again, comes from the first state so.
proof fn lemma_settles_transitive<F>(
    first: SchedulerView<F>,
    second: SchedulerView<F>,
    third: SchedulerView<F>,
)
    requires
        first.settles_into(second),
        second.settles_into(third),
        second.sound(),
    ensures
        first.settles_into(third),
{
    assert forall|i: int| 0 <= i < first.nodes.len() implies {
        ||| #[trigger] third.nodes[i] == first.nodes[i]
        ||| {
            &&& first.nodes[i].state is Pending
            &&& !(first.nodes[i].kind is Root)
            &&& !(third.nodes[i].state is Pending)
            &&& third.nodes[i].kind == SchedulerView::<F>::settled_kind(first.nodes[i].kind)
            &&& third.nodes[i].callback is None
            &&& first.nodes[i].kind matches KindView::Then { parent, stage } ==> stage
                != Stage::Running && (stage == Stage::Waiting
                ==> third.nodes[parent as int].state is Rejected)
        }
    } by {
        assert(second.nodes[i] == first.nodes[i] || !(second.nodes[i].state is Pending));
        assert(third.nodes[i] == second.nodes[i] || second.nodes[i].state is Pending);
        assert(second.sound_node(i));
        if second.nodes[i] != first.nodes[i] {
            match first.nodes[i].kind {
                KindView::Then { parent, stage } => {
                    assert(parent < i);
                    if stage == Stage::Waiting {
                        assert(second.nodes[parent as int].state is Rejected);
                        assert(third.nodes[parent as int] == second.nodes[parent as int]
                            || second.nodes[parent as int].state is Pending);
                    }
                },
                _ => {},
            }
        }
    }
}

/// From a state in which every promise can have come to its state, the
/// rounds of turns end in a state at rest, which comes from the first by
/// settling pending promises that depend on others, and by nothing else.
pub proof fn lemma_at_rest<F>(s: SchedulerView<F>)
    requires
        s.sound(),
    ensures
        s.at_rest().wf(),
        s.at_rest().nodes.len() == s.nodes.len(),
        s.settles_into(s.at_rest()),
        s.wf() ==> s.at_rest() == s,
    decreases s.pending_count(),
{
    let n = s.nodes.len() as int;
    let next = s.sweep(n);
    lemma_sweep(s, n);
    if next.pending_count() < s.pending_count() {
        lemma_at_rest(next);
        lemma_settles_transitive(s, next, next.at_rest());
        if s.wf() {
            lemma_sweep_at_rest(s, n);
        }
    }
}

/// A round of turns changes nothing in a state at rest.
proof fn lemma_sweep_at_rest<F>(s: SchedulerView<F>, n: int)
    requires
        s.wf(),
        0 <= n <= s.nodes.len(),
    ensures
        s.sweep(n) == s,
    decreases n,
{
    if n > 0 {
        lemma_sweep_at_rest(s, n - 1);
        lemma_at_rest_at(s, n - 1);
    }
}

/// A step that settles pending promises only, from a state that could come
/// after another, leads to a state that can come after that other.
proof fn lemma_settling_evolves<F>(
    first: SchedulerView<F>,
    second: SchedulerView<F>,
    third: SchedulerView<F>,
)
    requires
        first.evolves(second),
        second.settles_into(third),
    ensures
        first.evolves(third),
{
    assert forall|i: int| 0 <= i < first.nodes.len() implies {
        &&& !(first.nodes[i].state is Pending) ==> (#[trigger] third.nodes[i]).state
            == first.nodes[i].state
        &&& first.nodes[i].callback is None ==> third.nodes[i].callback is None
        &&& match first.nodes[i].kind {
            KindView::Root => third.nodes[i].kind is Root,
            KindView::All(inputs) => third.nodes[i].kind == first.nodes[i].kind,
            KindView::Then { parent, stage } => third.nodes[i].kind is Then
                && third.nodes[i].kind->parent == parent,
        }
    } by {
        assert(third.nodes[i] == second.nodes[i] || second.nodes[i].state is Pending);
    }
}

/// `Promise::new` leaves the scheduler at rest and changes no promise.
pub proof fn lemma_created<F>(s: SchedulerView<F>)
    requires
        s.wf(),
    ensures
        s.created().wf(),
        s.evolves(s.created()),
{
    let after = s.created();
    assert forall|j: int|
        #![trigger after.sound_node(j)]
        #![trigger after.forced(j)]
        0 <= j < after.nodes.len() implies after.sound_node(j) && !after.forced(j) by {
        if j < s.nodes.len() {
            lemma_at_rest_at(s, j);
            lemma_node_unaffected(s, after, j);
        }
    }
}

/// `Promise::all` leaves the scheduler at rest and changes no promise.
pub proof fn lemma_combined<F>(s: SchedulerView<F>, inputs: Seq<usize>)
    requires
        s.wf(),
        forall|k: int| 0 <= k < inputs.len() ==> #[trigger] inputs[k] < s.nodes.len(),
    ensures
        s.combined(inputs).wf(),
        s.evolves(s.combined(inputs)),
{
    let after = s.combined(inputs);
    let i = s.nodes.len() as int;
    assert forall|k: int| 0 <= k < inputs.len() implies #[trigger] after.input_state(inputs, k)
        == s.input_state(inputs, k) by {
        assert(inputs[k] < s.nodes.len());
    }
    lemma_verdict_same(s, after, inputs);
    if exists|c: int| s.first_rejected(inputs, c) {
        let c = choose|c: int| s.first_rejected(inputs, c);
        assert(after.input_state(inputs, c) == after.nodes[i].state);
    }
    assert(after.sound_node(i));
    assert forall|j: int|
        #![trigger after.sound_node(j)]
        #![trigger after.forced(j)]
        0 <= j < after.nodes.len() implies after.sound_node(j) && !after.forced(j) by {
        if j < s.nodes.len() {
            lemma_at_rest_at(s, j);
            lemma_node_unaffected(s, after, j);
        }
    }
}

/// `Promise::then` leaves the scheduler at rest and changes no promise.
pub proof fn lemma_chained<F>(s: SchedulerView<F>, parent: Promise, callback: F)
    requires
        s.wf(),
        s.contains(parent),
    ensures
        s.chained(parent, callback).wf(),
        s.evolves(s.chained(parent, callback)),
{
    let after = s.chained(parent, callback);
    assert(after.nodes[parent.id as int] == s.nodes[parent.id as int]);
    assert forall|j: int|
        #![trigger after.sound_node(j)]
        #![trigger after.forced(j)]
        0 <= j < after.nodes.len() implies after.sound_node(j) && !after.forced(j) by {
        if j < s.nodes.len() {
            lemma_at_rest_at(s, j);
            lemma_node_unaffected(s, after, j);
        }
    }
}

/// The use of a capability leaves the scheduler at rest. If the capability
/// settles its promise, the promise is settled as the capability has it,
/// and the rest of the state comes from settling pending promises that
/// depend on others; the capability is spent either way.
pub proof fn lemma_settled<F>(s: SchedulerView<F>, capability: PromiseCallback, value: ValueView)
    requires
        s.wf(),
    ensures
        s.settled(capability, value).wf(),
        s.evolves(s.settled(capability, value)),
        !s.settled(capability, value).open_to(capability),
        s.open_to(capability) ==> s.settled(capability, value).state(capability.promise)
            == SchedulerView::<F>::settlement_by(capability, value),
        s.open_to(capability) ==> s.with_state(
            capability.promise.id as int,
            SchedulerView::<F>::settlement_by(capability, value),
        ).settles_into(s.settled(capability, value)),
{
    if s.open_to(capability) {
        let i = capability.promise.id as int;
        let middle = s.with_state(i, SchedulerView::<F>::settlement_by(capability, value));
        lemma_others_stay_sound(s, middle, i);
        assert(s.sound_node(i));
        assert(middle.sound_node(i));
        lemma_at_rest(middle);
        assert(s.evolves(middle));
        lemma_settling_evolves(s, middle, middle.at_rest());
    }
}

/// Handing out the continuation that is due leaves the scheduler at rest
/// and settles no promise.
pub proof fn lemma_handed_out<F>(s: SchedulerView<F>, i: int)
    requires
        s.wf(),
        0 <= i < s.nodes.len(),
        s.ready(i),
    ensures
        s.handed_out(i).wf(),
        s.evolves(s.handed_out(i)),
        !s.handed_out(i).ready(i),
{
    let after = s.handed_out(i);
    lemma_at_rest_at(s, i);
    assert forall|j: int|
        #![trigger after.sound_node(j)]
        #![trigger after.forced(j)]
        0 <= j < after.nodes.len() implies after.sound_node(j) && !after.forced(j) by {
        lemma_at_rest_at(s, j);
        if j != i {
            lemma_node_unaffected(s, after, j);
        }
    }
}

/// The report of what a continuation returned leaves the scheduler at rest.
/// If the continuation was running, the rest of the state comes from
/// settling pending promises that depend on others.
pub proof fn lemma_finished<F>(s: SchedulerView<F>, promise: Promise, outcome: OutcomeView)
    requires
        s.wf(),
        outcome matches OutcomeView::Chained(leader) ==> s.contains(leader),
    ensures
        s.finished(promise, outcome).wf(),
        s.evolves(s.finished(promise, outcome)),
        !s.finished(promise, outcome).running(promise),
        s.running(promise) ==> s.returned(promise.id as int, outcome).settles_into(
            s.finished(promise, outcome),
        ),
{
    if s.running(promise) {
        let i = promise.id as int;
        let middle = s.returned(i, outcome);
        assert(s.sound_node(i));
        lemma_others_stay_sound(s, middle, i);
        assert(middle.sound_node(i));
        lemma_at_rest(middle);
        assert(s.evolves(middle));
        lemma_settling_evolves(s, middle, middle.at_rest());
    }
}

/// Handing out is one step: the continuation that `next_job` hands out is
/// the one that the step `HandOut` hands out, and where none is due the step
/// changes nothing.
pub proof fn lemma_hand_out_is_step<F>(s: SchedulerView<F>, i: int)
    ensures
        s.first_ready(i) ==> s.step(Step::HandOut) == s.handed_out(i),
        (forall|j: int| 0 <= j < s.nodes.len() ==> !#[trigger] s.ready(j)) ==> s.step(
            Step::HandOut,
        ) == s,
{
    if s.first_ready(i) {
        let chosen = choose|j: int| s.first_ready(j);
        if chosen < i {
            assert(!s.ready(chosen));
        }
        if i < chosen {
            assert(!s.ready(i));
        }
    }
    if forall|j: int| 0 <= j < s.nodes.len() ==> !#[trigger] s.ready(j) {
        if exists|j: int| s.first_ready(j) {
            let chosen = choose|j: int| s.first_ready(j);
            assert(!s.ready(chosen));
        }
    }
}

/// Every operation leaves the scheduler at rest, and what had happened
/// before it stays so.
pub proof fn lemma_step<F>(s: SchedulerView<F>, step: Step<F>)
    requires
        s.wf(),
    ensures
        s.step(step).wf(),
        s.evolves(s.step(step)),
{
    if s.admits(step) {
        match step {
            Step::Create => lemma_created(s),
            Step::Combine(inputs) => lemma_combined(s, inputs),
            Step::Chain(parent, callback) => lemma_chained(s, parent, callback),
            Step::Settle(capability, value) => lemma_settled(s, capability, value),
            Step::HandOut => {
                if exists|i: int| s.first_ready(i) {
                    lemma_handed_out(s, choose|i: int| s.first_ready(i));
                }
            },
            Step::Finish(promise, outcome) => lemma_finished(s, promise, outcome),
        }
    }
}

/// In every state that a scheduler comes to, by whatever operations in
/// whatever order, the scheduler is at rest, every promise that had settled
/// is as it settled, and no continuation that had been handed out is stored
/// again.
pub proof fn lemma_run<F>(s: SchedulerView<F>, steps: Seq<Step<F>>)
    requires
        s.wf(),
    ensures
        s.run(steps).wf(),
        s.evolves(s.run(steps)),
    decreases steps.len(),
{
    if steps.len() > 0 {
        let next = s.step(steps[0]);
        lemma_step(s, steps[0]);
        lemma_run(next, steps.drop_first());
        lemma_evolves_transitive(s, next, next.run(steps.drop_first()));
    }
}

/// A combination of promises waits for every one of them: it is fulfilled
/// exactly if each input is fulfilled, rejected exactly if some input is
/// rejected, and so pending as long as an input is pending and none is
/// rejected. Fulfilled, it carries no value of its own; rejected, it carries
/// the reason of a rejected input.
pub proof fn lemma_all_waits_for_every_input<F>(scheduler: SchedulerView<F>, all: Promise)
    requires
        scheduler.wf(),
        scheduler.contains(all),
        scheduler.nodes[all.id as int].kind is All,
    ensures
        ({
            let inputs = scheduler.nodes[all.id as int].kind->All_0;
            &&& scheduler.state(all) is Fulfilled <==> scheduler.all_fulfilled(inputs)
            &&& scheduler.state(all) is Rejected <==> scheduler.some_rejected(inputs)
            &&& scheduler.state(all) is Fulfilled ==> scheduler.state(all)
                == SettlementView::Fulfilled(ValueView::Undefined)
            &&& scheduler.state(all) is Rejected ==> exists|k: int|
                0 <= k < inputs.len() && #[trigger] scheduler.input_state(inputs, k)
                    == scheduler.state(all)
        }),
{
    let i = all.id as int;
    let inputs = scheduler.nodes[i].kind->All_0;
    lemma_at_rest_at(scheduler, i);
    match scheduler.nodes[i].state {
        SettlementView::Pending => {
            if scheduler.some_rejected(inputs) {
                let k = choose|k: int|
                    0 <= k < inputs.len() && #[trigger] scheduler.input_state(inputs, k) is Rejected;
                lemma_first_rejected_exists(scheduler, inputs, k);
            }
        },
        SettlementView::Fulfilled(value) => {
            if scheduler.some_rejected(inputs) {
                let k = choose|k: int|
                    0 <= k < inputs.len() && #[trigger] scheduler.input_state(inputs, k) is Rejected;
                assert(scheduler.input_state(inputs, k) is Fulfilled);
            }
        },
        SettlementView::Rejected(reason) => {
            let k = choose|k: int|
                0 <= k < inputs.len() && #[trigger] scheduler.input_state(inputs, k)
                    == scheduler.nodes[i].state;
            assert(scheduler.input_state(inputs, k) is Rejected);
        },
    }
}

/// In every state that a scheduler comes to, a combination that was made
/// before is fulfilled exactly if each of its inputs is fulfilled by then,
/// and rejected exactly if one of them is rejected by then. Once it has
/// settled it stays as it settled: it completes once.
pub proof fn lemma_all_waits_in_every_state<F>(
    scheduler: SchedulerView<F>,
    steps: Seq<Step<F>>,
    all: Promise,
)
    requires
        scheduler.wf(),
        scheduler.contains(all),
        scheduler.nodes[all.id as int].kind is All,
    ensures
        ({
            let inputs = scheduler.nodes[all.id as int].kind->All_0;
            let later = scheduler.run(steps);
            &&& later.contains(all)
            &&& later.nodes[all.id as int].kind == scheduler.nodes[all.id as int].kind
            &&& later.state(all) is Fulfilled <==> later.all_fulfilled(inputs)
            &&& later.state(all) is Rejected <==> later.some_rejected(inputs)
            &&& !(scheduler.state(all) is Pending) ==> later.state(all) == scheduler.state(all)
        }),
{
    let later = scheduler.run(steps);
    lemma_run(scheduler, steps);
    assert(later.nodes[all.id as int].kind == scheduler.nodes[all.id as int].kind);
    lemma_all_waits_for_every_input(later, all);
}

/// A combination of promises made by `Promise::new` completes with the last
/// of them, and not before: when a fulfilling capability settles one input,
/// the combination is fulfilled after that step exactly if every other
/// input was fulfilled before it. A combination that completed before the
/// step is as it was.
pub proof fn lemma_all_completes_with_last_input<F>(
    scheduler: SchedulerView<F>,
    all: Promise,
    capability: PromiseCallback,
    value: ValueView,
)
    requires
        scheduler.wf(),
        scheduler.contains(all),
        scheduler.nodes[all.id as int].kind is All,
        forall|k: int|
            0 <= k < scheduler.nodes[all.id as int].kind->All_0.len()
                ==> scheduler.nodes[(#[trigger] scheduler.nodes[all.id as int].kind->All_0[k]) as int].kind
                is Root,
        scheduler.open_to(capability),
        !capability.rejects,
    ensures
        ({
            let inputs = scheduler.nodes[all.id as int].kind->All_0;
            let next = scheduler.settled(capability, value);
            &&& next.state(all) is Fulfilled <==> forall|k: int|
                0 <= k < inputs.len() && inputs[k] != capability.promise.id
                    ==> #[trigger] scheduler.input_state(inputs, k) is Fulfilled
            &&& !(scheduler.state(all) is Pending) ==> next.state(all) == scheduler.state(all)
        }),
{
    let i = all.id as int;
    let inputs = scheduler.nodes[i].kind->All_0;
    let next = scheduler.settled(capability, value);
    let middle = scheduler.with_state(
        capability.promise.id as int,
        SchedulerView::<F>::settlement_by(capability, value),
    );
    lemma_settled(scheduler, capability, value);
    lemma_at_rest_at(scheduler, i);
    assert(next.nodes[i].kind == scheduler.nodes[i].kind);
    lemma_all_waits_for_every_input(next, all);
    assert forall|k: int| 0 <= k < inputs.len() implies #[trigger] next.input_state(inputs, k) == (
    if inputs[k] == capability.promise.id {
        SettlementView::Fulfilled(value)
    } else {
        scheduler.input_state(inputs, k)
    }) by {
        let at = inputs[k] as int;
        assert(inputs[k] < i);
        assert(scheduler.nodes[at].kind is Root);
        assert(next.nodes[at] == middle.nodes[at]);
    }
    if next.state(all) is Fulfilled {
        assert forall|k: int|
            0 <= k < inputs.len() && inputs[k] != capability.promise.id
                implies #[trigger] scheduler.input_state(inputs, k) is Fulfilled by {
            assert(next.input_state(inputs, k) is Fulfilled);
        }
    }
    if forall|k: int|
        0 <= k < inputs.len() && inputs[k] != capability.promise.id
            ==> #[trigger] scheduler.input_state(inputs, k) is Fulfilled {
        assert forall|k: int| 0 <= k < inputs.len() implies #[trigger] next.input_state(inputs, k)
            is Fulfilled by {
            if inputs[k] != capability.promise.id {
                assert(scheduler.input_state(inputs, k) is Fulfilled);
            }
        }
    }
}

/// A pending promise made by `Promise::new` is fulfilled by the use of
/// fulfilling capabilities exactly if its own is among them, and is pending
/// else.
pub proof fn lemma_completed_root<F>(
    scheduler: SchedulerView<F>,
    capabilities: Seq<PromiseCallback>,
    promise: Promise,
)
    requires
        scheduler.wf(),
        scheduler.contains(promise),
        scheduler.nodes[promise.id as int].kind is Root,
        scheduler.state(promise) is Pending,
        forall|j: int| 0 <= j < capabilities.len() ==> !(#[trigger] capabilities[j]).rejects,
    ensures
        scheduler.completed(capabilities).wf(),
        scheduler.evolves(scheduler.completed(capabilities)),
        SchedulerView::<F>::fulfilled_by(capabilities, promise.id) ==> scheduler.completed(
            capabilities,
        ).state(promise) is Fulfilled,
        !SchedulerView::<F>::fulfilled_by(capabilities, promise.id) ==> scheduler.completed(
            capabilities,
        ).state(promise) is Pending,
    decreases capabilities.len(),
{
    if capabilities.len() > 0 {
        let first = capabilities[0];
        let rest = capabilities.drop_first();
        let next = scheduler.settled(first, ValueView::Undefined);
        let last = next.completed(rest);
        lemma_settled(scheduler, first, ValueView::Undefined);
        assert(next.nodes[promise.id as int].kind is Root);
        assert forall|j: int| 0 <= j < rest.len() implies !(#[trigger] rest[j]).rejects by {
            assert(rest[j] == capabilities[j + 1]);
        }
        if first.promise == promise {
            assert(scheduler.open_to(first));
            lemma_completed_any(next, rest);
            assert(last.nodes[promise.id as int].state == next.nodes[promise.id as int].state);
            assert(SchedulerView::<F>::fulfilled_by(capabilities, promise.id));
        } else {
            if scheduler.open_to(first) {
                let middle = scheduler.with_state(
                    first.promise.id as int,
                    SchedulerView::<F>::settlement_by(first, ValueView::Undefined),
                );
                assert(next.nodes[promise.id as int] == middle.nodes[promise.id as int]);
            }
            lemma_completed_root(next, rest, promise);
            if SchedulerView::<F>::fulfilled_by(capabilities, promise.id) {
                let j = choose|j: int|
                    0 <= j < capabilities.len() && (#[trigger] capabilities[j]).promise.id
                        == promise.id && !capabilities[j].rejects;
                assert(rest[j - 1] == capabilities[j]);
            }
            if SchedulerView::<F>::fulfilled_by(rest, promise.id) {
                let j = choose|j: int|
                    0 <= j < rest.len() && (#[trigger] rest[j]).promise.id == promise.id
                        && !rest[j].rejects;
                assert(capabilities[j + 1] == rest[j]);
            }
        }
        lemma_evolves_transitive(scheduler, next, last);
    }
}

/// The use of capabilities, one after the other, leaves the scheduler at
/// rest, and what had happened before stays so.
pub proof fn lemma_completed_any<F>(scheduler: SchedulerView<F>, capabilities: Seq<PromiseCallback>)
    requires
        scheduler.wf(),
    ensures
        scheduler.completed(capabilities).wf(),
        scheduler.evolves(scheduler.completed(capabilities)),
    decreases capabilities.len(),
{
    if capabilities.len() > 0 {
        let next = scheduler.settled(capabilities[0], ValueView::Undefined);
        lemma_settled(scheduler, capabilities[0], ValueView::Undefined);
        lemma_completed_any(next, capabilities.drop_first());
        lemma_evolves_transitive(scheduler, next, next.completed(capabilities.drop_first()));
    }
}

/// A combination of pending promises made by `Promise::new` completes
/// exactly once the fulfilling capability of every one of them has been
/// used, and not before: as long as one is outstanding the combination is
/// pending.
pub proof fn lemma_all_completes_when_every_callback_fired<F>(
    scheduler: SchedulerView<F>,
    all: Promise,
    capabilities: Seq<PromiseCallback>,
)
    requires
        scheduler.wf(),
        scheduler.contains(all),
        scheduler.nodes[all.id as int].kind is All,
        forall|k: int|
            0 <= k < scheduler.nodes[all.id as int].kind->All_0.len() ==> {
                let at = #[trigger] scheduler.nodes[all.id as int].kind->All_0[k];
                scheduler.nodes[at as int].kind is Root && scheduler.nodes[at as int].state
                    is Pending
            },
        forall|j: int| 0 <= j < capabilities.len() ==> !(#[trigger] capabilities[j]).rejects,
    ensures
        ({
            let inputs = scheduler.nodes[all.id as int].kind->All_0;
            let later = scheduler.completed(capabilities);
            let every = forall|k: int|
                0 <= k < inputs.len() ==> SchedulerView::<F>::fulfilled_by(
                    capabilities,
                    #[trigger] inputs[k],
                );
            &&& every ==> later.state(all) == SettlementView::Fulfilled(ValueView::Undefined)
            &&& !every ==> later.state(all) is Pending
        }),
{
    let i = all.id as int;
    let inputs = scheduler.nodes[i].kind->All_0;
    let later = scheduler.completed(capabilities);
    lemma_completed_any(scheduler, capabilities);
    lemma_at_rest_at(scheduler, i);
    assert(later.nodes[i].kind == scheduler.nodes[i].kind);
    lemma_all_waits_for_every_input(later, all);
    assert forall|k: int| 0 <= k < inputs.len() implies (#[trigger] later.input_state(inputs, k)
        is Fulfilled <==> SchedulerView::<F>::fulfilled_by(capabilities, inputs[k]))
        && !(later.input_state(inputs, k) is Rejected) by {
        assert(inputs[k] < i);
        lemma_completed_root(scheduler, capabilities, Promise { id: inputs[k] });
    }
    let every = forall|k: int|
        0 <= k < inputs.len() ==> SchedulerView::<F>::fulfilled_by(
            capabilities,
            #[trigger] inputs[k],
        );
    if every {
        assert forall|k: int| 0 <= k < inputs.len() implies #[trigger] later.input_state(inputs, k)
            is Fulfilled by {
            assert(SchedulerView::<F>::fulfilled_by(capabilities, inputs[k]));
        }
    } else {
        let k = choose|k: int|
            0 <= k < inputs.len() && !SchedulerView::<F>::fulfilled_by(
                capabilities,
                #[trigger] inputs[k],
            );
        assert(!(later.input_state(inputs, k) is Fulfilled));
        if later.some_rejected(inputs) {
            let r = choose|r: int|
                0 <= r < inputs.len() && #[trigger] later.input_state(inputs, r) is Rejected;
            assert(!(later.input_state(inputs, r) is Rejected));
        }
    }
}

/// A promise settles once: a promise that has settled is found as it
/// settled in every state that the scheduler comes to.
pub proof fn lemma_settled_stays<F>(
    scheduler: SchedulerView<F>,
    steps: Seq<Step<F>>,
    promise: Promise,
)
    requires
        scheduler.wf(),
        scheduler.contains(promise),
        !(scheduler.state(promise) is Pending),
    ensures
        scheduler.run(steps).contains(promise),
        scheduler.run(steps).state(promise) == scheduler.state(promise),
{
    lemma_run(scheduler, steps);
    assert(scheduler.run(steps).nodes[promise.id as int].state == scheduler.state(promise));
}

/// A capability settles its promise once: after it was used, neither it nor
/// the other capability of the same promise changes anything.
pub proof fn lemma_capability_settles_once<F>(
    scheduler: SchedulerView<F>,
    first: PromiseCallback,
    value: ValueView,
    second: PromiseCallback,
    other: ValueView,
)
    requires
        scheduler.wf(),
        second.promise == first.promise,
    ensures
        scheduler.settled(first, value).settled(second, other) == scheduler.settled(first, value),
{
    lemma_settled(scheduler, first, value);
    let next = scheduler.settled(first, value);
    assert(!next.open_to(first));
    assert(!next.open_to(second));
}

/// A chained promise settles as its parent and its continuation have it: it
/// is pending as long as the parent is pending or the continuation has not
/// returned, rejected as the parent if the parent is rejected, and the
/// continuation is stored exactly as long as it has not been handed out.
pub proof fn lemma_then_follows_parent<F>(scheduler: SchedulerView<F>, chained: Promise)
    requires
        scheduler.wf(),
        scheduler.contains(chained),
        scheduler.nodes[chained.id as int].kind is Then,
    ensures
        ({
            let node = scheduler.nodes[chained.id as int];
            let parent = scheduler.nodes[node.kind->parent as int];
            let stage = node.kind->stage;
            &&& node.kind->parent < chained.id
            &&& parent.state is Pending ==> node.state is Pending && stage == Stage::Waiting
            &&& parent.state is Rejected ==> node.state == parent.state && node.callback is None
            &&& node.callback is Some <==> stage == Stage::Waiting
            &&& stage == Stage::Waiting || stage == Stage::Running ==> node.state is Pending
            &&& stage matches Stage::Following(leader) ==> node.state
                == scheduler.nodes[leader as int].state
            &&& scheduler.ready(chained.id as int) <==> node.callback is Some
                && parent.state is Fulfilled
        }),
{
    let i = chained.id as int;
    lemma_at_rest_at(scheduler, i);
}

/// A continuation is handed out once: after it has left its promise, it is
/// neither stored nor due in any state that the scheduler comes to.
pub proof fn lemma_continuation_due_once<F>(
    scheduler: SchedulerView<F>,
    steps: Seq<Step<F>>,
    i: int,
)
    requires
        scheduler.wf(),
        0 <= i < scheduler.nodes.len(),
        scheduler.nodes[i].callback is None,
    ensures
        scheduler.run(steps).nodes[i].callback is None,
        !scheduler.run(steps).ready(i),
{
    let later = scheduler.run(steps);
    lemma_run(scheduler, steps);
    assert(later.nodes[i].callback is None);
    lemma_at_rest_at(later, i);
}

/// What has happened stays so: if one state can come after another, and a
/// third after that, the third can come after the first. So a promise that
/// has settled is found as it settled in every later state, and a
/// continuation that was handed out is never stored again.
pub proof fn lemma_evolves_transitive<F>(
    first: SchedulerView<F>,
    second: SchedulerView<F>,
    third: SchedulerView<F>,
)
    requires
        first.evolves(second),
        second.evolves(third),
    ensures
        first.evolves(third),
{
    assert forall|i: int| 0 <= i < first.nodes.len() implies {
        &&& !(first.nodes[i].state is Pending) ==> (#[trigger] third.nodes[i]).state
            == first.nodes[i].state
        &&& first.nodes[i].callback is None ==> third.nodes[i].callback is None
        &&& match first.nodes[i].kind {
            KindView::Root => third.nodes[i].kind is Root,
            KindView::All(inputs) => third.nodes[i].kind == first.nodes[i].kind,
            KindView::Then { parent, stage } => third.nodes[i].kind is Then
                && third.nodes[i].kind->parent == parent,
        }
    } by {
        assert(!(first.nodes[i].state is Pending) ==> second.nodes[i].state
            == first.nodes[i].state);
    }
}

} // verus!
