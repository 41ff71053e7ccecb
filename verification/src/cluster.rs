//! The cluster facade: the role of this process, the settings that workers
//! are forked with, the workers themselves and what is owed to whom when a
//! worker exits.
//!
//! The host forks the workers and reports their exit. This module keeps what
//! the host reported and decides what follows from it.

use vstd::prelude::*;
use crate::host::{HostClass, HostRef, HostValue, ValueView};
use crate::process::{Process, ProcessView};
use crate::{js_private, Registry, RegistryView};

verus! {

/// Loads the host's cluster module, unless it has been loaded.
///
/// `private` is what the host answers when this layer's private object is
/// made, and `loaded` is what it answers when the module is required; both
/// are looked at only if the module has not been loaded before. Returns the
/// module, or `None` if the host did not answer with an object; in that case
/// the next call tries again.
pub fn initialize(registry: &mut Registry, private: &HostValue, loaded: &HostValue) -> (module:
    Option<HostRef>)
    requires
        old(registry)@.cluster is None ==> old(registry)@.private is Some
            || private@.reference() is Some,
    ensures
        old(registry)@.cluster is Some ==> final(registry)@ == old(registry)@,
        old(registry)@.cluster is None ==> final(registry)@ == (RegistryView {
            private: old(registry)@.with_private(private@).private,
            cluster: loaded@.reference(),
            ..old(registry)@
        }),
        module == final(registry)@.cluster,
{
    if registry.cluster().is_none() {
        js_private(registry, private);
        registry.set_cluster(loaded.as_reference());
    }
    registry.cluster()
}

/// The host's cluster module, loaded as `initialize` loads it. The module
/// must have been loaded before, or the host must answer with objects now.
pub fn cluster(registry: &mut Registry, private: &HostValue, loaded: &HostValue) -> (module:
    HostRef)
    requires
        old(registry)@.cluster is None ==> loaded@.reference() is Some && (old(
            registry,
        )@.private is Some || private@.reference() is Some),
    ensures
        old(registry)@.cluster is Some ==> final(registry)@ == old(registry)@,
        old(registry)@.cluster is None ==> final(registry)@ == (RegistryView {
            private: old(registry)@.with_private(private@).private,
            cluster: loaded@.reference(),
            ..old(registry)@
        }),
        final(registry)@.cluster == Some(module),
{
    initialize(registry, private, loaded).unwrap()
}

/// The characters of an optional string.
pub open spec fn text_of(text: Option<String>) -> Option<Seq<char>> {
    match text {
        Some(text) => Some(text@),
        None => None,
    }
}

/// Copies an optional string.
fn copy_text(text: &Option<String>) -> (copy: Option<String>)
    ensures
        text_of(copy) == text_of(*text),
{
    match text {
        Some(text) => Some(text.clone()),
        None => None,
    }
}

/// Collects the settings that workers are forked with.
pub struct ClusterSettingsBuilder {
    executable: Option<String>,
}

impl View for ClusterSettingsBuilder {
    type V = Option<Seq<char>>;

    /// The executable that was set, if one was.
    closed spec fn view(&self) -> Option<Seq<char>> {
        text_of(self.executable)
    }
}

impl Default for ClusterSettingsBuilder {
    /// Creates a builder in which nothing is set.
    fn default() -> (builder: Self)
        ensures
            builder@ is None,
    {
        ClusterSettingsBuilder { executable: None }
    }
}

impl ClusterSettingsBuilder {
    /// Creates a builder in which nothing is set.
    pub fn new() -> (builder: Self)
        ensures
            builder@ is None,
    {
        ClusterSettingsBuilder { executable: None }
    }

    /// Sets the executable that workers run. A later call replaces an
    /// earlier one.
    pub fn exec(self, exec: String) -> (builder: Self)
        ensures
            builder@ == Some(exec@),
    {
        ClusterSettingsBuilder { executable: Some(exec) }
    }

    /// Makes the settings that hold what was set so far.
    pub fn build(&self) -> (settings: ClusterSettings)
        ensures
            settings@ == self@,
    {
        ClusterSettings { executable: copy_text(&self.executable) }
    }
}

/// Settings that workers are forked with. They do not change once built.
#[derive(Debug, PartialEq, Eq)]
pub struct ClusterSettings {
    executable: Option<String>,
}

impl View for ClusterSettings {
    type V = Option<Seq<char>>;

    /// The executable that workers run, if one is set.
    closed spec fn view(&self) -> Option<Seq<char>> {
        text_of(self.executable)
    }
}

impl Clone for ClusterSettings {
    fn clone(&self) -> (copy: ClusterSettings)
        ensures
            copy@ == self@,
    {
        ClusterSettings { executable: copy_text(&self.executable) }
    }
}

impl ClusterSettings {
    /// The executable that workers run, if one is set.
    pub fn exec(&self) -> (exec: Option<&str>)
        ensures
            match exec {
                Some(exec) => self@ == Some(exec@),
                None => self@ is None,
            },
    {
        match &self.executable {
            Some(exec) => Some(exec.as_str()),
            None => None,
        }
    }
}

/// A handle to a worker of a cluster.
#[derive(Clone, Copy, PartialEq, Eq, Structural, Debug)]
pub struct Worker {
    /// The place of the worker in its cluster, in order of appearance.
    pub slot: usize,
}

/// What a cluster knows of one worker.
pub struct WorkerView<F> {
    /// The object of the host that stands for the worker.
    pub reference: HostRef,
    /// The `process` member of that object, if it is an object.
    pub process: Option<ProcessView>,
    /// The executable that the worker was forked with, if one was set.
    pub executable: Option<Seq<char>>,
    /// Whether the worker was asked to disconnect.
    pub disconnecting: bool,
    /// Whether the worker has exited.
    pub exited: bool,
    /// The callbacks that are to be called when the worker exits, in the
    /// order in which they were registered.
    pub subscribers: Seq<F>,
}

impl<F> WorkerView<F> {
    /// The worker as the host hands it over: connected, alive and without
    /// subscribers.
    pub open spec fn fresh(
        reference: HostRef,
        process: Option<ProcessView>,
        executable: Option<Seq<char>>,
    ) -> Self {
        WorkerView {
            reference,
            process,
            executable,
            disconnecting: false,
            exited: false,
            subscribers: Seq::empty(),
        }
    }

    /// The worker after `callback` was registered for its exit. On a worker
    /// that has exited the callback would never be called, and is not kept.
    pub open spec fn subscribe(self, callback: F) -> Self {
        if self.exited {
            self
        } else {
            WorkerView { subscribers: self.subscribers.push(callback), ..self }
        }
    }

    /// The worker after the host reported its exit: every callback has left
    /// for its one call.
    pub open spec fn exit(self) -> Self {
        WorkerView { exited: true, subscribers: Seq::empty(), ..self }
    }

    /// The worker after it was asked to disconnect.
    pub open spec fn disconnect(self) -> Self {
        WorkerView { disconnecting: true, ..self }
    }

    /// A worker that has exited keeps no callback.
    pub open spec fn wf(self) -> bool {
        self.exited ==> self.subscribers.len() == 0
    }
}

/// What is owed when a worker has exited.
pub struct ExitNotice<F> {
    /// The exit code of the worker.
    pub code: i32,
    /// The name of the signal that ended the worker, if a signal did.
    pub signal: Option<String>,
    /// The callbacks to call with the code and the signal, in the order in
    /// which they were registered.
    pub callbacks: Vec<F>,
}

/// The state of a cluster.
pub struct ClusterView<F> {
    /// What the host holds as the `isMaster` member of its cluster module.
    pub is_master: ValueView,
    /// What the host holds as the `isWorker` member of its cluster module.
    pub is_worker: ValueView,
    /// The worker that this process is, if the host holds one as the
    /// `worker` member of its cluster module.
    pub current: Option<Worker>,
    /// The executable that the next worker is forked with, if one is set.
    pub executable: Option<Seq<char>>,
    /// The workers that are known, in order of appearance.
    pub workers: Seq<WorkerView<F>>,
}

impl<F> ClusterView<F> {
    /// Whether `worker` is a worker of this cluster.
    pub open spec fn contains(self, worker: Worker) -> bool {
        worker.slot < self.workers.len()
    }

    /// What the cluster knows of `worker`.
    pub open spec fn of(self, worker: Worker) -> WorkerView<F> {
        self.workers[worker.slot as int]
    }

    /// The state with what is known of `worker` replaced by `known`.
    pub open spec fn with_worker(self, worker: Worker, known: WorkerView<F>) -> Self {
        ClusterView { workers: self.workers.update(worker.slot as int, known), ..self }
    }

    /// The worker that this process is, is a worker of the cluster, and no
    /// worker that has exited keeps a callback.
    pub open spec fn wf(self) -> bool {
        &&& self.current matches Some(worker) ==> self.contains(worker)
        &&& forall|i: int| 0 <= i < self.workers.len() ==> (#[trigger] self.workers[i]).wf()
    }

    /// Whether this process is the master, if the host says so by a boolean.
    pub open spec fn master(self) -> Option<bool> {
        self.is_master.boolean()
    }

    /// Whether this process is a worker, if the host says so by a boolean.
    pub open spec fn worker(self) -> Option<bool> {
        self.is_worker.boolean()
    }

    /// Whether what the host holds describes one role: it says by booleans
    /// whether the process is the master and whether it is a worker, the two
    /// disagree, and it holds a worker object exactly for a worker.
    pub open spec fn coherent(self) -> bool {
        &&& self.master() is Some
        &&& self.worker() is Some
        &&& self.master() != self.worker()
        &&& self.worker() == Some(self.current is Some)
    }
}

/// What a cluster stores of one worker.
struct WorkerSlot<F> {
    reference: HostRef,
    process: Option<Process>,
    executable: Option<String>,
    disconnecting: bool,
    exited: bool,
    subscribers: Vec<F>,
}

/// What a `Process` that may be missing holds.
pub open spec fn process_of(process: Option<Process>) -> Option<ProcessView> {
    match process {
        Some(process) => Some(process@),
        None => None,
    }
}

impl<F> View for WorkerSlot<F> {
    type V = WorkerView<F>;

    closed spec fn view(&self) -> WorkerView<F> {
        WorkerView {
            reference: self.reference,
            process: process_of(self.process),
            executable: text_of(self.executable),
            disconnecting: self.disconnecting,
            exited: self.exited,
            subscribers: self.subscribers@,
        }
    }
}

/// The cluster module of the host as this process sees it, with callbacks of
/// type `F` for the exit of workers.
pub struct Cluster<F> {
    is_master: HostValue,
    is_worker: HostValue,
    current: Option<Worker>,
    executable: Option<String>,
    workers: Vec<WorkerSlot<F>>,
}

impl<F> View for Cluster<F> {
    type V = ClusterView<F>;

    closed spec fn view(&self) -> ClusterView<F> {
        ClusterView {
            is_master: self.is_master@,
            is_worker: self.is_worker@,
            current: self.current,
            executable: text_of(self.executable),
            workers: Seq::new(self.workers@.len(), |i: int| self.workers@[i]@),
        }
    }
}

impl<F> Cluster<F> {
    /// Takes down what the host holds in its cluster module: `is_master`,
    /// `is_worker` and `worker` are its members of those names, and `process`
    /// is the `process` member of the worker object, if that is an object.
    /// The worker object, where `worker` is one, becomes the first worker of
    /// the cluster. No executable is set.
    pub fn new(
        is_master: HostValue,
        is_worker: HostValue,
        worker: &HostValue,
        process: Option<Process>,
    ) -> (cluster: Self)
        ensures
            cluster@.is_master == is_master@,
            cluster@.is_worker == is_worker@,
            cluster@.executable is None,
            match worker@.instance(HostClass::Worker) {
                Some(reference) => cluster@.current == Some(Worker { slot: 0 })
                    && cluster@.workers == seq![
                    WorkerView::<F>::fresh(reference, process_of(process), None),
                ],
                None => cluster@.current is None && cluster@.workers.len() == 0,
            },
            cluster@.wf(),
    {
        let mut workers: Vec<WorkerSlot<F>> = Vec::new();
        let current = match worker.as_instance(HostClass::Worker) {
            Some(reference) => {
                workers.push(
                    WorkerSlot {
                        reference,
                        process,
                        executable: None,
                        disconnecting: false,
                        exited: false,
                        subscribers: Vec::new(),
                    },
                );
                Some(Worker { slot: 0 })
            },
            None => None,
        };
        let cluster = Cluster { is_master, is_worker, current, executable: None, workers };
        proof {
            match worker@.instance(HostClass::Worker) {
                Some(reference) => {
                    assert(cluster@.workers =~= seq![
                        WorkerView::<F>::fresh(reference, process_of(process), None),
                    ]);
                },
                None => {},
            }
        }
        cluster
    }

    /// Whether what the host holds describes one role.
    pub fn is_coherent(&self) -> (coherent: bool)
        ensures
            coherent == self@.coherent(),
    {
        match (self.is_master.as_bool(), self.is_worker.as_bool()) {
            (Some(master), Some(worker)) => master != worker && worker == self.current.is_some(),
            _ => false,
        }
    }

    /// What the host holds as the `isMaster` member of its cluster module.
    pub fn master_member(&self) -> (member: &HostValue)
        ensures
            member@ == self@.is_master,
    {
        &self.is_master
    }

    /// What the host holds as the `isWorker` member of its cluster module.
    pub fn worker_member(&self) -> (member: &HostValue)
        ensures
            member@ == self@.is_worker,
    {
        &self.is_worker
    }

    /// The number of workers that are known.
    pub fn len(&self) -> (n: usize)
        ensures
            n == self@.workers.len(),
    {
        self.workers.len()
    }

    /// Whether `worker` is a worker of this cluster.
    pub fn contains(&self, worker: Worker) -> (b: bool)
        ensures
            b == self@.contains(worker),
    {
        worker.slot < self.workers.len()
    }

    /// The executable that the next worker is forked with, if one is set.
    pub fn exec(&self) -> (exec: Option<&str>)
        ensures
            match exec {
                Some(exec) => self@.executable == Some(exec@),
                None => self@.executable is None,
            },
    {
        match &self.executable {
            Some(exec) => Some(exec.as_str()),
            None => None,
        }
    }

    /// The object of the host that stands for `worker`.
    pub fn reference(&self, worker: Worker) -> (reference: HostRef)
        requires
            self@.contains(worker),
        ensures
            reference == self@.of(worker).reference,
    {
        self.workers[worker.slot].reference
    }

    /// The executable that `worker` was forked with, if one was set.
    pub fn launched_with(&self, worker: Worker) -> (exec: Option<&str>)
        requires
            self@.contains(worker),
        ensures
            match exec {
                Some(exec) => self@.of(worker).executable == Some(exec@),
                None => self@.of(worker).executable is None,
            },
    {
        match &self.workers[worker.slot].executable {
            Some(exec) => Some(exec.as_str()),
            None => None,
        }
    }

    /// Whether `worker` was asked to disconnect.
    pub fn is_disconnecting(&self, worker: Worker) -> (disconnecting: bool)
        requires
            self@.contains(worker),
        ensures
            disconnecting == self@.of(worker).disconnecting,
    {
        self.workers[worker.slot].disconnecting
    }

    /// Whether `worker` has exited.
    pub fn has_exited(&self, worker: Worker) -> (exited: bool)
        requires
            self@.contains(worker),
        ensures
            exited == self@.of(worker).exited,
    {
        self.workers[worker.slot].exited
    }

    /// The number of callbacks that wait for the exit of `worker`.
    pub fn subscribers(&self, worker: Worker) -> (n: usize)
        requires
            self@.contains(worker),
        ensures
            n == self@.of(worker).subscribers.len(),
    {
        self.workers[worker.slot].subscribers.len()
    }
}

/// Takes note of the worker that the host forked: `returned` is what the
/// host answered to the request, and must refer to a worker; `process` is
/// the `process` member of that object, if it is an object. The worker is
/// recorded with the executable that is set at this moment.
pub fn fork<F>(cluster: &mut Cluster<F>, returned: &HostValue, process: Option<Process>) -> (worker:
    Worker)
    requires
        old(cluster)@.wf(),
        returned@.instance(HostClass::Worker) is Some,
    ensures
        worker.slot == old(cluster)@.workers.len(),
        final(cluster)@ == (ClusterView {
            workers: old(cluster)@.workers.push(
                WorkerView::fresh(
                    returned@.instance(HostClass::Worker).unwrap(),
                    process_of(process),
                    old(cluster)@.executable,
                ),
            ),
            ..old(cluster)@
        }),
        final(cluster)@.wf(),
{
    let ghost before = cluster@;
    let reference = returned.as_instance(HostClass::Worker).unwrap();
    let slot = cluster.workers.len();
    let executable = copy_text(&cluster.executable);
    cluster.workers.push(
        WorkerSlot {
            reference,
            process,
            executable,
            disconnecting: false,
            exited: false,
            subscribers: Vec::new(),
        },
    );
    proof {
        assert(cluster@.workers =~= before.workers.push(
            WorkerView::fresh(reference, process_of(process), before.executable),
        ));
    }
    Worker { slot }
}

/// Whether this process is the master. The host must say so by a boolean.
pub fn is_master<F>(cluster: &Cluster<F>) -> (master: bool)
    requires
        cluster@.master() is Some,
    ensures
        cluster@.master() == Some(master),
{
    cluster.is_master.as_bool().unwrap()
}

/// Whether this process is a worker. The host must say so by a boolean.
pub fn is_worker<F>(cluster: &Cluster<F>) -> (worker: bool)
    requires
        cluster@.worker() is Some,
    ensures
        cluster@.worker() == Some(worker),
{
    cluster.is_worker.as_bool().unwrap()
}

/// The worker that this process is, or `None` if the host holds no worker
/// object for this process, as in the master.
pub fn worker<F>(cluster: &Cluster<F>) -> (current: Option<Worker>)
    ensures
        current == cluster@.current,
{
    cluster.current
}

/// Changes the settings that workers are forked with from now on. What
/// `settings` leaves unset stays as it is; workers that were forked before
/// are not touched.
pub fn setup_master<F>(cluster: &mut Cluster<F>, settings: ClusterSettings)
    ensures
        final(cluster)@ == (ClusterView {
            executable: if settings@ is Some {
                settings@
            } else {
                old(cluster)@.executable
            },
            ..old(cluster)@
        }),
{
    match settings.executable {
        Some(exec) => {
            cluster.executable = Some(exec);
        },
        None => {},
    }
}

impl Worker {
    /// The process of the worker, as the host handed it over with the
    /// worker, if the host handed over an object.
    pub fn try_process<F>(&self, cluster: &Cluster<F>) -> (process: Option<Process>)
        requires
            cluster@.contains(*self),
        ensures
            process_of(process) == cluster@.of(*self).process,
    {
        match &cluster.workers[self.slot].process {
            Some(process) => Some(process.clone()),
            None => None,
        }
    }

    /// The process of the worker, as the host handed it over with the
    /// worker. The host must have handed over an object.
    pub fn process<F>(&self, cluster: &Cluster<F>) -> (process: Process)
        requires
            cluster@.contains(*self),
            cluster@.of(*self).process is Some,
        ensures
            cluster@.of(*self).process == Some(process@),
    {
        match &cluster.workers[self.slot].process {
            Some(process) => process.clone(),
            None => vstd::pervasive::unreached(),
        }
    }

    /// Takes note that the worker was asked to disconnect.
    pub fn disconnect<F>(&self, cluster: &mut Cluster<F>)
        requires
            old(cluster)@.contains(*self),
        ensures
            final(cluster)@ == old(cluster)@.with_worker(*self, old(cluster)@.of(*self).disconnect()),
            old(cluster)@.wf() ==> final(cluster)@.wf(),
    {
        let ghost before = cluster@;
        cluster.workers[self.slot].disconnecting = true;
        proof {
            assert(cluster@.workers =~= before.workers.update(
                self.slot as int,
                before.of(*self).disconnect(),
            ));
        }
    }

    /// Registers `callback` for the exit of the worker. It is handed out
    /// once, with the notice of that exit. For a worker that has exited it is
    /// not kept.
    pub fn on_exit<F>(&self, cluster: &mut Cluster<F>, callback: F)
        requires
            old(cluster)@.contains(*self),
        ensures
            final(cluster)@ == old(cluster)@.with_worker(
                *self,
                old(cluster)@.of(*self).subscribe(callback),
            ),
            old(cluster)@.wf() ==> final(cluster)@.wf(),
    {
        let ghost before = cluster@;
        if !cluster.workers[self.slot].exited {
            cluster.workers[self.slot].subscribers.push(callback);
        }
        proof {
            assert(cluster@.workers =~= before.workers.update(
                self.slot as int,
                before.of(*self).subscribe(callback),
            ));
        }
    }

    /// Takes note that the host reported the exit of the worker, with `code`
    /// as the exit code and `signal` as the signal. Hands out the callbacks
    /// that were registered, for one call each with the code and with the
    /// name of the signal, which is present exactly if `signal` is a string.
    /// `code` must be a number that a signed 32-bit integer can hold.
    pub fn exited<F>(&self, cluster: &mut Cluster<F>, code: &HostValue, signal: &HostValue) -> (notice:
        ExitNotice<F>)
        requires
            old(cluster)@.contains(*self),
            code@.int32() is Some,
        ensures
            code@.int32() == Some(notice.code as int),
            text_of(notice.signal) == signal@.text(),
            notice.callbacks@ == old(cluster)@.of(*self).subscribers,
            final(cluster)@ == old(cluster)@.with_worker(*self, old(cluster)@.of(*self).exit()),
            old(cluster)@.wf() ==> final(cluster)@.wf(),
    {
        let ghost before = cluster@;
        let code = code.as_i32().unwrap();
        let signal = match signal.as_text() {
            Some(name) => Some(name.to_owned()),
            None => None,
        };
        let mut callbacks: Vec<F> = Vec::new();
        core::mem::swap(&mut cluster.workers[self.slot].subscribers, &mut callbacks);
        cluster.workers[self.slot].exited = true;
        proof {
            assert(cluster.workers@[self.slot as int].subscribers@ =~= Seq::<F>::empty());
            assert(cluster@.workers =~= before.workers.update(
                self.slot as int,
                before.of(*self).exit(),
            ));
        }
        ExitNotice { code, signal, callbacks }
    }
}

/// In a process whose host describes one role, the process is the master
/// exactly if it is not a worker.
pub proof fn lemma_roles_complementary<F>(cluster: ClusterView<F>)
    requires
        cluster.coherent(),
    ensures
        cluster.master() is Some,
        cluster.worker() is Some,
        cluster.master().unwrap() != cluster.worker().unwrap(),
{
}

/// In a process whose host describes one role, the worker that the process
/// is can be had exactly if the process is a worker.
pub proof fn lemma_worker_present_in_worker<F>(cluster: ClusterView<F>)
    requires
        cluster.coherent(),
    ensures
        cluster.current is Some <==> cluster.worker() == Some(true),
        cluster.current is None <==> cluster.master() == Some(true),
{
}

/// A callback that is registered for the exit of a worker is handed out by
/// the first report of that exit, after the callbacks registered before it,
/// and by no later report.
pub proof fn lemma_exit_callback_once<F>(worker: WorkerView<F>, callback: F)
    requires
        worker.wf(),
        !worker.exited,
    ensures
        worker.subscribe(callback).subscribers == worker.subscribers.push(callback),
        worker.subscribe(callback).exit().subscribers.len() == 0,
        worker.subscribe(callback).exit().exit().subscribers.len() == 0,
        worker.exit().subscribe(callback) == worker.exit(),
        worker.subscribe(callback).exit().wf(),
{
}

} // verus!
