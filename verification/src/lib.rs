//! Bindings to the node.js API for programs that run inside a host JavaScript
//! engine, written as verified decisions over plain values.
//!
//! Every operation of the host (reading a member, forking a worker, arming a
//! timer) is performed by the embedding program. This library holds what the
//! binding layer itself decides: how a value that the host answered is
//! interpreted, which callback is due on which event, when callback storage is
//! released and when a promise settles.
//!
//! - `host`: the plain values that cross the boundary to the host.
//! - `process`, `child_process`: read-only views of process objects.
//! - `cluster`: the role of the process, the settings and the workers.
//! - `timers`: one-shot and repeatable timers and their callback storage.
//! - `promise`: promises, kept by a cooperative scheduler; `schedule` holds
//!   the state of that scheduler and the laws of promises.
//!
//! This module holds the objects that are acquired once per process, and the
//! globals of the script.

use vstd::prelude::*;

pub mod child_process;
pub mod cluster;
pub mod host;
pub mod process;
pub mod promise;
pub mod schedule;
pub mod timers;

pub use crate::process::Process;
pub use crate::promise::{Promise, PromiseCallback};
pub use crate::timers::{clear_timeout, set_timeout};
use crate::host::{HostClass, HostRef, HostValue, ValueView};

verus! {

/// What a `Registry` holds.
pub struct RegistryView {
    /// This layer's private object in the host.
    pub private: Option<HostRef>,
    /// The host's cluster module.
    pub cluster: Option<HostRef>,
    /// The host's child-process module.
    pub child_process: Option<HostRef>,
}

impl RegistryView {
    /// The registry after this layer's private object was asked for, where
    /// `created` is what the host answered when the object was made: an
    /// object that is held already stays.
    pub open spec fn with_private(self, created: ValueView) -> Self {
        if self.private is Some {
            self
        } else {
            RegistryView { private: created.reference(), ..self }
        }
    }
}

/// The objects of the host that this layer acquires once and then keeps for
/// as long as the process lives.
pub struct Registry {
    private: Option<HostRef>,
    cluster: Option<HostRef>,
    child_process: Option<HostRef>,
}

impl View for Registry {
    type V = RegistryView;

    closed spec fn view(&self) -> RegistryView {
        RegistryView {
            private: self.private,
            cluster: self.cluster,
            child_process: self.child_process,
        }
    }
}

impl Registry {
    /// Creates a registry that holds nothing yet.
    pub fn new() -> (registry: Registry)
        ensures
            registry@ == (RegistryView { private: None, cluster: None, child_process: None }),
    {
        Registry { private: None, cluster: None, child_process: None }
    }

    /// This layer's private object in the host, if it is held.
    pub fn private(&self) -> (private: Option<HostRef>)
        ensures
            private == self@.private,
    {
        self.private
    }

    /// The host's cluster module, if it is held.
    pub fn cluster(&self) -> (module: Option<HostRef>)
        ensures
            module == self@.cluster,
    {
        self.cluster
    }

    /// The host's child-process module, if it is held.
    pub fn child_process(&self) -> (module: Option<HostRef>)
        ensures
            module == self@.child_process,
    {
        self.child_process
    }

    /// Replaces the cluster module that is held.
    pub(crate) fn set_cluster(&mut self, module: Option<HostRef>)
        ensures
            final(self)@ == (RegistryView { cluster: module, ..old(self)@ }),
    {
        self.cluster = module;
    }

    /// Replaces the child-process module that is held.
    pub(crate) fn set_child_process(&mut self, module: Option<HostRef>)
        ensures
            final(self)@ == (RegistryView { child_process: module, ..old(self)@ }),
    {
        self.child_process = module;
    }
}

/// This layer's private object in the host. It is made once: `created` is
/// what the host answers when the object is made, and is looked at only if
/// no object is held yet. One of the two must be an object.
pub fn js_private(registry: &mut Registry, created: &HostValue) -> (private: HostRef)
    requires
        old(registry)@.private is Some || created@.reference() is Some,
    ensures
        final(registry)@ == old(registry)@.with_private(created@),
        final(registry)@.private == Some(private),
{
    if registry.private.is_none() {
        registry.private = created.as_reference();
    }
    registry.private.unwrap()
}

/// The file path of the current script, where `value` is what the host
/// holds under `__filename`. The host must hold a string.
pub fn filename(value: &HostValue) -> (path: String)
    requires
        value@.text() is Some,
    ensures
        value@.text() == Some(path@),
{
    value.as_text().unwrap().to_owned()
}

/// The directory of the current script, where `value` is what the host
/// holds under `__dirname`. The host must hold a string.
pub fn dirname(value: &HostValue) -> (path: String)
    requires
        value@.text() is Some,
    ensures
        value@.text() == Some(path@),
{
    value.as_text().unwrap().to_owned()
}

/// The host's global `process`, where `value` is what the host holds under
/// that name, `pid` is the `pid` member of that object and `cwd` is what the
/// host answers when its `cwd` member is called. `value` must refer to an
/// instance of `Object`.
pub fn process(value: &HostValue, pid: HostValue, cwd: HostValue) -> (process: Process)
    requires
        value@.instance(HostClass::Object) is Some,
    ensures
        value@.instance(HostClass::Object) == Some(process@.reference),
        process@.pid == pid@,
        process@.cwd == cwd@,
{
    Process::from_value(value, pid, cwd).unwrap()
}

} // verus!
