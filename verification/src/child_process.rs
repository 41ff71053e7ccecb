//! The child-process accessor, and the loading of the host's child-process
//! module.

use vstd::prelude::*;
use crate::host::{HostClass, HostRef, HostValue, ValueView};
use crate::{js_private, Registry, RegistryView};

verus! {

/// Loads the host's child-process module, unless it has been loaded.
///
/// `private` is what the host answers when this layer's private object is
/// made, and `loaded` is what it answers when the module is required; both
/// are looked at only if the module has not been loaded before. Returns the
/// module, or `None` if the host did not answer with an object; in that case
/// the next call tries again.
pub fn initialize(registry: &mut Registry, private: &HostValue, loaded: &HostValue) -> (module:
    Option<HostRef>)
    requires
        old(registry)@.child_process is None ==> old(registry)@.private is Some
            || private@.reference() is Some,
    ensures
        old(registry)@.child_process is Some ==> final(registry)@ == old(registry)@,
        old(registry)@.child_process is None ==> final(registry)@ == (RegistryView {
            private: old(registry)@.with_private(private@).private,
            child_process: loaded@.reference(),
            ..old(registry)@
        }),
        module == final(registry)@.child_process,
{
    if registry.child_process().is_none() {
        js_private(registry, private);
        registry.set_child_process(loaded.as_reference());
    }
    registry.child_process()
}

/// What a `ChildProcess` holds.
pub struct ChildProcessView {
    /// The object of the host that the handle refers to.
    pub reference: HostRef,
    /// What the host holds as the `pid` member of the object.
    pub pid: ValueView,
}

impl ChildProcessView {
    /// The process identifier, if the host holds a number for it that a
    /// signed 32-bit integer can hold.
    pub open spec fn process_id(self) -> Option<int> {
        self.pid.int32()
    }
}

/// A handle to a child process of the host, together with what the host
/// answered about it.
#[derive(Debug, PartialEq, Eq)]
pub struct ChildProcess {
    reference: HostRef,
    pid: HostValue,
}

impl View for ChildProcess {
    type V = ChildProcessView;

    closed spec fn view(&self) -> ChildProcessView {
        ChildProcessView { reference: self.reference, pid: self.pid@ }
    }
}

impl Clone for ChildProcess {
    fn clone(&self) -> (copy: ChildProcess)
        ensures
            copy@ == self@,
    {
        ChildProcess { reference: self.reference, pid: self.pid.clone() }
    }
}

impl ChildProcess {
    /// Takes `value` for a child process if it refers to an instance of the
    /// child-process class. `pid` is what the host holds as the `pid` member
    /// of that object.
    pub fn from_value(value: &HostValue, pid: HostValue) -> (child: Option<ChildProcess>)
        ensures
            match child {
                Some(child) => value@.instance(HostClass::ChildProcess) == Some(child@.reference)
                    && child@.pid == pid@,
                None => value@.instance(HostClass::ChildProcess) is None,
            },
    {
        match value.as_instance(HostClass::ChildProcess) {
            Some(reference) => Some(ChildProcess { reference, pid }),
            None => None,
        }
    }

    /// The object of the host that the handle refers to.
    pub fn reference(&self) -> (reference: HostRef)
        ensures
            reference == self@.reference,
    {
        self.reference
    }

    /// The process identifier, if the host holds a number for it that a
    /// signed 32-bit integer can hold.
    pub fn try_pid(&self) -> (pid: Option<i32>)
        ensures
            match pid {
                Some(pid) => self@.process_id() == Some(pid as int),
                None => self@.process_id() is None,
            },
    {
        self.pid.as_i32()
    }

    /// The process identifier. The host must hold a number for it that a
    /// signed 32-bit integer can hold.
    pub fn pid(&self) -> (pid: i32)
        requires
            self@.process_id() is Some,
        ensures
            self@.process_id() == Some(pid as int),
    {
        self.pid.as_i32().unwrap()
    }
}

} // verus!
