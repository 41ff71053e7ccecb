//! The process accessor: a view of an object of the host that looks like the
//! host's global `process`.

use vstd::prelude::*;
use crate::host::{HostClass, HostRef, HostValue, ValueView};

verus! {

/// What a `Process` holds.
pub struct ProcessView {
    /// The object of the host that the handle refers to.
    pub reference: HostRef,
    /// What the host holds as the `pid` member of the object.
    pub pid: ValueView,
    /// What the host answers when asked for the working directory.
    pub cwd: ValueView,
}

impl ProcessView {
    /// The process identifier, if the host holds a number for it that a
    /// signed 32-bit integer can hold.
    pub open spec fn process_id(self) -> Option<int> {
        self.pid.int32()
    }

    /// The working directory, if the host answers with a string.
    pub open spec fn directory(self) -> Option<Seq<char>> {
        self.cwd.text()
    }
}

/// A handle to an object of the host that looks like the host's global
/// `process`, together with what the host answered about it.
#[derive(Debug, PartialEq, Eq)]
pub struct Process {
    reference: HostRef,
    pid: HostValue,
    cwd: HostValue,
}

impl View for Process {
    type V = ProcessView;

    closed spec fn view(&self) -> ProcessView {
        ProcessView { reference: self.reference, pid: self.pid@, cwd: self.cwd@ }
    }
}

impl Clone for Process {
    fn clone(&self) -> (copy: Process)
        ensures
            copy@ == self@,
    {
        Process { reference: self.reference, pid: self.pid.clone(), cwd: self.cwd.clone() }
    }
}

impl Process {
    /// Takes `value` for a process if it refers to an instance of `Object`.
    /// `pid` and `cwd` are what the host holds as the `pid` member of that
    /// object and what it answers when its `cwd` member is called.
    pub fn from_value(value: &HostValue, pid: HostValue, cwd: HostValue) -> (process: Option<
        Process,
    >)
        ensures
            match process {
                Some(process) => value@.instance(HostClass::Object) == Some(process@.reference)
                    && process@.pid == pid@ && process@.cwd == cwd@,
                None => value@.instance(HostClass::Object) is None,
            },
    {
        match value.as_instance(HostClass::Object) {
            Some(reference) => Some(Process { reference, pid, cwd }),
            None => None,
        }
    }

    /// The object of the host that the handle refers to.
    pub fn reference(&self) -> (reference: HostRef)
        ensures
            reference == self@.reference,
    {
        self.reference
    }

    /// The process identifier, if the host holds a number for it that a
    /// signed 32-bit integer can hold.
    pub fn try_pid(&self) -> (pid: Option<i32>)
        ensures
            match pid {
                Some(pid) => self@.process_id() == Some(pid as int),
                None => self@.process_id() is None,
            },
    {
        self.pid.as_i32()
    }

    /// The process identifier. The host must hold a number for it that a
    /// signed 32-bit integer can hold.
    pub fn pid(&self) -> (pid: i32)
        requires
            self@.process_id() is Some,
        ensures
            self@.process_id() == Some(pid as int),
    {
        self.pid.as_i32().unwrap()
    }

    /// The working directory, if the host answers with a string.
    pub fn try_cwd(&self) -> (cwd: Option<String>)
        ensures
            match cwd {
                Some(cwd) => self@.directory() == Some(cwd@),
                None => self@.directory() is None,
            },
    {
        match self.cwd.as_text() {
            Some(text) => Some(text.to_owned()),
            None => None,
        }
    }

    /// The working directory. The host must answer with a string.
    pub fn cwd(&self) -> (cwd: String)
        requires
            self@.directory() is Some,
        ensures
            self@.directory() == Some(cwd@),
    {
        self.cwd.as_text().unwrap().to_owned()
    }
}

} // verus!
