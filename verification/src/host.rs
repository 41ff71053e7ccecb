//! Plain-value model of what crosses the boundary between this layer and the
//! host runtime.

use vstd::prelude::*;

verus! {

/// The host class that a referenced object is an instance of, as far as this
/// layer tells classes apart.
#[derive(Clone, Copy, PartialEq, Eq, Structural, Debug)]
pub enum HostClass {
    /// An instance of `Object` and of none of the classes below.
    Object,
    /// A callable object.
    Function,
    /// A promise.
    Promise,
    /// A worker of the cluster module.
    Worker,
    /// A child process of the child-process module.
    ChildProcess,
    /// An object without a prototype, which is not even an instance of `Object`.
    Bare,
}

impl HostClass {
    /// Whether an object of class `self` passes the host's instance test
    /// against `class`. Every class but `Bare` derives from `Object`.
    pub open spec fn derives_from(self, class: HostClass) -> bool {
        match class {
            HostClass::Object => self != HostClass::Bare,
            _ => self == class,
        }
    }

    /// The host's instance test for an object of class `self`.
    pub fn is_instance_of(self, class: HostClass) -> (b: bool)
        ensures
            b == self.derives_from(class),
    {
        match class {
            HostClass::Object => self != HostClass::Bare,
            _ => self == class,
        }
    }
}

/// A reference to an object that lives in the host.
#[derive(Clone, Copy, PartialEq, Eq, Structural, Debug)]
pub struct HostRef {
    /// The identity under which the host tracks the object.
    pub id: i32,
    /// The class of the object.
    pub class: HostClass,
}

/// A value that the host handed to this layer, or that this layer hands to
/// the host.
#[derive(PartialEq, Eq, Debug)]
pub enum HostValue {
    Undefined,
    Null,
    Bool(bool),
    /// A number without a fractional part, among the whole numbers that the
    /// host counts exactly.
    Integer(i64),
    /// Any other number, as the 64 bits of its floating-point form.
    Fraction(u64),
    Symbol,
    Text(String),
    Reference(HostRef),
}

/// The mathematical content of a `HostValue`.
pub enum ValueView {
    Undefined,
    Null,
    Bool(bool),
    Integer(int),
    Fraction(u64),
    Symbol,
    Text(Seq<char>),
    Reference(HostRef),
}

impl ValueView {
    /// The boolean that the value is, if it is one.
    pub open spec fn boolean(self) -> Option<bool> {
        match self {
            ValueView::Bool(b) => Some(b),
            _ => None,
        }
    }

    /// The number that the value is, if it is a whole number that a signed
    /// 32-bit integer can hold.
    pub open spec fn int32(self) -> Option<int> {
        match self {
            ValueView::Integer(n) if i32::MIN <= n <= i32::MAX => Some(n),
            _ => None,
        }
    }

    /// The characters of the value, if it is a string.
    pub open spec fn text(self) -> Option<Seq<char>> {
        match self {
            ValueView::Text(s) => Some(s),
            _ => None,
        }
    }

    /// The reference that the value is, if it is one.
    pub open spec fn reference(self) -> Option<HostRef> {
        match self {
            ValueView::Reference(r) => Some(r),
            _ => None,
        }
    }

    /// The reference that the value is, if it refers to an instance of `class`.
    pub open spec fn instance(self, class: HostClass) -> Option<HostRef> {
        match self {
            ValueView::Reference(r) if r.class.derives_from(class) => Some(r),
            _ => None,
        }
    }
}

impl View for HostValue {
    type V = ValueView;

    open spec fn view(&self) -> ValueView {
        match self {
            HostValue::Undefined => ValueView::Undefined,
            HostValue::Null => ValueView::Null,
            HostValue::Bool(b) => ValueView::Bool(*b),
            HostValue::Integer(n) => ValueView::Integer(*n as int),
            HostValue::Fraction(bits) => ValueView::Fraction(*bits),
            HostValue::Symbol => ValueView::Symbol,
            HostValue::Text(s) => ValueView::Text(s@),
            HostValue::Reference(r) => ValueView::Reference(*r),
        }
    }
}

impl Clone for HostValue {
    fn clone(&self) -> (copy: HostValue)
        ensures
            copy@ == self@,
    {
        match self {
            HostValue::Undefined => HostValue::Undefined,
            HostValue::Null => HostValue::Null,
            HostValue::Bool(b) => HostValue::Bool(*b),
            HostValue::Integer(n) => HostValue::Integer(*n),
            HostValue::Fraction(bits) => HostValue::Fraction(*bits),
            HostValue::Symbol => HostValue::Symbol,
            HostValue::Text(s) => HostValue::Text(s.clone()),
            HostValue::Reference(r) => HostValue::Reference(*r),
        }
    }
}

impl HostValue {
    /// Reads the value as a boolean. Nothing but a boolean converts.
    pub fn as_bool(&self) -> (b: Option<bool>)
        ensures
            b == self@.boolean(),
    {
        match self {
            HostValue::Bool(b) => Some(*b),
            _ => None,
        }
    }

    /// Reads the value as a signed 32-bit integer. A whole number converts
    /// exactly when it lies in the range of the type.
    pub fn as_i32(&self) -> (n: Option<i32>)
        ensures
            match n {
                Some(n) => self@.int32() == Some(n as int),
                None => self@.int32() is None,
            },
    {
        match self {
            HostValue::Integer(n) => {
                if -2147483648 <= *n && *n <= 2147483647 {
                    Some(*n as i32)
                } else {
                    None
                }
            },
            _ => None,
        }
    }

    /// Reads the value as a string. Nothing but a string converts.
    pub fn as_text(&self) -> (s: Option<&str>)
        ensures
            match s {
                Some(s) => self@.text() == Some(s@),
                None => self@.text() is None,
            },
    {
        match self {
            HostValue::Text(s) => Some(s.as_str()),
            _ => None,
        }
    }

    /// Reads the value as a reference to a host object.
    pub fn as_reference(&self) -> (r: Option<HostRef>)
        ensures
            r == self@.reference(),
    {
        match self {
            HostValue::Reference(r) => Some(*r),
            _ => None,
        }
    }

    /// Reads the value as a reference to an instance of `class`.
    pub fn as_instance(&self, class: HostClass) -> (r: Option<HostRef>)
        ensures
            r == self@.instance(class),
    {
        match self {
            HostValue::Reference(r) => {
                if r.class.is_instance_of(class) {
                    Some(*r)
                } else {
                    None
                }
            },
            _ => None,
        }
    }
}

} // verus!
