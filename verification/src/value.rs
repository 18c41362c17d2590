//! The tagged value domain stored in exports, sensors and contexts.
//!
//! The runtime moves opaque values between program sites; the primitive
//! domains that round-trip through the wire are signed integers, booleans,
//! strings and binary64 reals. A real is carried as its raw bit pattern, so
//! that the runtime itself never computes on floating point: producers and
//! consumers convert at the boundary.

use vstd::prelude::*;

verus! {

/// One value held by an export entry, a sensor or a context.
#[derive(Debug)]
pub enum Val {
    Int(i32),
    Bool(bool),
    Str(String),
    /// The raw bit pattern of a binary64 number.
    Real(u64),
}

/// The primitive domain a read requests.
#[derive(Debug, Clone, Copy, PartialEq, Eq, Structural)]
pub enum ValKind {
    Int,
    Bool,
    Str,
    Real,
}

/// The domain a value belongs to.
pub open spec fn kind_of(v: Val) -> ValKind {
    match v {
        Val::Int(_) => ValKind::Int,
        Val::Bool(_) => ValKind::Bool,
        Val::Str(_) => ValKind::Str,
        Val::Real(_) => ValKind::Real,
    }
}

/// Equality of two values: same domain, same content; strings by their
/// characters.
pub open spec fn val_eq(a: Val, b: Val) -> bool {
    match (a, b) {
        (Val::Int(x), Val::Int(y)) => x == y,
        (Val::Bool(x), Val::Bool(y)) => x == y,
        (Val::Str(x), Val::Str(y)) => x@ == y@,
        (Val::Real(x), Val::Real(y)) => x == y,
        _ => false,
    }
}

impl Val {
    /// The domain of the value.
    pub fn kind(&self) -> (k: ValKind)
        ensures
            k == kind_of(*self),
    {
        match self {
            Val::Int(_) => ValKind::Int,
            Val::Bool(_) => ValKind::Bool,
            Val::Str(_) => ValKind::Str,
            Val::Real(_) => ValKind::Real,
        }
    }
}

impl Clone for Val {
    fn clone(&self) -> (res: Self)
        ensures
            res == *self,
    {
        match self {
            Val::Int(x) => Val::Int(*x),
            Val::Bool(x) => Val::Bool(*x),
            Val::Str(x) => Val::Str(x.clone()),
            Val::Real(x) => Val::Real(*x),
        }
    }
}

impl PartialEq for Val {
    fn eq(&self, other: &Self) -> (r: bool) {
        match (self, other) {
            (Val::Int(x), Val::Int(y)) => *x == *y,
            (Val::Bool(x), Val::Bool(y)) => *x == *y,
            (Val::Str(x), Val::Str(y)) => *x == *y,
            (Val::Real(x), Val::Real(y)) => *x == *y,
            _ => false,
        }
    }
}

impl vstd::std_specs::cmp::PartialEqSpecImpl for Val {
    open spec fn obeys_eq_spec() -> bool {
        true
    }

    open spec fn eq_spec(&self, other: &Self) -> bool {
        val_eq(*self, *other)
    }
}

impl Eq for Val {

}

} // verus!
