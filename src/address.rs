use vstd::prelude::*;

verus! {

/// A raw memory location.
#[derive(Clone, Copy, Debug, PartialEq, Eq, Structural)]
pub struct Address {
    pub value: u64,
}

/// An opaque handle to a managed object, given by its address.
#[derive(Clone, Copy, Debug, PartialEq, Eq, Structural)]
pub struct ObjectReference {
    pub value: u64,
}

impl Address {
    pub fn from_usize(value: usize) -> (r: Address)
        ensures
            r.value == value as u64,
    {
        Address { value: value as u64 }
    }

    pub fn from_u64(value: u64) -> (r: Address)
        ensures
            r.value == value,
    {
        Address { value }
    }

    pub fn zero() -> (r: Address)
        ensures
            r.value == 0,
    {
        Address { value: 0 }
    }

    pub fn as_usize(&self) -> (r: usize)
        ensures
            r == self.value as usize,
    {
        self.value as usize
    }

    pub fn as_u64(&self) -> (r: u64)
        ensures
            r == self.value,
    {
        self.value
    }

    pub fn is_zero(&self) -> (r: bool)
        ensures
            r == (self.value == 0),
    {
        self.value == 0
    }

    pub fn add(&self, bytes: u64) -> (r: Address)
        requires
            self.value + bytes <= u64::MAX,
        ensures
            r.value == self.value + bytes,
    {
        Address { value: self.value + bytes }
    }

    pub fn to_object_reference(&self) -> (r: ObjectReference)
        ensures
            r.value == self.value,
    {
        ObjectReference { value: self.value }
    }
}

impl ObjectReference {
    pub fn from_u64(value: u64) -> (r: ObjectReference)
        ensures
            r.value == value,
    {
        ObjectReference { value }
    }

    pub fn value(&self) -> (r: u64)
        ensures
            r == self.value,
    {
        self.value
    }

    pub fn is_null(&self) -> (r: bool)
        ensures
            r == (self.value == 0),
    {
        self.value == 0
    }

    pub fn to_address(&self) -> (r: Address)
        ensures
            r.value == self.value,
    {
        Address { value: self.value }
    }
}

} // verus!
