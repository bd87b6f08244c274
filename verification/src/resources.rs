//! Handles to resources owned across the component boundary.
use vstd::prelude::*;
use std::marker::PhantomData;

verus! {

/// A typed handle to a resource, known by its representation id.
#[derive(Debug)]
pub struct Resource<T> {
    id: u32,
    _phantom: PhantomData<Box<T>>,
}

impl<T> View for Resource<T> {
    type V = u32;

    /// The resource's representation id.
    closed spec fn view(&self) -> u32 {
        self.id
    }
}

impl<T> Resource<T> {
    /// An owned handle to the resource with representation id `id`.
    pub fn new_own(id: u32) -> (r: Self)
        ensures
            r@ == id,
    {
        Resource { id, _phantom: PhantomData }
    }

    /// The representation id of the resource.
    pub fn rep(&self) -> (r: u32)
        ensures
            r == self@,
    {
        self.id
    }
}

impl<T> Clone for Resource<T> {
    /// Another handle to the same resource.
    fn clone(&self) -> (r: Self)
        ensures
            r@ == self@,
    {
        Resource { id: self.id, _phantom: PhantomData }
    }
}

/// A handle to a resource of a type not known statically.
#[derive(Debug, PartialEq, Eq, Structural, Clone, Copy)]
pub struct ResourceAny {
    pub(crate) id: u32,
}

impl View for ResourceAny {
    type V = u32;

    /// The resource's representation id.
    closed spec fn view(&self) -> u32 {
        self.id
    }
}

impl ResourceAny {
    /// The representation id of the resource.
    pub fn rep(&self) -> (r: u32)
        ensures
            r == self@,
    {
        self.id
    }
}

/// Two handles of unknown type are equal exactly when their representation ids are.
pub proof fn law_rep_determines_handle(a: ResourceAny, b: ResourceAny)
    ensures
        (a == b) <==> (a@ == b@),
{
}

/// The type of a resource.
pub struct ResourceType;

impl ResourceType {
    /// The type of resources of type `T` defined by the host. Nothing is recorded.
    pub fn host<T>() {
    }
}

} // verus!
