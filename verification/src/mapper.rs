//! Functions from one message type to another, as values that can be kept
//! and shared.

use vstd::prelude::*;
use std::sync::Arc;

verus! {

/// Something that turns an `A` into a `B`.
pub trait Apply<A, B>: Send + Sync {
    /// Whether `a` may be handed over.
    spec fn accepts(&self, a: A) -> bool;

    /// Whether `b` is a result that `a` may be turned into.
    spec fn relates(&self, a: A, b: B) -> bool;

    fn call(&self, a: A) -> (b: B)
        requires
            self.accepts(a),
        ensures
            self.relates(a, b),
    ;
}

impl<A, B, F: Fn(A) -> B + Send + Sync> Apply<A, B> for F {
    open spec fn accepts(&self, a: A) -> bool {
        self.requires((a,))
    }

    open spec fn relates(&self, a: A, b: B) -> bool {
        self.ensures((a,), b)
    }

    fn call(&self, a: A) -> (b: B) {
        self(a)
    }
}

/// A function from `A` to `B` that accepts every `A` and can be kept, shared
/// and applied any number of times.
#[verifier::reject_recursive_types(A)]
#[verifier::reject_recursive_types(B)]
pub struct Mapper<A, B> {
    f: Arc<Box<dyn Apply<A, B>>>,
}

/// `Arc::clone`: a second handle to the allocation that `handle` points to.
/// The contract claims that both handles hold the same value.
#[verifier::external_body]
fn share<A, B>(handle: &Arc<Box<dyn Apply<A, B>>>) -> (r: Arc<Box<dyn Apply<A, B>>>)
    ensures
        r == *handle,
{
    Arc::clone(handle)
}

impl<A, B> Mapper<A, B> {
    #[verifier::type_invariant]
    spec fn accepts_all(self) -> bool {
        forall|a: A| self.f.accepts(a)
    }

    /// Whether `b` is a result that this function may give for `a`.
    pub closed spec fn relates(&self, a: A, b: B) -> bool {
        self.f.relates(a, b)
    }

    /// Keeps `f`, which must accept every `A`.
    pub fn new<F: Fn(A) -> B + Send + Sync + 'static>(f: F) -> (r: Self)
        requires
            forall|a: A| f.requires((a,)),
        ensures
            forall|a: A, b: B| r.relates(a, b) <==> f.ensures((a,), b),
    {
        let boxed: Box<dyn Apply<A, B>> = Box::new(f);
        Mapper { f: Arc::new(boxed) }
    }

    /// Applies the function.
    pub fn map(&self, a: A) -> (b: B)
        ensures
            self.relates(a, b),
    {
        proof {
            use_type_invariant(self);
        }
        self.f.call(a)
    }

    /// Applies the function to each of `items`, in order.
    pub fn map_all(&self, items: Vec<A>) -> (r: Vec<B>)
        ensures
            r@.len() == items@.len(),
            forall|i: int| 0 <= i < items@.len() ==> self.relates(items@[i], #[trigger] r@[i]),
    {
        let ghost all = items@;
        let mut rest = crate::list::reversed(items);
        let mut r: Vec<B> = Vec::new();
        while rest.len() > 0
            invariant
                rest@.len() + r@.len() == all.len(),
                forall|i: int| 0 <= i < rest@.len() ==> rest@[i] == all[all.len() - 1 - i],
                forall|i: int| 0 <= i < r@.len() ==> self.relates(all[i], #[trigger] r@[i]),
            decreases rest.len(),
        {
            let item = rest.pop().unwrap();
            r.push(self.map(item));
        }
        r
    }

    /// Another handle to the same function.
    pub fn clone(&self) -> (r: Self)
        ensures
            r == *self,
    {
        proof {
            use_type_invariant(self);
        }
        Mapper { f: share(&self.f) }
    }
}

} // verus!
