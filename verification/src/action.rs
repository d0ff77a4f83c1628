//! The action wrapper: erases a unary callback behind a uniform, cloneable
//! handle so heterogeneous command handlers can be stored and invoked alike.

use std::sync::Arc;
use vstd::prelude::*;

verus! {

/// The execution context handed to an action by the embedding command layer,
/// carrying the raw arguments the handler may inspect.
pub struct Context {
    /// The collected command-line arguments.
    pub args: Vec<String>,
}

/// A stored, invocable handler: wraps a unary callback behind a handle that
/// shares ownership of it, so it clones cheaply and can be kept in
/// heterogeneous collections by the embedding command layer.
pub struct Action<F> {
    inner: Arc<F>,
}

/// Relies on `Arc::clone`: the new handle shares the same underlying value,
/// which the reference count keeps alive until the last handle goes.
#[verifier::external_body]
fn clone_arc<T>(v: &Arc<T>) -> (res: Arc<T>)
    ensures
        res == *v,
{
    Arc::clone(v)
}

impl<F: Fn(&Context)> Action<F> {
    /// The wrapped callback, immutable from construction on.
    pub closed spec fn callback(&self) -> F {
        *self.inner
    }

    /// Wrap a callback behind a shared handle.
    pub fn new(f: F) -> (a: Action<F>)
        ensures
            a.callback() == f,
    {
        Action { inner: Arc::new(f) }
    }

    /// Invoke the wrapped callback with `context`.
    ///
    /// Each invocation is exactly one call of the callback on its own
    /// context: the handle itself holds no state, intercepts nothing, and two
    /// runs with different contexts are two independent calls whose effects
    /// are each pinned by the callback's own contract.
    pub fn run(&self, context: &Context)
        requires
            call_requires(self.callback(), (context,)),
        ensures
            call_ensures(self.callback(), (context,), ()),
    {
        (self.inner)(context)
    }
}

impl<F: Fn(&Context)> Clone for Action<F> {
    /// The cloned handle wraps the very same callback.
    fn clone(&self) -> (r: Self)
        ensures
            r.callback() == self.callback(),
    {
        Action { inner: clone_arc(&self.inner) }
    }
}

} // verus!
