//! Service combinators: chaining two services, mapping a service's error,
//! applying a function around a service, and the bookkeeping of the futures
//! that build them.
use std::marker::PhantomData;
use vstd::prelude::*;

verus! {

/// Trait for types that can be converted to a service.
pub trait IntoService<T>: Sized {
    /// The service this value converts into.
    spec fn as_service(self) -> T;

    /// Create service.
    fn into_service(self) -> (t: T)
        ensures
            t == self.as_service(),
    ;
}

/// Trait for types that can be converted to a service factory.
pub trait IntoNewService<T>: Sized {
    /// The service factory this value converts into.
    spec fn as_new_service(self) -> T;

    /// Create service factory.
    fn into_new_service(self) -> (t: T)
        ensures
            t == self.as_new_service(),
    ;
}

impl<T> IntoService<T> for T {
    /// A service converts into itself.
    open spec fn as_service(self) -> T {
        self
    }

    fn into_service(self) -> (t: T) {
        self
    }
}

impl<T> IntoNewService<T> for T {
    /// A service factory converts into itself.
    open spec fn as_new_service(self) -> T {
        self
    }

    fn into_new_service(self) -> (t: T) {
        self
    }
}

/// `AndThen` service combinator: the response of the first service is the
/// request of the second.
pub struct AndThen<A, B> {
    a: A,
    b: B,
}

impl<A, B> AndThen<A, B> {
    /// The first service.
    pub closed spec fn first(&self) -> A {
        self.a
    }

    /// The second service.
    pub closed spec fn second(&self) -> B {
        self.b
    }

    /// Create new `AndThen` combinator.
    pub fn new(a: A, b: B) -> (s: Self)
        ensures
            s.first() == a,
            s.second() == b,
    {
        Self { a, b }
    }
}

/// `AndThenNewService` new service combinator.
pub struct AndThenNewService<A, B> {
    a: A,
    b: B,
}

impl<A, B> AndThenNewService<A, B> {
    /// The first service factory.
    pub closed spec fn first(&self) -> A {
        self.a
    }

    /// The second service factory.
    pub closed spec fn second(&self) -> B {
        self.b
    }

    /// Create new `AndThen` combinator; the second factory is given by
    /// anything that converts into one.
    pub fn new<F: IntoNewService<B>>(a: A, f: F) -> (s: Self)
        ensures
            s.first() == a,
            s.second() == f.as_new_service(),
    {
        Self { a, b: f.into_new_service() }
    }
}

/// `MapErr` service combinator: the service's errors go through `f`.
pub struct MapErr<A, F, E> {
    a: A,
    f: F,
    e: PhantomData<E>,
}

impl<A, F, E> MapErr<A, F, E> {
    /// The service.
    pub closed spec fn service(&self) -> A {
        self.a
    }

    /// The error mapping.
    pub closed spec fn mapping(&self) -> F {
        self.f
    }

    /// Create new `MapErr` combinator.
    pub fn new(a: A, f: F) -> (s: Self)
        ensures
            s.service() == a,
            s.mapping() == f,
    {
        Self { a, f, e: PhantomData }
    }
}

/// `MapErrNewService` new service combinator.
pub struct MapErrNewService<A, F, E> {
    a: A,
    f: F,
    e: PhantomData<E>,
}

impl<A, F, E> MapErrNewService<A, F, E> {
    /// The service factory.
    pub closed spec fn factory(&self) -> A {
        self.a
    }

    /// The error mapping.
    pub closed spec fn mapping(&self) -> F {
        self.f
    }

    /// Create new `MapErr` new service instance.
    pub fn new(a: A, f: F) -> (s: Self)
        ensures
            s.factory() == a,
            s.mapping() == f,
    {
        Self { a, f, e: PhantomData }
    }
}

/// `NewService` for state and handler functions: `state` builds the state,
/// `f` handles requests with it.
pub struct FnStateNewService<S, F1, F2, Req, Resp, Err1, Err2, Fut1, Fut2> {
    f: F1,
    state: F2,
    s: PhantomData<S>,
    req: PhantomData<Req>,
    resp: PhantomData<Resp>,
    err1: PhantomData<Err1>,
    err2: PhantomData<Err2>,
    fut1: PhantomData<Fut1>,
    fut2: PhantomData<Fut2>,
}

impl<S, F1, F2, Req, Resp, Err1, Err2, Fut1, Fut2> FnStateNewService<
    S,
    F1,
    F2,
    Req,
    Resp,
    Err1,
    Err2,
    Fut1,
    Fut2,
> {
    /// The request handler.
    pub closed spec fn handler(&self) -> F1 {
        self.f
    }

    /// The state builder.
    pub closed spec fn state_builder(&self) -> F2 {
        self.state
    }

    /// A service factory from a handler and a state builder.
    pub fn new(f: F1, state: F2) -> (s: Self)
        ensures
            s.handler() == f,
            s.state_builder() == state,
    {
        FnStateNewService {
            f,
            state,
            s: PhantomData,
            req: PhantomData,
            resp: PhantomData,
            err1: PhantomData,
            err2: PhantomData,
            fut1: PhantomData,
            fut2: PhantomData,
        }
    }
}

/// `Apply` service combinator: requests go to `f` together with the service.
pub struct Apply<T, F, R, Req> {
    service: T,
    f: F,
    r: PhantomData<(Req, R)>,
}

impl<T, F, R, Req> Apply<T, F, R, Req> {
    /// The wrapped service.
    pub closed spec fn service(&self) -> T {
        self.service
    }

    /// The function applied.
    pub closed spec fn function(&self) -> F {
        self.f
    }

    /// Create new `Apply` combinator from anything that converts into the
    /// service.
    pub fn new<I: IntoService<T>>(service: I, f: F) -> (s: Self)
        ensures
            s.service() == service.as_service(),
            s.function() == f,
    {
        Self { service: service.into_service(), f, r: PhantomData }
    }

    /// Handles a request: the function is called with it and the service.
    pub fn call(&mut self, req: Req) -> (r: R) where F: Fn(Req, &mut T) -> R
        requires
            forall|s: &mut T| call_requires(old(self).function(), (req, s)),
        ensures
            final(self).function() == old(self).function(),
            exists|s: &mut T| call_ensures(old(self).function(), (req, s), r),
    {
        (self.f)(req, &mut self.service)
    }
}

/// `ApplyNewService` new service combinator.
pub struct ApplyNewService<T, F, R, Req> {
    service: T,
    f: F,
    r: PhantomData<(Req, R)>,
}

impl<T, F, R, Req> ApplyNewService<T, F, R, Req> {
    /// The wrapped service factory.
    pub closed spec fn factory(&self) -> T {
        self.service
    }

    /// The function applied.
    pub closed spec fn function(&self) -> F {
        self.f
    }

    /// Create new `ApplyNewService` new service instance from anything that
    /// converts into the factory.
    pub fn new<F1: IntoNewService<T>>(service: F1, f: F) -> (s: Self)
        ensures
            s.factory() == service.as_new_service(),
            s.function() == f,
    {
        Self { f, service: service.into_new_service(), r: PhantomData }
    }
}

/// The services built so far by the future of an `AndThenNewService`.
pub struct AndThenBuild<A, B> {
    a: Option<A>,
    b: Option<B>,
}

impl<A, B> AndThenBuild<A, B> {
    /// The first service, once built.
    pub closed spec fn built_first(&self) -> Option<A> {
        self.a
    }

    /// The second service, once built.
    pub closed spec fn built_second(&self) -> Option<B> {
        self.b
    }

    /// Nothing built yet.
    pub fn new() -> (s: Self)
        ensures
            s.built_first() is None,
            s.built_second() is None,
    {
        AndThenBuild { a: None, b: None }
    }

    /// Records the services that became ready in one poll (a later one
    /// replaces an earlier one); when both are there, they are taken and
    /// combined, and the build is over.
    pub fn offer(&mut self, a: Option<A>, b: Option<B>) -> (r: Option<AndThen<A, B>>)
        ensures
            ({
                let na = if a is Some {
                    a
                } else {
                    old(self).built_first()
                };
                let nb = if b is Some {
                    b
                } else {
                    old(self).built_second()
                };
                if na is Some && nb is Some {
                    &&& r matches Some(s)
                    &&& s.first() == na.unwrap()
                    &&& s.second() == nb.unwrap()
                    &&& final(self).built_first() is None
                    &&& final(self).built_second() is None
                } else {
                    &&& r is None
                    &&& final(self).built_first() == na
                    &&& final(self).built_second() == nb
                }
            }),
    {
        if a.is_some() {
            self.a = a;
        }
        if b.is_some() {
            self.b = b;
        }
        if self.a.is_some() && self.b.is_some() {
            let a = self.a.take().unwrap();
            let b = self.b.take().unwrap();
            Some(AndThen::new(a, b))
        } else {
            None
        }
    }
}

/// The function kept by the future of an `ApplyNewService` until the service
/// is built.
pub struct ApplyBuild<F> {
    f: Option<F>,
}

impl<F> ApplyBuild<F> {
    /// The function, while the service is not built.
    pub closed spec fn pending(&self) -> Option<F> {
        self.f
    }

    /// Waiting for the service, keeping the function.
    pub fn new(f: F) -> (s: Self)
        ensures
            s.pending() == Some(f),
    {
        ApplyBuild { f: Some(f) }
    }

    /// The service is built: the function is taken out and applied to it.
    /// This happens once: the function is gone afterwards.
    pub fn finish<T, R, Req>(&mut self, service: T) -> (s: Apply<T, F, R, Req>)
        requires
            old(self).pending() is Some,
        ensures
            s.service() == service,
            s.function() == old(self).pending().unwrap(),
            final(self).pending() is None,
    {
        let f = self.f.take().unwrap();
        Apply { service, f, r: PhantomData }
    }
}

} // verus!
