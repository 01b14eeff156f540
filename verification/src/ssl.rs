//! TLS acceptor and connector services, over the TLS library's acceptor and
//! connector values.
use std::marker::PhantomData;
use vstd::prelude::*;

verus! {

/// Support `SSL` connections: accepts connections of type `T` with the TLS
/// library's acceptor `A`.
pub struct OpensslAcceptor<A, T> {
    acceptor: A,
    io: PhantomData<T>,
}

impl<A, T> OpensslAcceptor<A, T> {
    /// The TLS acceptor.
    pub closed spec fn acceptor(&self) -> A {
        self.acceptor
    }

    /// Create default `OpensslAcceptor`
    pub fn new(acceptor: A) -> (s: Self)
        ensures
            s.acceptor() == acceptor,
    {
        OpensslAcceptor { acceptor, io: PhantomData }
    }

    /// The acceptor's service: it accepts with the same acceptor while the
    /// server takes more connections.
    pub fn new_service(&self) -> (s: OpensslAcceptorService<A, T>) where A: Copy
        ensures
            s.acceptor() == self.acceptor(),
    {
        OpensslAcceptorService { acceptor: self.acceptor, io: PhantomData }
    }
}

/// The service that accepts TLS connections.
pub struct OpensslAcceptorService<A, T> {
    acceptor: A,
    io: PhantomData<T>,
}

impl<A, T> OpensslAcceptorService<A, T> {
    /// The TLS acceptor.
    pub closed spec fn acceptor(&self) -> A {
        self.acceptor
    }

    /// Ready exactly when the server's connection counter has room.
    pub fn poll_ready(&self, counter_available: bool) -> (ready: bool)
        ensures
            ready == counter_available,
    {
        counter_available
    }
}

/// Openssl connector factory: connects streams of type `T` with the TLS
/// library's connector `C`.
pub struct OpensslConnector<C, T, E> {
    connector: C,
    _t: PhantomData<(T, E)>,
}

impl<C, T, E> OpensslConnector<C, T, E> {
    /// The TLS connector.
    pub closed spec fn connector(&self) -> C {
        self.connector
    }

    /// A connector factory with this connector.
    pub fn new(connector: C) -> (s: Self)
        ensures
            s.connector() == connector,
    {
        OpensslConnector { connector, _t: PhantomData }
    }

    /// The connector's service: it connects with the same connector.
    pub fn new_service(&self) -> (s: OpensslConnectorService<C, T>) where C: Copy
        ensures
            s.connector() == self.connector(),
    {
        OpensslConnectorService { connector: self.connector, _t: PhantomData }
    }
}

/// The service that makes TLS connections.
pub struct OpensslConnectorService<C, T> {
    connector: C,
    _t: PhantomData<T>,
}

impl<C, T> OpensslConnectorService<C, T> {
    /// The TLS connector.
    pub closed spec fn connector(&self) -> C {
        self.connector
    }

    /// A connector service with this connector.
    pub fn new(connector: C) -> (s: Self)
        ensures
            s.connector() == connector,
    {
        OpensslConnectorService { connector, _t: PhantomData }
    }

    /// The service is always ready.
    pub fn poll_ready(&self) -> (ready: bool)
        ensures
            ready,
    {
        true
    }
}

} // verus!
