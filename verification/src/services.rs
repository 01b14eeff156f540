//! The services a server runs for each listener: stream services take the
//! connections, server services take every server message.
use vstd::prelude::*;

verus! {

/// A message a server hands to a listener's service.
pub enum ServerMessage<S> {
    /// A new connection.
    Connect(S),
    /// Shut down within this many milliseconds.
    Shutdown(u64),
    /// Shut down now.
    ForceShutdown,
}

/// A service that takes the connections of a listener.
pub struct StreamService<T> {
    service: T,
}

impl<T> StreamService<T> {
    /// The inner service, which takes each connection.
    pub closed spec fn inner(&self) -> T {
        self.service
    }

    /// A stream service over `service`.
    pub fn new(service: T) -> (s: Self)
        ensures
            s.inner() == service,
    {
        StreamService { service }
    }

    /// The connection of a message, to be handed to the inner service; the
    /// other messages are answered at once.
    pub fn call<S>(&self, msg: ServerMessage<S>) -> (conn: Option<S>)
        ensures
            conn == match msg {
                ServerMessage::Connect(s) => Some(s),
                _ => None::<S>,
            },
    {
        match msg {
            ServerMessage::Connect(s) => Some(s),
            _ => None,
        }
    }
}

/// A service that takes every server message.
pub struct ServerService<T> {
    service: T,
}

impl<T> ServerService<T> {
    /// The inner service, which takes each message.
    pub closed spec fn inner(&self) -> T {
        self.service
    }

    /// A server service over `service`.
    pub fn new(service: T) -> (s: Self)
        ensures
            s.inner() == service,
    {
        ServerService { service }
    }
}

/// A named factory of a listener's services.
pub struct ServiceNewService<F> {
    name: String,
    inner: F,
}

impl<F> ServiceNewService<F> {
    /// The listener's name.
    pub closed spec fn name_spec(&self) -> Seq<char> {
        self.name@
    }

    /// The factory.
    pub closed spec fn factory(&self) -> F {
        self.inner
    }

    /// A named factory.
    pub fn create(name: String, inner: F) -> (s: Self)
        ensures
            s.name_spec() == name@,
            s.factory() == inner,
    {
        ServiceNewService { name, inner }
    }

    /// The listener's name.
    pub fn name(&self) -> (n: &str)
        ensures
            n@ == self.name_spec(),
    {
        self.name.as_str()
    }
}

} // verus!
