//! The service that checks a websocket handshake before a connection is
//! handed on.
use std::marker::PhantomData;
use vstd::prelude::*;

verus! {

/// Checks the websocket handshake of each request it is called with.
pub struct VerifyWebSockets<T> {
    _t: PhantomData<T>,
}

impl<T> Default for VerifyWebSockets<T> {
    fn default() -> (s: Self)
        ensures
            s == VerifyWebSockets::<T>::fresh(),
    {
        VerifyWebSockets { _t: PhantomData }
    }
}

impl<T> VerifyWebSockets<T> {
    /// The service as it is made: it holds no state.
    pub closed spec fn fresh() -> Self {
        VerifyWebSockets { _t: PhantomData }
    }

    /// A new verifying service.
    pub fn new_service(&self) -> (s: Self)
        ensures
            s == VerifyWebSockets::<T>::fresh(),
    {
        VerifyWebSockets { _t: PhantomData }
    }

    /// The service is always ready.
    pub fn poll_ready(&mut self) -> (ready: bool)
        ensures
            ready,
    {
        true
    }

    /// Hands the request and its connection on when the handshake checks
    /// out; otherwise fails with the handshake error, giving the connection
    /// back.
    pub fn call<R, F, E>(&mut self, req: R, framed: F, handshake: Result<(), E>) -> (r: Result<
        (R, F),
        (E, F),
    >)
        ensures
            r == match handshake {
                Ok(_) => Ok::<(R, F), (E, F)>((req, framed)),
                Err(e) => Err::<(R, F), (E, F)>((e, framed)),
            },
    {
        match handshake {
            Ok(_) => Ok((req, framed)),
            Err(e) => Err((e, framed)),
        }
    }
}

} // verus!
