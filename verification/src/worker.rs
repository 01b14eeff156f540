//! The decisions of a server worker: how its connections are accepted, when
//! it takes more, and how it stops.
use vstd::prelude::*;

verus! {

/// How a worker accepts the connections of a socket, with the acceptor of
/// each secure kind.
pub enum StreamHandlerType<T, A, R> {
    /// Plain TCP.
    Normal,
    /// TLS.
    Tls(T),
    /// TLS with protocol negotiation.
    Alpn(A),
    /// TLS through rustls.
    Rustls(R),
}

impl<T, A, R> StreamHandlerType<T, A, R> {
    /// Whether connections are secured.
    pub fn is_ssl(&self) -> (b: bool)
        ensures
            b == !(self is Normal),
    {
        match self {
            StreamHandlerType::Normal => false,
            _ => true,
        }
    }

    /// The URL scheme of the connections: `http`, or `https` when secured.
    pub fn scheme(&self) -> (s: &'static str)
        ensures
            s@ == if self is Normal {
                "http"@
            } else {
                "https"@
            },
    {
        match self {
            StreamHandlerType::Normal => "http",
            _ => "https",
        }
    }
}

/// Whether the protocol negotiated on a secure connection is HTTP/2:
/// exactly `h2`.
pub fn negotiated_http2(protocol: Option<&[u8]>) -> (b: bool)
    ensures
        b == match protocol {
            Some(p) => p@ == seq![104u8, 50u8],
            None => false,
        },
{
    match protocol {
        Some(p) => {
            if p.len() == 2 && p[0] == 104u8 && p[1] == 50u8 {
                assert(p@ =~= seq![104u8, 50u8]);
                true
            } else {
                false
            }
        },
        None => false,
    }
}

/// Whether a worker takes another connection: its secure connections being
/// set up are fewer than the most allowed, and its connections too.
pub fn available(maxconn: usize, maxsslrate: usize, conn: usize, sslrate: usize) -> (b: bool)
    ensures
        b == (sslrate < maxsslrate && conn < maxconn),
{
    if maxsslrate <= sslrate {
        false
    } else {
        maxconn > conn
    }
}

/// The TCP keep-alive of accepted sockets, in seconds: set only when the
/// server's keep-alive is TCP keep-alive.
pub fn tcp_keep_alive(tcp_secs: Option<usize>) -> (r: Option<u64>)
    ensures
        r == match tcp_secs {
            Some(s) => Some(s as u64),
            None => None::<u64>,
        },
{
    match tcp_secs {
        Some(s) => Some(s as u64),
        None => None,
    }
}

/// What a stopping worker does.
#[derive(PartialEq, Eq, Structural, Debug, Clone, Copy)]
pub enum StopAction {
    /// Stop now: `true` when no connection was left.
    Reply(bool),
    /// Check again in a second, with this many seconds of grace left.
    Wait(u64),
}

/// Decides how a worker asked to stop goes on, given its live connections
/// and the grace period (seconds) asked for: with no connection it stops
/// cleanly; with a grace period it waits; without one it drops the
/// connections and reports so.
pub fn on_stop(channels: usize, graceful: Option<u64>) -> (a: StopAction)
    ensures
        a == if channels == 0 {
            StopAction::Reply(true)
        } else {
            match graceful {
                Some(d) => StopAction::Wait(d),
                None => StopAction::Reply(false),
            }
        },
{
    if channels == 0 {
        StopAction::Reply(true)
    } else {
        match graceful {
            Some(d) => StopAction::Wait(d),
            None => StopAction::Reply(false),
        }
    }
}

/// Decides, a second later, how a worker in its grace period goes on: with
/// no connection left it stops cleanly; with a second of grace left it
/// waits another; else it drops the connections and reports so.
pub fn grace_check(channels: usize, grace: u64) -> (a: StopAction)
    ensures
        a == if channels == 0 {
            StopAction::Reply(true)
        } else if grace >= 1 {
            StopAction::Wait((grace - 1) as u64)
        } else {
            StopAction::Reply(false)
        },
{
    if channels == 0 {
        StopAction::Reply(true)
    } else if grace >= 1 {
        StopAction::Wait(grace - 1)
    } else {
        StopAction::Reply(false)
    }
}

/// The worker that takes the next accepted connection: connections go to
/// the workers in turn.
pub fn next_worker(current: usize, workers: usize) -> (next: usize)
    requires
        workers > 0,
        current < workers,
    ensures
        next == (current + 1) % (workers as int),
        next < workers,
{
    if current + 1 == workers {
        assert((workers as int) % (workers as int) == 0) by (nonlinear_arith)
            requires
                workers > 0,
        ;
        0
    } else {
        assert((current + 1) % (workers as int) == current + 1) by (nonlinear_arith)
            requires
                0 <= current + 1 < workers,
        ;
        current + 1
    }
}

} // verus!
