use vstd::prelude::*;

verus! {

/// Why `run` returned.
#[derive(Debug, Clone, Copy, PartialEq, Eq, Structural)]
pub enum ServerError {
    /// No transport is attached: accepting connections, reading requests and
    /// writing responses are left to the caller, which feeds each buffer to
    /// the parser.
    NoTransport,
}

/// A server's configuration: the address it would listen on.
pub struct Server {
    pub address: String,
}

impl Server {
    /// A server for `address`.
    pub fn new(address: String) -> (s: Server)
        ensures
            s.address@ == address@,
    {
        Server { address }
    }
}

/// Entry point of the server. This library performs no I/O, so it reports at
/// once that no transport is attached.
pub fn run() -> (r: Result<(), ServerError>)
    ensures
        r == Err::<(), ServerError>(ServerError::NoTransport),
{
    Err(ServerError::NoTransport)
}

} // verus!
