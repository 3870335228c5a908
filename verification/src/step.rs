//! The step type shared by the radio sessions.
use vstd::prelude::*;

verus! {

/// What a session asks for after a reply.
pub enum SessionStep<T> {
    /// Send this frame and pass the next reply back.
    Send(Vec<u8>),
    /// The session is over.
    Finished(T),
}

} // verus!
