use vstd::prelude::*;

verus! {

/// What the compositor needs from the backend it runs on.
pub trait Backend {
    /// Name of the seat the backend drives.
    fn seat_name(&self) -> String;
}

/// Per-client data; the compositor keeps nothing per client.
#[derive(Debug, Clone, Copy, PartialEq, Eq, Structural)]
pub struct ClientState;

} // verus!
