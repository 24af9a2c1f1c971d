//! The ports the client tries, one after another, to listen for peers.

use vstd::prelude::*;

verus! {

/// The first port the client tries.
pub const STARTING_PORT: u16 = 8080;

/// The last port the client tries.
pub const MAX_PORT_TO_TRY_BIND: u16 = 9080;

/// What can go wrong finding a port to listen on.
#[derive(PartialEq, Eq, Debug, Clone, Copy, Structural)]
pub enum PortBindingError {
    ReachedMaxPortWithoutFindingAnAvailableOne,
}

/// The port to try after `current_port`; an error once the last port was tried.
pub fn update_port(current_port: u16) -> (res: Result<u16, PortBindingError>)
    ensures
        current_port >= MAX_PORT_TO_TRY_BIND ==> res == Err::<u16, PortBindingError>(
            PortBindingError::ReachedMaxPortWithoutFindingAnAvailableOne,
        ),
        current_port < MAX_PORT_TO_TRY_BIND ==> res == Ok::<u16, PortBindingError>((current_port + 1) as u16),
{
    if current_port >= MAX_PORT_TO_TRY_BIND {
        Err(PortBindingError::ReachedMaxPortWithoutFindingAnAvailableOne)
    } else {
        Ok(current_port + 1)
    }
}

} // verus!
