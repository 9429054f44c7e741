use vstd::prelude::*;

verus! {

/// The failures of this library.
#[derive(PartialEq, Eq, Structural, Debug, Clone, Copy)]
pub enum AdapterError {
    /// The goto text holds no non-numeric path component, or it is empty.
    MalformedSpec,
    /// No ancestor of the start directory holds the project marker.
    RootNotFound,
    /// The terminal is not configured, or starting the server failed.
    LaunchFailed,
    /// The server's endpoint did not appear within the bounded wait.
    ServerTimeout,
}

} // verus!
