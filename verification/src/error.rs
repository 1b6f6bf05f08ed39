//! Top-level error type of the runtime.

use vstd::prelude::*;

verus! {

/// Failure inside the rendering backend, opaque to the core.
#[derive(Clone, Copy, Debug, PartialEq, Eq, Structural)]
pub struct RenderError;

/// Error of the runtime as a whole.
#[derive(Clone, Copy, Debug, PartialEq, Eq, Structural)]
pub enum Error {
    RenderError(RenderError),
}

impl From<RenderError> for Error {
    fn from(err: RenderError) -> (r: Self) {
        Error::RenderError(err)
    }
}

impl vstd::std_specs::convert::FromSpecImpl<RenderError> for Error {
    open spec fn obeys_from_spec() -> bool {
        true
    }

    open spec fn from_spec(err: RenderError) -> Self {
        Error::RenderError(err)
    }
}

} // verus!
