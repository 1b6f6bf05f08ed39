//! Errors of the rendering boundary. The GPU pass itself is outside the
//! core; only its error values travel through it.

use vstd::prelude::*;

verus! {

/// What the rendering backend can report.
#[derive(Clone, Debug, PartialEq, Eq)]
pub enum RenderError {
    /// A raw untyped message from the graphics API.
    Message(String),
    /// Image failed to load because of varying sizes.
    ImageVaryingSize,
    /// Data allocated for a statically sized buffer is now full.
    BufferFull,
}

impl From<String> for RenderError {
    fn from(err: String) -> (r: Self) {
        RenderError::Message(err)
    }
}

impl vstd::std_specs::convert::FromSpecImpl<String> for RenderError {
    open spec fn obeys_from_spec() -> bool {
        true
    }

    open spec fn from_spec(err: String) -> Self {
        RenderError::Message(err)
    }
}

} // verus!
