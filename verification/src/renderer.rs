//! Failures reported by the renderer.
use vstd::prelude::*;

verus! {

/// A failure while recording or presenting a frame.
#[derive(Clone, Copy, Debug, PartialEq, Eq, Structural)]
pub enum RenderError {
    /// A presentation surface was lost and must be recreated.
    SurfaceLost,
    /// GPU validation rejected the frame.
    Validation,
}

impl RenderError {
    /// The message that describes the failure.
    pub fn message(&self) -> (message: &'static str)
        ensures
            message@ == match *self {
                RenderError::SurfaceLost => "presentation surface was lost"@,
                RenderError::Validation => "frame failed GPU validation"@,
            },
    {
        match self {
            RenderError::SurfaceLost => "presentation surface was lost",
            RenderError::Validation => "frame failed GPU validation",
        }
    }
}

} // verus!
