//! Shared storage that captured resource handles read on both host and shader.
use vstd::prelude::*;

verus! {

/// Shared storage available to captured resource handles on both CPU and GPU.
#[derive(Clone, Copy)]
pub struct ResourceData<'a> {
    /// Frame-local records, uploaded only when their encoded contents change.
    pub transient: &'a [u32],
    /// Immutable records appended over the lifetime of the renderer.
    pub persistent: &'a [u32],
}

impl<'a> Default for ResourceData<'a> {
    /// Storage with no records.
    fn default() -> (data: Self)
        ensures
            data.transient@ == Seq::<u32>::empty(),
            data.persistent@ == Seq::<u32>::empty(),
    {
        ResourceData { transient: &[], persistent: &[] }
    }
}

/// Application-owned resource preparation shared across a renderer's surfaces.
pub trait Resources {
    /// Starts a frame before any surface is recorded.
    fn begin_frame(&mut self);

    /// Returns encoded storage; persistent records must never change or be removed.
    fn data(&self) -> ResourceData<'_>;
}

} // verus!
