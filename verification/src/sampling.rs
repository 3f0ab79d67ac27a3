//! The supersampling grid used when rasterising, and the source-over compositor.
use vstd::prelude::*;

verus! {

/// A regular `side_samples x side_samples` grid of sample points inside each pixel.
#[derive(Clone, Copy, Debug)]
pub struct SampleGrid {
    /// Number of samples along each side of a pixel.
    pub side_samples: u32,
}

impl SampleGrid {
    /// A grid with `p_level` samples per side, clamped to `1..=16`.
    pub fn from_aa_level(p_level: u32) -> (g: SampleGrid)
        ensures
            g.side_samples == if p_level < 1 {
                1
            } else if p_level > 16 {
                16
            } else {
                p_level
            },
    {
        let side: u32 = if p_level < 1 {
            1
        } else if p_level > 16 {
            16
        } else {
            p_level
        };
        SampleGrid { side_samples: side }
    }

    /// The number of samples per pixel: `side_samples * side_samples`.
    pub fn total_samples(&self) -> (n: u32)
        requires
            self.side_samples * self.side_samples <= u32::MAX,
        ensures
            n == self.side_samples * self.side_samples,
    {
        self.side_samples * self.side_samples
    }
}

/// The compositor that draws the source over the destination (Porter-Duff "source over").
pub struct SourceOverCompositor;

} // verus!
