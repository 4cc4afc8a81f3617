use vstd::prelude::*;

verus! {

/// A gauge choice that fixes the synchronization frame.
#[derive(Debug)]
pub struct GaugeChoice<T> {
    /// Name of the canonical frame.
    pub frame: String,
    /// Transformation matrix g: ω' = g⁻¹ωg + g⁻¹dg.
    pub transformation: Vec<Vec<T>>,
}

/// Gauge fixing utility — chooses a canonical synchronization frame.
#[derive(Debug)]
pub struct GaugeFixer<T> {
    pub gauge: GaugeChoice<T>,
}

impl<T> GaugeFixer<T> {
    /// A gauge fixer with a custom frame and transformation.
    pub fn custom(frame: String, transformation: Vec<Vec<T>>) -> (g: Self)
        ensures
            g.gauge.frame == frame,
            g.gauge.transformation == transformation,
    {
        GaugeFixer { gauge: GaugeChoice { frame, transformation } }
    }
}

} // verus!
