use vstd::prelude::*;

use crate::bundle::TimingBundle;

verus! {

/// Lifts base-level schedules to individual agent timelines (sections of the
/// bundle).
#[derive(Debug)]
pub struct SectionLifter<T> {
    pub bundle: TimingBundle<T>,
}

impl<T> SectionLifter<T> {
    /// A lifter over the given timing bundle.
    pub fn new(bundle: TimingBundle<T>) -> (l: Self)
        ensures
            l.bundle == bundle,
    {
        SectionLifter { bundle }
    }
}

} // verus!
