//! The raw sample payload consumed by the downsampling stage.

use vstd::prelude::*;

verus! {

/// Number of frequency channels in every payload's intensity vector,
/// fixed by the upstream acquisition frontend.
pub const CHANNELS: usize = 2048;

/// One unit of raw sample data produced upstream. The stage only reads its
/// per-channel Stokes-I intensity vector, which always holds `CHANNELS`
/// unsigned 16-bit samples.
pub struct Payload {
    stokes: Vec<u16>,
}

impl View for Payload {
    type V = Seq<u16>;

    closed spec fn view(&self) -> Seq<u16> {
        self.stokes@
    }
}

impl Payload {
    #[verifier::type_invariant]
    spec fn inv(self) -> bool {
        self.stokes@.len() == CHANNELS
    }

    /// Builds a payload from its per-channel intensity vector.
    pub fn new(stokes: Vec<u16>) -> (p: Payload)
        requires
            stokes@.len() == CHANNELS,
        ensures
            p@ == stokes@,
    {
        Payload { stokes }
    }

    /// The payload's per-channel Stokes-I intensity vector.
    pub fn stokes_i(&self) -> (r: &Vec<u16>)
        ensures
            r@ == self@,
            r@.len() == CHANNELS,
    {
        proof {
            use_type_invariant(self);
        }
        &self.stokes
    }
}

} // verus!
