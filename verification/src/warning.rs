//! Non-fatal findings. Warnings never stop the pipeline: callers report
//! them and go on with the fallback behaviour the rest of the library
//! plans.

use crate::images::StoreImageKind;
use vstd::prelude::*;

verus! {

/// Everything the pipeline reports without aborting.
#[derive(Clone, Copy, Debug, PartialEq, Eq, Structural)]
pub enum Warning {
    /// The crate root holds no `assets/` directory; the archive gets no
    /// asset entries.
    MissingAssetsDir,
    /// No user-supplied image was found for this slot; a placeholder is
    /// synthesized instead.
    MissingStoreImage { kind: StoreImageKind },
    /// A supplied icon is not square; it is still copied unchanged.
    NonSquareIcon { width: u32, height: u32 },
    /// A supplied banner does not have the expected dimensions; it is still
    /// copied unchanged.
    BannerDimensionMismatch { width: u32, height: u32 },
    /// The package name holds an underscore, which the target launcher's
    /// executable discovery rejects; packaging proceeds anyway.
    UnderscoreInName,
}

} // verus!
