//! Run configuration.
//!
//! The engine-wide tunables are validated once, before any frame runs: an
//! invalid combination is rejected with the first failing condition, in
//! the order width, height, min_distance, force_distance.

use vstd::prelude::*;
use crate::fixed::Fp;

verus! {

/// Why a configuration was rejected.
#[derive(Clone, Copy, PartialEq, Eq, Structural, Debug)]
pub enum ConfigError {
    /// The plane width is not positive.
    NonPositiveWidth,
    /// The plane height is not positive.
    NonPositiveHeight,
    /// The short-range repulsion radius is not positive.
    NonPositiveMinDistance,
    /// The interaction cutoff does not exceed the repulsion radius.
    ForceDistanceNotAboveMin,
    /// The configured species list is empty.
    EmptySpecies,
}

/// Engine-wide tunables: the plane dimensions and the force-law scalars.
/// `friction` and `velocity_factor` take any value; typical runs use
/// friction 0 and a damping factor below one.
#[derive(Clone, Copy, PartialEq, Eq, Structural, Debug)]
pub struct SimConfig {
    pub width: Fp,
    pub height: Fp,
    pub min_distance: Fp,
    pub force_distance: Fp,
    pub friction: Fp,
    pub velocity_factor: Fp,
}

impl SimConfig {
    /// A valid configuration: a positive plane and
    /// `0 < min_distance < force_distance`.
    pub open spec fn wf(self) -> bool {
        &&& 0 < self.width@
        &&& 0 < self.height@
        &&& 0 < self.min_distance@
        &&& self.min_distance@ < self.force_distance@
    }

    /// Validate the tunables and build the configuration; a rejection
    /// names the first failing condition.
    pub fn new(
        width: Fp,
        height: Fp,
        min_distance: Fp,
        force_distance: Fp,
        friction: Fp,
        velocity_factor: Fp,
    ) -> (r: Result<SimConfig, ConfigError>)
        ensures
            r is Ok <==> (0 < width@ && 0 < height@ && 0 < min_distance@
                && min_distance@ < force_distance@),
            r matches Ok(c) ==> c == (SimConfig {
                width,
                height,
                min_distance,
                force_distance,
                friction,
                velocity_factor,
            }) && c.wf(),
            r == Err::<SimConfig, ConfigError>(ConfigError::NonPositiveWidth) <==> width@ <= 0,
            r == Err::<SimConfig, ConfigError>(ConfigError::NonPositiveHeight)
                <==> (0 < width@ && height@ <= 0),
            r == Err::<SimConfig, ConfigError>(ConfigError::NonPositiveMinDistance)
                <==> (0 < width@ && 0 < height@ && min_distance@ <= 0),
            r == Err::<SimConfig, ConfigError>(ConfigError::ForceDistanceNotAboveMin)
                <==> (0 < width@ && 0 < height@ && 0 < min_distance@
                    && force_distance@ <= min_distance@),
    {
        if width.raw <= 0 {
            Err(ConfigError::NonPositiveWidth)
        } else if height.raw <= 0 {
            Err(ConfigError::NonPositiveHeight)
        } else if min_distance.raw <= 0 {
            Err(ConfigError::NonPositiveMinDistance)
        } else if force_distance.raw <= min_distance.raw {
            Err(ConfigError::ForceDistanceNotAboveMin)
        } else {
            Ok(SimConfig { width, height, min_distance, force_distance, friction, velocity_factor })
        }
    }
}

} // verus!
