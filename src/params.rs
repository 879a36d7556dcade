//! The configuration record of a generation run.

use vstd::prelude::*;

verus! {

/// Thresholds and scale factors of a generation run, every field in
/// fixed point (see `crate::fixed::UNIT`).
#[derive(Clone, Copy, Debug, PartialEq, Eq, Structural)]
pub struct WorldParameters {
    pub sea_level: i64,
    pub peak_h: i64,
    pub mountain_h: i64,
    pub hills_h: i64,
    pub frozen_t: i64,
    pub tundra_t: i64,
    pub boreal_t: i64,
    pub boreal_r: i64,
    pub temperate_t: i64,
    pub temperate_r: i64,
    pub rainforest_t: i64,
    pub rainforest_r: i64,
    pub wetlands_r: i64,
    pub desert_cutoff: i64,
    pub plains_cutoff: i64,
    pub global_heat_scaling: i64,
    pub river_factor: i64,
    pub altitude_scale: i64,
    pub temperature_scale: i64,
    pub rainfall_scale: i64,
}

/// Why a parameter record cannot drive a generation run.
#[derive(Clone, Copy, Debug, PartialEq, Eq, Structural)]
pub enum ParameterError {
    /// A noise scale divisor is zero or negative.
    NonPositiveScale,
    /// The river factor is zero.
    ZeroRiverFactor,
}

impl WorldParameters {
    /// The noise scale divisors are positive and the river factor is nonzero.
    pub open spec fn valid_spec(&self) -> bool {
        &&& self.altitude_scale > 0
        &&& self.temperature_scale > 0
        &&& self.rainfall_scale > 0
        &&& self.river_factor != 0
    }

    /// Detects a record that cannot drive a run: a scale divisor that is not
    /// positive is reported before a zero river factor.
    pub fn validate(&self) -> (r: Result<(), ParameterError>)
        ensures
            r is Ok <==> self.valid_spec(),
            r == Err::<(), ParameterError>(ParameterError::NonPositiveScale) <==> (
            self.altitude_scale <= 0 || self.temperature_scale <= 0 || self.rainfall_scale <= 0),
            r == Err::<(), ParameterError>(ParameterError::ZeroRiverFactor) <==> (
            self.altitude_scale > 0 && self.temperature_scale > 0 && self.rainfall_scale > 0
                && self.river_factor == 0),
    {
        if self.altitude_scale <= 0 || self.temperature_scale <= 0 || self.rainfall_scale <= 0 {
            Err(ParameterError::NonPositiveScale)
        } else if self.river_factor == 0 {
            Err(ParameterError::ZeroRiverFactor)
        } else {
            Ok(())
        }
    }
}

} // verus!
