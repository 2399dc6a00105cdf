use vstd::prelude::*;

verus! {

/// Filter-kind selector accepted at the foreign boundary.
///
/// Foreign callers hand in an integer in `1..=10`; anything outside that
/// range falls back to `Bilinear` rather than failing (see `From<usize>`).
#[derive(Clone, Copy, Debug, PartialEq, Eq, Structural)]
pub enum ScalingFunction {
    Bilinear,
    Nearest,
    Cubic,
    Mitchell,
    Lanczos,
    CatmullRom,
    Hermite,
    BSpline,
    Bicubic,
    Box,
}

/// The integer selector that names each filter at the foreign boundary.
pub open spec fn selector_of(f: ScalingFunction) -> int {
    match f {
        ScalingFunction::Bilinear => 1,
        ScalingFunction::Nearest => 2,
        ScalingFunction::Cubic => 3,
        ScalingFunction::Mitchell => 4,
        ScalingFunction::Lanczos => 5,
        ScalingFunction::CatmullRom => 6,
        ScalingFunction::Hermite => 7,
        ScalingFunction::BSpline => 8,
        ScalingFunction::Bicubic => 9,
        ScalingFunction::Box => 10,
    }
}

/// The filter a foreign integer selector denotes; out-of-range selectors
/// (0 or above 10) denote the `Bilinear` fallback.
pub open spec fn function_of_selector(value: int) -> ScalingFunction {
    if value == 1 {
        ScalingFunction::Bilinear
    } else if value == 2 {
        ScalingFunction::Nearest
    } else if value == 3 {
        ScalingFunction::Cubic
    } else if value == 4 {
        ScalingFunction::Mitchell
    } else if value == 5 {
        ScalingFunction::Lanczos
    } else if value == 6 {
        ScalingFunction::CatmullRom
    } else if value == 7 {
        ScalingFunction::Hermite
    } else if value == 8 {
        ScalingFunction::BSpline
    } else if value == 9 {
        ScalingFunction::Bicubic
    } else if value == 10 {
        ScalingFunction::Box
    } else {
        ScalingFunction::Bilinear
    }
}

impl core::convert::From<usize> for ScalingFunction {
    /// Translate a foreign integer selector; out-of-range values silently
    /// fall back to `Bilinear`, they never fail.
    fn from(value: usize) -> (r: Self) {
        match value {
            1 => ScalingFunction::Bilinear,
            2 => ScalingFunction::Nearest,
            3 => ScalingFunction::Cubic,
            4 => ScalingFunction::Mitchell,
            5 => ScalingFunction::Lanczos,
            6 => ScalingFunction::CatmullRom,
            7 => ScalingFunction::Hermite,
            8 => ScalingFunction::BSpline,
            9 => ScalingFunction::Bicubic,
            10 => ScalingFunction::Box,
            _ => ScalingFunction::Bilinear,
        }
    }
}

impl vstd::std_specs::convert::FromSpecImpl<usize> for ScalingFunction {
    open spec fn obeys_from_spec() -> bool {
        true
    }

    open spec fn from_spec(value: usize) -> Self {
        function_of_selector(value as int)
    }
}

#[verifier::external_type_specification]
#[verifier::external_body]
pub struct ExResamplingFunction(pic_scale::ResamplingFunction);

impl ScalingFunction {
    /// Relies on pic_scale::ResamplingFunction: translates each selector to
    /// the engine's own filter name, a pure lookup with no algorithmic
    /// content. Nothing is claimed of the opaque result.
    #[verifier::external_body]
    pub fn to_resampling_function(&self) -> pic_scale::ResamplingFunction {
        match self {
            ScalingFunction::Bilinear => pic_scale::ResamplingFunction::Bilinear,
            ScalingFunction::Nearest => pic_scale::ResamplingFunction::Nearest,
            ScalingFunction::Cubic => pic_scale::ResamplingFunction::Cubic,
            ScalingFunction::Mitchell => pic_scale::ResamplingFunction::MitchellNetravalli,
            ScalingFunction::Lanczos => pic_scale::ResamplingFunction::Lanczos3,
            ScalingFunction::CatmullRom => pic_scale::ResamplingFunction::CatmullRom,
            ScalingFunction::Hermite => pic_scale::ResamplingFunction::Hermite,
            ScalingFunction::BSpline => pic_scale::ResamplingFunction::BSpline,
            ScalingFunction::Bicubic => pic_scale::ResamplingFunction::Bicubic,
            ScalingFunction::Box => pic_scale::ResamplingFunction::Box,
        }
    }
}

} // verus!
