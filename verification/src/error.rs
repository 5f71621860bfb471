use vstd::prelude::*;

verus! {

/// Why a generator or buffer could not be built from the given settings.
#[derive(Debug, Clone, Copy, PartialEq, Eq, Structural)]
pub enum ConfigError {
    /// The density is zero, so no grid period exists.
    ZeroDensity,
    /// The sample rate is zero.
    ZeroSampleRate,
    /// More impulses per second were asked for than there are samples.
    DensityAboveSampleRate,
    /// The skew is not a probability strictly between zero and one.
    SkewOutOfRange,
    /// A buffer of no capacity cannot hold a sample.
    ZeroCapacity,
}

/// The words that describe each configuration error.
pub open spec fn description(e: ConfigError) -> Seq<char> {
    match e {
        ConfigError::ZeroDensity => "density must be greater than zero"@,
        ConfigError::ZeroSampleRate => "sample rate must be greater than zero"@,
        ConfigError::DensityAboveSampleRate => "density must not exceed the sample rate"@,
        ConfigError::SkewOutOfRange => "skew must lie strictly between zero and one"@,
        ConfigError::ZeroCapacity => "capacity must be greater than zero"@,
    }
}

impl ConfigError {
    /// What is wrong with the settings, in words.
    pub fn message(&self) -> (r: String)
        ensures
            r@ == description(*self),
    {
        match self {
            ConfigError::ZeroDensity => "density must be greater than zero".to_owned(),
            ConfigError::ZeroSampleRate => "sample rate must be greater than zero".to_owned(),
            ConfigError::DensityAboveSampleRate => "density must not exceed the sample rate".to_owned(),
            ConfigError::SkewOutOfRange => "skew must lie strictly between zero and one".to_owned(),
            ConfigError::ZeroCapacity => "capacity must be greater than zero".to_owned(),
        }
    }
}

/// An access that fell outside the addressed range.
#[derive(Debug, Clone, Copy, PartialEq, Eq, Structural)]
pub struct BoundaryError {
    /// The offset or index that was asked for.
    pub index: usize,
    /// The exclusive upper end of what could have been asked for.
    pub bound: usize,
}

} // verus!
