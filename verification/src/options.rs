//! Options of encoding and decoding: defaults, single overrides, and a
//! hierarchy where an override wins over what it is laid on.
use vstd::prelude::*;

verus! {

/// What encoding may do.
pub trait EncodeOptions {
    /// The tolerance of lossy float compression; `None` keeps floats exact.
    spec fn lossy_float_tolerance_spec(&self) -> Option<i32>;

    /// The tolerance of lossy float compression; `None` keeps floats exact.
    fn lossy_float_tolerance(&self) -> (tolerance: Option<i32>)
        ensures
            tolerance == self.lossy_float_tolerance_spec(),
    ;
}

/// What decoding may do.
pub trait DecodeOptions {
    /// Whether decoding may use several threads.
    spec fn parallel_spec(&self) -> bool;

    /// Whether decoding may use several threads.
    fn parallel(&self) -> (parallel: bool)
        ensures
            parallel == self.parallel_spec(),
    ;
}

/// An override of encode options: each option it sets is `Some`.
pub trait EncodeOptionsOverride {
    /// The tolerance this override sets, if it sets one.
    spec fn lossy_float_tolerance_override(&self) -> Option<Option<i32>>;

    /// The tolerance this override sets, if it sets one.
    fn lossy_float_tolerance(&self) -> (tolerance: Option<Option<i32>>)
        ensures
            tolerance == self.lossy_float_tolerance_override(),
    ;
}

/// An override of decode options: each option it sets is `Some`.
pub trait DecodeOptionsOverride {
    /// The parallelism this override sets, if it sets one.
    spec fn parallel_override(&self) -> Option<bool>;

    /// The parallelism this override sets, if it sets one.
    fn parallel(&self) -> (parallel: Option<bool>)
        ensures
            parallel == self.parallel_override(),
    ;
}

/// The default encode options: floats are kept exact.
pub struct EncodeOptionsDefault;

impl EncodeOptions for EncodeOptionsDefault {
    open spec fn lossy_float_tolerance_spec(&self) -> Option<i32> {
        None
    }

    fn lossy_float_tolerance(&self) -> (tolerance: Option<i32>) {
        None
    }
}

/// The default decode options: decoding may be parallel.
pub struct DecodeOptionsDefault;

impl DecodeOptions for DecodeOptionsDefault {
    open spec fn parallel_spec(&self) -> bool {
        true
    }

    fn parallel(&self) -> (parallel: bool) {
        true
    }
}

/// Encode options where the overrides win over the fallback.
pub struct EncodeOptionsHierarchy<T0, T1> {
    pub fallback: T0,
    pub overrides: T1,
}

impl<T0: EncodeOptions, T1: EncodeOptionsOverride> EncodeOptions for EncodeOptionsHierarchy<T0, T1> {
    open spec fn lossy_float_tolerance_spec(&self) -> Option<i32> {
        match self.overrides.lossy_float_tolerance_override() {
            Some(tolerance) => tolerance,
            None => self.fallback.lossy_float_tolerance_spec(),
        }
    }

    fn lossy_float_tolerance(&self) -> (tolerance: Option<i32>) {
        match self.overrides.lossy_float_tolerance() {
            Some(tolerance) => tolerance,
            None => self.fallback.lossy_float_tolerance(),
        }
    }
}

/// Decode options where the overrides win over the fallback.
pub struct DecodeOptionsHierarchy<T0, T1> {
    pub fallback: T0,
    pub overrides: T1,
}

impl<T0: DecodeOptions, T1: DecodeOptionsOverride> DecodeOptions for DecodeOptionsHierarchy<T0, T1> {
    open spec fn parallel_spec(&self) -> bool {
        match self.overrides.parallel_override() {
            Some(parallel) => parallel,
            None => self.fallback.parallel_spec(),
        }
    }

    fn parallel(&self) -> (parallel: bool) {
        match self.overrides.parallel() {
            Some(parallel) => parallel,
            None => self.fallback.parallel(),
        }
    }
}

/// Decoding may use several threads.
pub struct EnableParallel;

impl DecodeOptionsOverride for EnableParallel {
    open spec fn parallel_override(&self) -> Option<bool> {
        Some(true)
    }

    fn parallel(&self) -> (parallel: Option<bool>) {
        Some(true)
    }
}

/// Decoding uses one thread.
pub struct DisableParallel;

impl DecodeOptionsOverride for DisableParallel {
    open spec fn parallel_override(&self) -> Option<bool> {
        Some(false)
    }

    fn parallel(&self) -> (parallel: Option<bool>) {
        Some(false)
    }
}

/// Floats are kept exact.
pub struct LosslessFloat;

impl EncodeOptionsOverride for LosslessFloat {
    open spec fn lossy_float_tolerance_override(&self) -> Option<Option<i32>> {
        Some(None)
    }

    fn lossy_float_tolerance(&self) -> (tolerance: Option<Option<i32>>) {
        Some(None)
    }
}

/// Floats may be compressed with loss, within the given tolerance.
pub struct LossyFloatTolerance(pub i32);

impl EncodeOptionsOverride for LossyFloatTolerance {
    open spec fn lossy_float_tolerance_override(&self) -> Option<Option<i32>> {
        Some(Some(self.0))
    }

    fn lossy_float_tolerance(&self) -> (tolerance: Option<Option<i32>>) {
        Some(Some(self.0))
    }
}

/// `options` with `overrides` laid on them.
pub fn override_encode_options<T0: EncodeOptions, T1: EncodeOptionsOverride>(
    options: T0,
    overrides: T1,
) -> (combined: EncodeOptionsHierarchy<T0, T1>)
    ensures
        combined.fallback == options,
        combined.overrides == overrides,
        combined.lossy_float_tolerance_spec() == match overrides.lossy_float_tolerance_override() {
            Some(tolerance) => tolerance,
            None => options.lossy_float_tolerance_spec(),
        },
{
    EncodeOptionsHierarchy { fallback: options, overrides }
}

/// `options` with `overrides` laid on them.
pub fn override_decode_options<T0: DecodeOptions, T1: DecodeOptionsOverride>(
    options: T0,
    overrides: T1,
) -> (combined: DecodeOptionsHierarchy<T0, T1>)
    ensures
        combined.fallback == options,
        combined.overrides == overrides,
        combined.parallel_spec() == match overrides.parallel_override() {
            Some(parallel) => parallel,
            None => options.parallel_spec(),
        },
{
    DecodeOptionsHierarchy { fallback: options, overrides }
}

/// The last override laid on wins: laying `second` over `first` over any
/// options gives the tolerance `second` sets, where it sets one.
pub proof fn lemma_last_encode_override_wins<T0: EncodeOptions, T1: EncodeOptionsOverride, T2: EncodeOptionsOverride>(
    options: EncodeOptionsHierarchy<EncodeOptionsHierarchy<T0, T1>, T2>,
)
    requires
        options.overrides.lossy_float_tolerance_override() is Some,
    ensures
        options.lossy_float_tolerance_spec() == options.overrides.lossy_float_tolerance_override()->0,
{
}

/// Decoding options keep the setting of the last override that sets one,
/// and the fallback's where none does.
pub proof fn lemma_decode_override_order<T0: DecodeOptions, T1: DecodeOptionsOverride, T2: DecodeOptionsOverride>(
    options: DecodeOptionsHierarchy<DecodeOptionsHierarchy<T0, T1>, T2>,
)
    ensures
        options.parallel_spec() == match options.overrides.parallel_override() {
            Some(parallel) => parallel,
            None => match options.fallback.overrides.parallel_override() {
                Some(parallel) => parallel,
                None => options.fallback.fallback.parallel_spec(),
            },
        },
{
}

} // verus!
