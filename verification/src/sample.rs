use vstd::prelude::*;

verus! {

/// One observation: when it happened and what was measured.
///
/// `timestamp_ms` is wall-clock milliseconds since the epoch and
/// `value_milli` is the reading in thousandths of a value unit, so both
/// coordinates are exact integers.
#[derive(Clone, Copy, PartialEq, Eq, Structural, Debug)]
pub struct Sample {
    pub timestamp_ms: i64,
    pub value_milli: i64,
}

} // verus!
