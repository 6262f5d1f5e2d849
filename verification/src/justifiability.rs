//! Recorded cases of which slots may be justified.

use crate::slot::{is_justifiable_after, justifiable};
use vstd::prelude::*;

verus! {

/// What a case expects.
#[derive(Clone, Copy, Debug, PartialEq, Eq)]
pub struct JustifiabilityOutput {
    pub delta: i64,
    pub is_justifiable: bool,
}

/// A slot, the last finalized slot, and what is expected of them.
#[derive(Clone, Copy, Debug, PartialEq, Eq)]
pub struct JustifiabilityTest {
    pub slot: u64,
    pub finalized_slot: u64,
    pub output: JustifiabilityOutput,
}

/// How a case differs from what it expects.
#[derive(Clone, Copy, Debug, PartialEq, Eq)]
pub enum JustifiabilityError {
    /// The distance between the slots is another.
    DeltaMismatch { expected_delta: i64, actual_delta: i128 },
    /// The slot may be justified and should not, or the other way round.
    JustifiableMismatch { expected: bool, actual: bool },
}

/// The outcome of a case.
pub open spec fn case_outcome(test: JustifiabilityTest) -> Result<(), JustifiabilityError> {
    let delta = test.slot - test.finalized_slot;
    let actual = justifiable(test.slot, test.finalized_slot);
    if delta != test.output.delta {
        Err(
            JustifiabilityError::DeltaMismatch {
                expected_delta: test.output.delta,
                actual_delta: delta as i128,
            },
        )
    } else if actual != test.output.is_justifiable {
        Err(
            JustifiabilityError::JustifiableMismatch {
                expected: test.output.is_justifiable,
                actual,
            },
        )
    } else {
        Ok(())
    }
}

/// Runs a case. Its name does not matter to the outcome.
pub fn run_justifiability_test(_test_name: &str, test: &JustifiabilityTest) -> (outcome: Result<
    (),
    JustifiabilityError,
>)
    ensures
        outcome == case_outcome(*test),
{
    let actual_delta: i128 = test.slot as i128 - test.finalized_slot as i128;
    if actual_delta != test.output.delta as i128 {
        return Err(
            JustifiabilityError::DeltaMismatch {
                expected_delta: test.output.delta,
                actual_delta,
            },
        );
    }
    let actual = is_justifiable_after(test.slot, test.finalized_slot);
    if actual != test.output.is_justifiable {
        return Err(
            JustifiabilityError::JustifiableMismatch {
                expected: test.output.is_justifiable,
                actual,
            },
        );
    }
    Ok(())
}

} // verus!
