use lean_state::justifiability::{
    run_justifiability_test, JustifiabilityError, JustifiabilityOutput, JustifiabilityTest,
};

fn case(slot: u64, finalized_slot: u64, delta: i64, is_justifiable: bool) -> JustifiabilityTest {
    JustifiabilityTest {
        slot,
        finalized_slot,
        output: JustifiabilityOutput {
            delta,
            is_justifiable,
        },
    }
}

#[test]
fn cases_that_hold_pass() {
    assert_eq!(run_justifiability_test("a", &case(16, 0, 16, true)), Ok(()));
    assert_eq!(run_justifiability_test("b", &case(17, 0, 17, false)), Ok(()));
    assert_eq!(run_justifiability_test("c", &case(9, 10, -1, false)), Ok(()));
}

#[test]
fn the_distance_is_checked_first() {
    assert_eq!(
        run_justifiability_test("a", &case(16, 0, 15, false)),
        Err(JustifiabilityError::DeltaMismatch {
            expected_delta: 15,
            actual_delta: 16
        })
    );
    assert_eq!(
        run_justifiability_test("b", &case(u64::MAX, 0, -1, false)),
        Err(JustifiabilityError::DeltaMismatch {
            expected_delta: -1,
            actual_delta: u64::MAX as i128
        })
    );
    assert_eq!(
        run_justifiability_test("c", &case(17, 0, 17, true)),
        Err(JustifiabilityError::JustifiableMismatch {
            expected: true,
            actual: false
        })
    );
}
