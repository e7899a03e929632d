use state_validation::{
    Condition, FilterError, StateFilter, StateFilterEightChainError, StateFilterFiveChainError,
    StateFilterFourChainError, StateFilterSevenChainError, StateFilterSixChainError,
    StateFilterThreeChainError, StateFilterTwoChainError,
};

/// Adds the state to its input, and refuses the input 3.
struct NotThree;

#[derive(Debug, PartialEq, Eq)]
struct WasThree;

impl FilterError for WasThree {
    fn reads(&self) -> String {
        self.message()
    }
    fn message(&self) -> String {
        "the input was 3".to_string()
    }
}

impl StateFilter<i32, i32> for NotThree {
    type ValidOutput = i32;
    type Error = WasThree;
    fn verdict(state: i32, value: i32) -> Result<i32, WasThree> {
        Self::filter(&state, value)
    }
    fn filter(state: &i32, value: i32) -> Result<i32, WasThree> {
        if value == 3 {
            Err(WasThree)
        } else {
            Ok(value + *state)
        }
    }
}

type Step = Condition<i32, NotThree>;

#[test]
fn chain_of_two_passes_every_step() {
    let output = <(Step, Step) as StateFilter<i32, i32>>::filter(&1, 4);
    match output {
        Ok(value) => assert_eq!(value, 6),
        Err(_) => panic!("a passing chain failed"),
    }
}

#[test]
fn chain_of_two_fails_at_step_0() {
    let output = <(Step, Step) as StateFilter<i32, i32>>::filter(&1, 3);
    match output {
        Err(StateFilterTwoChainError::Filter0(error)) => assert_eq!(error, WasThree),
        _ => panic!("expected the error of step 0"),
    }
}

#[test]
fn chain_of_two_fails_at_step_1() {
    let output = <(Step, Step) as StateFilter<i32, i32>>::filter(&1, 2);
    match output {
        Err(StateFilterTwoChainError::Filter1(error)) => assert_eq!(error, WasThree),
        _ => panic!("expected the error of step 1"),
    }
}

#[test]
fn chain_of_three_passes_every_step() {
    let output = <(Step, Step, Step) as StateFilter<i32, i32>>::filter(&1, 4);
    match output {
        Ok(value) => assert_eq!(value, 7),
        Err(_) => panic!("a passing chain failed"),
    }
}

#[test]
fn chain_of_three_fails_at_step_0() {
    let output = <(Step, Step, Step) as StateFilter<i32, i32>>::filter(&1, 3);
    match output {
        Err(StateFilterThreeChainError::Filter0(error)) => assert_eq!(error, WasThree),
        _ => panic!("expected the error of step 0"),
    }
}

#[test]
fn chain_of_three_fails_at_step_1() {
    let output = <(Step, Step, Step) as StateFilter<i32, i32>>::filter(&1, 2);
    match output {
        Err(StateFilterThreeChainError::Filter1(error)) => assert_eq!(error, WasThree),
        _ => panic!("expected the error of step 1"),
    }
}

#[test]
fn chain_of_three_fails_at_step_2() {
    let output = <(Step, Step, Step) as StateFilter<i32, i32>>::filter(&1, 1);
    match output {
        Err(StateFilterThreeChainError::Filter2(error)) => assert_eq!(error, WasThree),
        _ => panic!("expected the error of step 2"),
    }
}

#[test]
fn chain_of_four_passes_every_step() {
    let output = <(Step, Step, Step, Step) as StateFilter<i32, i32>>::filter(&1, 4);
    match output {
        Ok(value) => assert_eq!(value, 8),
        Err(_) => panic!("a passing chain failed"),
    }
}

#[test]
fn chain_of_four_fails_at_step_0() {
    let output = <(Step, Step, Step, Step) as StateFilter<i32, i32>>::filter(&1, 3);
    match output {
        Err(StateFilterFourChainError::Filter0(error)) => assert_eq!(error, WasThree),
        _ => panic!("expected the error of step 0"),
    }
}

#[test]
fn chain_of_four_fails_at_step_2() {
    let output = <(Step, Step, Step, Step) as StateFilter<i32, i32>>::filter(&1, 1);
    match output {
        Err(StateFilterFourChainError::Filter2(error)) => assert_eq!(error, WasThree),
        _ => panic!("expected the error of step 2"),
    }
}

#[test]
fn chain_of_four_fails_at_step_3() {
    let output = <(Step, Step, Step, Step) as StateFilter<i32, i32>>::filter(&1, 0);
    match output {
        Err(StateFilterFourChainError::Filter3(error)) => assert_eq!(error, WasThree),
        _ => panic!("expected the error of step 3"),
    }
}

#[test]
fn chain_of_five_passes_every_step() {
    let output = <(Step, Step, Step, Step, Step) as StateFilter<i32, i32>>::filter(&1, 4);
    match output {
        Ok(value) => assert_eq!(value, 9),
        Err(_) => panic!("a passing chain failed"),
    }
}

#[test]
fn chain_of_five_fails_at_step_0() {
    let output = <(Step, Step, Step, Step, Step) as StateFilter<i32, i32>>::filter(&1, 3);
    match output {
        Err(StateFilterFiveChainError::Filter0(error)) => assert_eq!(error, WasThree),
        _ => panic!("expected the error of step 0"),
    }
}

#[test]
fn chain_of_five_fails_at_step_2() {
    let output = <(Step, Step, Step, Step, Step) as StateFilter<i32, i32>>::filter(&1, 1);
    match output {
        Err(StateFilterFiveChainError::Filter2(error)) => assert_eq!(error, WasThree),
        _ => panic!("expected the error of step 2"),
    }
}

#[test]
fn chain_of_five_fails_at_step_4() {
    let output = <(Step, Step, Step, Step, Step) as StateFilter<i32, i32>>::filter(&1, -1);
    match output {
        Err(StateFilterFiveChainError::Filter4(error)) => assert_eq!(error, WasThree),
        _ => panic!("expected the error of step 4"),
    }
}

#[test]
fn chain_of_six_passes_every_step() {
    let output = <(Step, Step, Step, Step, Step, Step) as StateFilter<i32, i32>>::filter(&1, 4);
    match output {
        Ok(value) => assert_eq!(value, 10),
        Err(_) => panic!("a passing chain failed"),
    }
}

#[test]
fn chain_of_six_fails_at_step_0() {
    let output = <(Step, Step, Step, Step, Step, Step) as StateFilter<i32, i32>>::filter(&1, 3);
    match output {
        Err(StateFilterSixChainError::Filter0(error)) => assert_eq!(error, WasThree),
        _ => panic!("expected the error of step 0"),
    }
}

#[test]
fn chain_of_six_fails_at_step_3() {
    let output = <(Step, Step, Step, Step, Step, Step) as StateFilter<i32, i32>>::filter(&1, 0);
    match output {
        Err(StateFilterSixChainError::Filter3(error)) => assert_eq!(error, WasThree),
        _ => panic!("expected the error of step 3"),
    }
}

#[test]
fn chain_of_six_fails_at_step_5() {
    let output = <(Step, Step, Step, Step, Step, Step) as StateFilter<i32, i32>>::filter(&1, -2);
    match output {
        Err(StateFilterSixChainError::Filter5(error)) => assert_eq!(error, WasThree),
        _ => panic!("expected the error of step 5"),
    }
}

#[test]
fn chain_of_seven_passes_every_step() {
    let output = <(Step, Step, Step, Step, Step, Step, Step) as StateFilter<i32, i32>>::filter(&1, 4);
    match output {
        Ok(value) => assert_eq!(value, 11),
        Err(_) => panic!("a passing chain failed"),
    }
}

#[test]
fn chain_of_seven_fails_at_step_0() {
    let output = <(Step, Step, Step, Step, Step, Step, Step) as StateFilter<i32, i32>>::filter(&1, 3);
    match output {
        Err(StateFilterSevenChainError::Filter0(error)) => assert_eq!(error, WasThree),
        _ => panic!("expected the error of step 0"),
    }
}

#[test]
fn chain_of_seven_fails_at_step_3() {
    let output = <(Step, Step, Step, Step, Step, Step, Step) as StateFilter<i32, i32>>::filter(&1, 0);
    match output {
        Err(StateFilterSevenChainError::Filter3(error)) => assert_eq!(error, WasThree),
        _ => panic!("expected the error of step 3"),
    }
}

#[test]
fn chain_of_seven_fails_at_step_6() {
    let output = <(Step, Step, Step, Step, Step, Step, Step) as StateFilter<i32, i32>>::filter(&1, -3);
    match output {
        Err(StateFilterSevenChainError::Filter6(error)) => assert_eq!(error, WasThree),
        _ => panic!("expected the error of step 6"),
    }
}

#[test]
fn chain_of_eight_passes_every_step() {
    let output = <(Step, Step, Step, Step, Step, Step, Step, Step) as StateFilter<i32, i32>>::filter(&1, 4);
    match output {
        Ok(value) => assert_eq!(value, 12),
        Err(_) => panic!("a passing chain failed"),
    }
}

#[test]
fn chain_of_eight_fails_at_step_0() {
    let output = <(Step, Step, Step, Step, Step, Step, Step, Step) as StateFilter<i32, i32>>::filter(&1, 3);
    match output {
        Err(StateFilterEightChainError::Filter0(error)) => assert_eq!(error, WasThree),
        _ => panic!("expected the error of step 0"),
    }
}

#[test]
fn chain_of_eight_fails_at_step_4() {
    let output = <(Step, Step, Step, Step, Step, Step, Step, Step) as StateFilter<i32, i32>>::filter(&1, -1);
    match output {
        Err(StateFilterEightChainError::Filter4(error)) => assert_eq!(error, WasThree),
        _ => panic!("expected the error of step 4"),
    }
}

#[test]
fn chain_of_eight_fails_at_step_7() {
    let output = <(Step, Step, Step, Step, Step, Step, Step, Step) as StateFilter<i32, i32>>::filter(&1, -4);
    match output {
        Err(StateFilterEightChainError::Filter7(error)) => assert_eq!(error, WasThree),
        _ => panic!("expected the error of step 7"),
    }
}

