use state_validation::{
    Condition, StateFilter, StateFilterInputCombination, StateFilterInputConversion,
};

type Step = Condition<String, ()>;

fn text() -> String {
    "unchanged".to_string()
}

#[test]
fn identity_filter_gives_its_input_back() {
    let output = <() as StateFilter<u8, String>>::filter(&0, text());
    match output {
        Ok(value) => assert_eq!(value, "unchanged"),
        Err(_) => panic!("the identity filter failed"),
    }
}

#[test]
fn splitting_a_value_for_its_own_type_leaves_nothing() {
    let (taken, remainder): (String, ()) = text().split_take();
    assert_eq!(taken, "unchanged");
    let combined: String = remainder.combine(taken);
    assert_eq!(combined, "unchanged");
}

#[test]
fn identity_chain_of_one() {
    match <Step as StateFilter<u8, String>>::filter(&0, text()) {
        Ok(value) => assert_eq!(value, "unchanged"),
        Err(_) => panic!("the identity chain failed"),
    }
}

#[test]
fn identity_chain_of_two() {
    match <(Step, Step) as StateFilter<u8, String>>::filter(&0, text()) {
        Ok(value) => assert_eq!(value, "unchanged"),
        Err(_) => panic!("the identity chain failed"),
    }
}

#[test]
fn identity_chain_of_three() {
    match <(Step, Step, Step) as StateFilter<u8, String>>::filter(&0, text()) {
        Ok(value) => assert_eq!(value, "unchanged"),
        Err(_) => panic!("the identity chain failed"),
    }
}

#[test]
fn identity_chain_of_four() {
    match <(Step, Step, Step, Step) as StateFilter<u8, String>>::filter(&0, text()) {
        Ok(value) => assert_eq!(value, "unchanged"),
        Err(_) => panic!("the identity chain failed"),
    }
}

#[test]
fn identity_chain_of_five() {
    match <(Step, Step, Step, Step, Step) as StateFilter<u8, String>>::filter(&0, text()) {
        Ok(value) => assert_eq!(value, "unchanged"),
        Err(_) => panic!("the identity chain failed"),
    }
}

#[test]
fn identity_chain_of_six() {
    match <(Step, Step, Step, Step, Step, Step) as StateFilter<u8, String>>::filter(&0, text()) {
        Ok(value) => assert_eq!(value, "unchanged"),
        Err(_) => panic!("the identity chain failed"),
    }
}

#[test]
fn identity_chain_of_seven() {
    match <(Step, Step, Step, Step, Step, Step, Step) as StateFilter<u8, String>>::filter(
        &0,
        text(),
    ) {
        Ok(value) => assert_eq!(value, "unchanged"),
        Err(_) => panic!("the identity chain failed"),
    }
}

#[test]
fn identity_chain_of_eight() {
    match <(Step, Step, Step, Step, Step, Step, Step, Step) as StateFilter<u8, String>>::filter(
        &0,
        text(),
    ) {
        Ok(value) => assert_eq!(value, "unchanged"),
        Err(_) => panic!("the identity chain failed"),
    }
}

#[test]
fn finish_step_combines_an_output_and_hands_an_error_on() {
    let passed: Result<u8, String> = state_validation::finish_step((), Ok(4u8));
    assert_eq!(passed, Ok(4));
    let failed: Result<u8, String> = state_validation::finish_step((), Err("no".to_string()));
    assert_eq!(failed, Err("no".to_string()));
}

#[test]
fn take_step_with_the_identity_filter_changes_nothing() {
    let stepped = state_validation::take_step::<u8, String, String, ()>(&0, text());
    match stepped {
        Ok(value) => assert_eq!(value, "unchanged"),
        Err(_) => panic!("the identity step failed"),
    }
}
