use state_validation::{
    AnyOutput, DynError, DynStateFilter, DynValidAction, FilterError, StateFilter, ValidAction,
};

struct Positive;

#[derive(Debug, PartialEq, Eq)]
struct NotPositive(i32);

impl FilterError for NotPositive {
    fn reads(&self) -> String {
        self.message()
    }
    fn message(&self) -> String {
        format!("{} is not positive", self.0)
    }
}

impl StateFilter<i32, i32> for Positive {
    type ValidOutput = u8;
    type Error = NotPositive;
    fn verdict(state: i32, value: i32) -> Result<u8, NotPositive> {
        Self::filter(&state, value)
    }
    fn filter(state: &i32, value: i32) -> Result<u8, NotPositive> {
        if value + *state > 0 {
            Ok((value + *state) as u8)
        } else {
            Err(NotPositive(value))
        }
    }
}

#[test]
fn erased_filter_converts_the_output() {
    let filter: DynStateFilter<i32, i32, u64> = DynStateFilter::new::<Positive>();
    match filter.filter(&1, 4) {
        Ok(value) => assert_eq!(value, 5u64),
        Err(_) => panic!("a passing input was refused"),
    }
}

#[test]
fn erased_filter_keeps_the_message_of_the_error() {
    let filter: DynStateFilter<i32, i32, u64> = DynStateFilter::new::<Positive>();
    match filter.filter(&0, -3) {
        Ok(_) => panic!("a failing input passed"),
        Err(error) => assert_eq!(error.message(), "-3 is not positive"),
    }
}

#[test]
fn erased_filter_with_any_output_tells_pass_from_fail() {
    let filter = DynStateFilter::<i32, i32, AnyOutput>::new_with_any_output::<Positive>();
    assert!(matches!(filter.filter(&0, 2), Ok(AnyOutput)));
    match filter.filter(&0, 0) {
        Ok(_) => panic!("a failing input passed"),
        Err(error) => assert_eq!(error.message(), "0 is not positive"),
    }
}

#[test]
fn copy_of_an_erased_filter_answers_the_same() {
    let filter: DynStateFilter<i32, i32, u64> = DynStateFilter::new::<Positive>();
    let copy = filter.clone();
    assert!(matches!(copy.filter(&2, 3), Ok(5)));
    assert!(matches!(filter.filter(&2, 3), Ok(5)));
    assert!(copy.filter(&0, -1).is_err());
}

#[test]
fn erased_error_reads_as_the_error_it_was() {
    let error = DynError::new(NotPositive(-7));
    assert_eq!(error.message(), "-7 is not positive");
}

#[derive(Clone)]
struct Scale(i32);

impl ValidAction<i32, i32> for Scale {
    type Filter = Positive;
    type Output = i32;
    fn outcome(self, state: i32, valid: u8) -> i32 {
        self.with_valid_input(state, valid)
    }
    fn with_valid_input(self, state: i32, valid: u8) -> i32 {
        self.0 * (state + valid as i32)
    }
}

#[test]
fn erased_action_runs_where_its_filter_passes() {
    let action: DynValidAction<i32, i32, i32> = DynValidAction::new(Scale(3));
    match action.execute_with_filter(1, 4) {
        Ok(output) => assert_eq!(output, 18),
        Err(_) => panic!("a passing input was refused"),
    }
}

#[test]
fn erased_action_gives_the_state_back_where_its_filter_fails() {
    let action: DynValidAction<i32, i32, i32> = DynValidAction::new(Scale(3));
    match action.execute_with_filter(-10, 4) {
        Ok(_) => panic!("a failing input passed"),
        Err(error) => {
            assert_eq!(error.state, -10);
            assert_eq!(error.error.message(), "4 is not positive");
        }
    }
}

#[test]
fn erased_action_shows_its_filter() {
    let action: DynValidAction<i32, i32, i32> = DynValidAction::new(Scale(3));
    assert!(action.filter().filter(&0, 1).is_ok());
    assert!(action.filter().filter(&0, -1).is_err());
}

#[test]
fn erased_action_is_an_action_that_validates_itself() {
    let action: DynValidAction<i32, i32, i32> = DynValidAction::new(Scale(2));
    match action.with_valid_input(1, 1) {
        Ok(output) => assert_eq!(output, 6),
        Err(_) => panic!("a passing input was refused"),
    }
}

#[test]
fn copies_of_an_erased_action_run_each_on_their_own() {
    let action: DynValidAction<i32, i32, i32> = DynValidAction::new(Scale(5));
    let copy = action.clone();
    let another = copy.clone();
    assert!(matches!(action.execute_with_filter(0, 2), Ok(10)));
    assert!(matches!(copy.execute_with_filter(1, 2), Ok(20)));
    assert!(another.filter().filter(&0, 3).is_ok());
    match another.execute_with_filter(0, -2) {
        Ok(_) => panic!("a failing input passed"),
        Err(error) => assert_eq!(error.state, 0),
    }
}
