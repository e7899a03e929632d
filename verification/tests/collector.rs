use state_validation::{CollectedInputs, FilterError, InputCollector, StateFilter};

struct Limit(u32);

struct Below;

#[derive(Debug, PartialEq, Eq)]
struct TooLarge(u32);

impl FilterError for TooLarge {
    fn reads(&self) -> String {
        self.message()
    }
    fn message(&self) -> String {
        format!("{} is too large", self.0)
    }
}

impl StateFilter<Limit, u32> for Below {
    type ValidOutput = u32;
    type Error = TooLarge;
    fn verdict(state: Limit, value: u32) -> Result<u32, TooLarge> {
        Self::filter(&state, value)
    }
    fn filter(state: &Limit, value: u32) -> Result<u32, TooLarge> {
        if value < state.0 {
            Ok(value * 10)
        } else {
            Err(TooLarge(value))
        }
    }
}

fn collected(values: Vec<u32>) -> CollectedInputs<Limit, u32> {
    CollectedInputs::new(values)
}

#[test]
fn fits_all_when_every_input_passes() {
    assert!(collected(vec![1, 2, 3]).fits_all::<Below>(&Limit(4)));
}

#[test]
fn fits_all_fails_on_one_failure() {
    assert!(!collected(vec![1, 9, 3]).fits_all::<Below>(&Limit(4)));
}

#[test]
fn fits_all_of_nothing() {
    assert!(collected(vec![]).fits_all::<Below>(&Limit(0)));
}

#[test]
fn fits_any_when_one_input_passes() {
    assert!(collected(vec![8, 9, 3]).fits_any::<Below>(&Limit(4)));
}

#[test]
fn fits_any_fails_when_none_passes() {
    assert!(!collected(vec![8, 9]).fits_any::<Below>(&Limit(4)));
}

#[test]
fn fits_any_of_nothing() {
    assert!(!collected(vec![]).fits_any::<Below>(&Limit(100)));
}

#[test]
fn fits_iter_keeps_the_outputs_in_order() {
    let outputs = collected(vec![3, 8, 1, 9, 2]).fits_iter::<Below>(&Limit(4));
    assert_eq!(outputs, vec![30, 10, 20]);
}

#[test]
fn fits_iter_of_failures_is_empty() {
    let outputs = collected(vec![8, 9]).fits_iter::<Below>(&Limit(4));
    assert_eq!(outputs, Vec::<u32>::new());
}

struct UpTo;

impl InputCollector<Limit, u32> for UpTo {
    fn inputs(state: Limit) -> Vec<u32> {
        (0..=state.0).collect()
    }
    fn collect_inputs(state: &Limit) -> CollectedInputs<Limit, u32> {
        CollectedInputs::new((0..=state.0).collect())
    }
}

#[test]
fn collector_hands_its_inputs_to_the_filter() {
    let limit = Limit(3);
    let outputs = UpTo::collect_inputs(&limit).fits_iter::<Below>(&limit);
    assert_eq!(outputs, vec![0, 10, 20]);
    assert!(!UpTo::collect_inputs(&limit).fits_all::<Below>(&limit));
    assert!(UpTo::collect_inputs(&limit).fits_any::<Below>(&limit));
}
