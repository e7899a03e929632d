use crate::action::ValidAction;
use crate::state_filter::StateFilter;
use vstd::prelude::*;

verus! {

/// Whether `value` is what `Filter` gives for some input under `state`.
pub open spec fn passed<State, Input, Filter: StateFilter<State, Input>>(
    state: State,
    value: Filter::ValidOutput,
) -> bool {
    exists|input: Input| #[trigger] Filter::verdict(state, input) == Ok::<
        Filter::ValidOutput,
        Filter::Error,
    >(value)
}

/// A state together with the value that a filter made of an input under it.
/// There is no way to one but through the filter, and it is used up by the
/// action it is handed to.
pub struct Validator<State, Input, Filter: StateFilter<State, Input>> {
    state: State,
    value: Filter::ValidOutput,
    _p: core::marker::PhantomData<(Input, Filter)>,
}

impl<State, Input, Filter: StateFilter<State, Input>> Validator<State, Input, Filter> {
    /// The state that was validated against.
    pub closed spec fn state(self) -> State {
        self.state
    }

    /// The value that the filter gave.
    pub closed spec fn value(self) -> Filter::ValidOutput {
        self.value
    }

    #[verifier::type_invariant]
    spec fn validated(self) -> bool {
        passed::<State, Input, Filter>(self.state, self.value)
    }

    /// Asks the filter about `input` under `state`. Where it passes, the
    /// validator takes the state and the filter's output; where it fails,
    /// its error comes back and there is no validator.
    pub fn try_new(state: State, input: Input) -> (r: Result<Self, Filter::Error>)
        ensures
            match Filter::verdict(state, input) {
                Ok(value) => r matches Ok(validator) && validator.state() == state
                    && validator.value() == value,
                Err(error) => r matches Err(e) && e == error,
            },
    {
        match Filter::filter(&state, input) {
            Ok(value) => Ok(Validator { state, value, _p: core::marker::PhantomData }),
            Err(error) => Err(error),
        }
    }

    /// The validated value: what the filter gave for some input under the
    /// state that the validator holds.
    pub fn valid_output(&self) -> (r: &Filter::ValidOutput)
        ensures
            *r == self.value(),
            passed::<State, Input, Filter>(self.state(), *r),
    {
        proof {
            use_type_invariant(self);
        }
        &self.value
    }

    /// Hands the state and the validated value to `valid_action`.
    pub fn execute<Action: ValidAction<State, Input, Filter = Filter>>(
        self,
        valid_action: Action,
    ) -> (r: Action::Output)
        ensures
            r == valid_action.outcome(self.state(), self.value()),
            passed::<State, Input, Filter>(self.state(), self.value()),
    {
        proof {
            use_type_invariant(&self);
        }
        valid_action.with_valid_input(self.state, self.value)
    }
}

} // verus!
