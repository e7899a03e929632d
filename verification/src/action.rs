use crate::state_filter::StateFilter;
use vstd::prelude::*;

verus! {

/// An action that runs on a state and on the output of the filter it names.
pub trait ValidAction<State, Input>: Sized {
    type Filter: StateFilter<State, Input>;

    type Output;

    /// What the action makes of `state` and the validated value.
    spec fn outcome(
        self,
        state: State,
        valid: <Self::Filter as StateFilter<State, Input>>::ValidOutput,
    ) -> Self::Output;

    fn with_valid_input(
        self,
        state: State,
        valid: <Self::Filter as StateFilter<State, Input>>::ValidOutput,
    ) -> (r: Self::Output)
        ensures
            r == self.outcome(state, valid),
    ;
}

} // verus!
