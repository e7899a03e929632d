use crate::action::ValidAction;
use crate::dynamic::state_filter::{forgotten, share, AnyOutput, DynError, DynStateFilter};
use crate::state_filter::StateFilter;
use std::rc::Rc;
use vstd::prelude::*;

verus! {

/// Why an action did not run: its filter failed. The state comes back.
pub struct DynValidActionExecutionError<State> {
    pub state: State,
    pub error: DynError,
}

/// What the action makes of `state` and `input`: it runs where its filter
/// passes, on the state and the filter's output; where the filter fails, the
/// state comes back with the error.
pub open spec fn performed<State, Input, T>(action: T, state: State, input: Input) -> Result<
    T::Output,
    DynValidActionExecutionError<State>,
> where
    T: ValidAction<State, Input>,
    <T::Filter as StateFilter<State, Input>>::Error: 'static,
 {
    match <T::Filter as StateFilter<State, Input>>::verdict(state, input) {
        Ok(valid) => Ok(action.outcome(state, valid)),
        Err(error) => Err(DynValidActionExecutionError { state, error: DynError::of(error) }),
    }
}

/// Whether every clone of `value` is `value` again.
pub open spec fn clones_itself<T: Clone>(value: T) -> bool {
    forall|copy: T| #[trigger] cloned(value, copy) ==> copy == value
}

/// What is left of an action when its type is forgotten: it can be run, as
/// itself or as a clone of itself.
trait ErasedAction<State, Input, Output> {
    spec fn duplicable(&self) -> bool;

    spec fn result(&self, state: State, input: Input) -> Result<
        Output,
        DynValidActionExecutionError<State>,
    >;

    fn run(self: Box<Self>, state: State, input: Input) -> (r: Result<
        Output,
        DynValidActionExecutionError<State>,
    >)
        ensures
            r == self.result(state, input),
    ;

    fn run_clone(&self, state: State, input: Input) -> (r: Result<
        Output,
        DynValidActionExecutionError<State>,
    >)
        ensures
            self.duplicable() ==> r == self.result(state, input),
    ;
}

/// An action of any type.
#[verifier::reject_recursive_types(State)]
#[verifier::reject_recursive_types(Input)]
#[verifier::reject_recursive_types(Output)]
struct Boxed<State, Input, Output>(Box<dyn ErasedAction<State, Input, Output>>);

/// The action `T`.
struct Holding<T> {
    valid_action: T,
}

/// Asks the filter of `valid_action` and, where it passes, runs the action.
fn perform<State, Input, T>(valid_action: T, state: State, input: Input) -> (r: Result<
    T::Output,
    DynValidActionExecutionError<State>,
>) where
    T: ValidAction<State, Input>,
    <T::Filter as StateFilter<State, Input>>::Error: 'static,

    ensures
        r == performed::<State, Input, T>(valid_action, state, input),
{
    match <T::Filter as StateFilter<State, Input>>::filter(&state, input) {
        Ok(valid) => Ok(valid_action.with_valid_input(state, valid)),
        Err(error) => Err(DynValidActionExecutionError { state, error: DynError::new(error) }),
    }
}

impl<State, Input, Output, T> ErasedAction<State, Input, Output> for Holding<T> where
    T: ValidAction<State, Input, Output = Output> + Clone + 'static,
    <T::Filter as StateFilter<State, Input>>::Error: 'static,
    T::Filter: 'static,
 {
    spec fn duplicable(&self) -> bool {
        clones_itself(self.valid_action)
    }

    spec fn result(&self, state: State, input: Input) -> Result<
        Output,
        DynValidActionExecutionError<State>,
    > {
        performed::<State, Input, T>(self.valid_action, state, input)
    }

    fn run(self: Box<Self>, state: State, input: Input) -> (r: Result<
        Output,
        DynValidActionExecutionError<State>,
    >) {
        perform(self.valid_action, state, input)
    }

    fn run_clone(&self, state: State, input: Input) -> (r: Result<
        Output,
        DynValidActionExecutionError<State>,
    >) {
        let copy = self.valid_action.clone();
        assert(cloned(self.valid_action, copy));
        perform(copy, state, input)
    }
}

/// An action whose own type is forgotten, together with its filter. Copies
/// share the action until one of them runs: the last one to run takes the
/// action itself, any other a clone of it.
#[verifier::reject_recursive_types(State)]
#[verifier::reject_recursive_types(Input)]
#[verifier::reject_recursive_types(Output)]
pub struct DynValidAction<State, Input, Output> {
    filter: DynStateFilter<State, Input, AnyOutput>,
    valid_action: Rc<Boxed<State, Input, Output>>,
}

impl<State, Input, Output> DynValidAction<State, Input, Output> {
    #[verifier::type_invariant]
    spec fn duplicable(self) -> bool {
        self.valid_action.0.duplicable()
    }

    /// The filter that the action asks.
    pub closed spec fn filter_spec(&self) -> DynStateFilter<State, Input, AnyOutput> {
        self.filter
    }

    /// What the action makes of `state` and `input`.
    pub closed spec fn result(&self, state: State, input: Input) -> Result<
        Output,
        DynValidActionExecutionError<State>,
    > {
        self.valid_action.0.result(state, input)
    }

    /// Forgets the type of `valid_action` and of its filter. The action must
    /// support duplication: a clone of it is the same action.
    pub fn new<T>(valid_action: T) -> (r: Self) where
        T: ValidAction<State, Input, Output = Output> + Clone + 'static,
        <T::Filter as StateFilter<State, Input>>::Error: 'static,
        T::Filter: 'static,

        requires
            clones_itself(valid_action),
        ensures
            r.filter_spec().faithful(),
            forall|state: State, input: Input|
                #[trigger] r.result(state, input) == performed::<State, Input, T>(
                    valid_action,
                    state,
                    input,
                ),
            forall|state: State, input: Input|
                #[trigger] r.filter_spec().verdict(state, input) == forgotten::<
                    State,
                    Input,
                    T::Filter,
                >(state, input),
    {
        DynValidAction {
            filter: DynStateFilter::new_with_any_output::<T::Filter>(),
            valid_action: Rc::new(Boxed(Box::new(Holding { valid_action }))),
        }
    }

    /// The filter that the action asks.
    pub fn filter(&self) -> (r: &DynStateFilter<State, Input, AnyOutput>)
        ensures
            *r == self.filter_spec(),
    {
        &self.filter
    }

    /// Asks the filter about `input` under `state` and, where it passes,
    /// runs the action.
    pub fn execute_with_filter(self, state: State, input: Input) -> (r: Result<
        Output,
        DynValidActionExecutionError<State>,
    >)
        ensures
            r == self.result(state, input),
    {
        proof {
            use_type_invariant(&self);
        }
        match Rc::try_unwrap(self.valid_action) {
            Ok(own) => own.0.run(state, input),
            Err(shared) => shared.0.run_clone(state, input),
        }
    }
}

impl<State, Input, Output> ValidAction<State, Input> for DynValidAction<State, Input, Output> {
    type Filter = ();

    type Output = Result<Output, DynValidActionExecutionError<State>>;

    open spec fn outcome(self, state: State, valid: Input) -> Result<
        Output,
        DynValidActionExecutionError<State>,
    > {
        self.result(state, valid)
    }

    fn with_valid_input(self, state: State, valid: Input) -> (r: Result<
        Output,
        DynValidActionExecutionError<State>,
    >) {
        self.execute_with_filter(state, valid)
    }
}

impl<State, Input, Output> Clone for DynValidAction<State, Input, Output> {
    /// The copy is the same action with the same filter.
    fn clone(&self) -> (r: Self)
        ensures
            r.filter_spec() == self.filter_spec(),
            forall|state: State, input: Input|
                #[trigger] r.result(state, input) == self.result(state, input),
    {
        proof {
            use_type_invariant(self);
        }
        DynValidAction { filter: self.filter.clone(), valid_action: share(&self.valid_action) }
    }
}

} // verus!
