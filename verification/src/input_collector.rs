use crate::state_filter::StateFilter;
use vstd::prelude::*;

verus! {

/// Inputs gathered for a state, to be tried against a filter.
pub struct CollectedInputs<State, Input> {
    inputs: Vec<Input>,
    _m: core::marker::PhantomData<State>,
}

impl<State, Input> View for CollectedInputs<State, Input> {
    type V = Seq<Input>;

    closed spec fn view(&self) -> Seq<Input> {
        self.inputs@
    }
}

/// The output of the filter `F` for `input`, where it passes.
pub open spec fn passing<State, Input, F: StateFilter<State, Input>>(
    state: State,
    input: Input,
) -> Option<F::ValidOutput> {
    match F::verdict(state, input) {
        Ok(value) => Some(value),
        Err(_) => None,
    }
}

impl<State, Input> CollectedInputs<State, Input> {
    /// Holds `inputs`, in their order.
    pub fn new(inputs: Vec<Input>) -> (r: Self)
        ensures
            r@ == inputs@,
    {
        CollectedInputs { inputs, _m: core::marker::PhantomData }
    }

    /// Do all the inputs pass the filter without error?
    pub fn fits_all<F: StateFilter<State, Input>>(self, state: &State) -> (r: bool)
        ensures
            r == forall|i: int| 0 <= i < self@.len() ==> #[trigger] F::verdict(*state, self@[i]) is Ok,
    {
        let ghost all = self.inputs@;
        for input in it: self.inputs.into_iter()
            invariant
                it.seq() == all,
                forall|i: int| 0 <= i < it.index() ==> #[trigger] F::verdict(*state, all[i]) is Ok,
        {
            match F::filter(state, input) {
                Ok(_) => {},
                Err(_) => {
                    return false;
                },
            }
        }
        true
    }

    /// Do any of the inputs pass the filter without error?
    pub fn fits_any<F: StateFilter<State, Input>>(self, state: &State) -> (r: bool)
        ensures
            r == exists|i: int| 0 <= i < self@.len() && #[trigger] F::verdict(*state, self@[i]) is Ok,
    {
        let ghost all = self.inputs@;
        for input in it: self.inputs.into_iter()
            invariant
                it.seq() == all,
                forall|i: int| 0 <= i < it.index() ==> !(#[trigger] F::verdict(*state, all[i]) is Ok),
        {
            match F::filter(state, input) {
                Ok(_) => {
                    return true;
                },
                Err(_) => {},
            }
        }
        false
    }

    /// The outputs of the inputs that pass the filter without error, in the
    /// order of the inputs.
    pub fn fits_iter<F: StateFilter<State, Input>>(self, state: &State) -> (r: Vec<F::ValidOutput>)
        ensures
            r@ == self@.filter_map(|input: Input| passing::<State, Input, F>(*state, input)),
    {
        let ghost all = self.inputs@;
        let ghost pass = |input: Input| passing::<State, Input, F>(*state, input);
        let mut outputs: Vec<F::ValidOutput> = Vec::new();
        for input in it: self.inputs.into_iter()
            invariant
                it.seq() == all,
                pass == |input: Input| passing::<State, Input, F>(*state, input),
                outputs@ == all.take(it.index() as int).filter_map(pass),
        {
            proof {
                assert(all.take(it.index() + 1).drop_last() =~= all.take(it.index() as int));
            }
            match F::filter(state, input) {
                Ok(value) => {
                    outputs.push(value);
                },
                Err(_) => {},
            }
        }
        assert(all.take(all.len() as int) =~= all);
        outputs
    }
}

/// A way to gather the inputs that a state offers.
pub trait InputCollector<State, Input> {
    /// The inputs that `state` offers.
    spec fn inputs(state: State) -> Vec<Input>;

    fn collect_inputs(state: &State) -> (r: CollectedInputs<State, Input>)
        ensures
            r@ == Self::inputs(*state)@,
    ;
}

} // verus!
