use crate::condition::Condition;
use vstd::prelude::*;

verus! {

/// What every error of a filter offers: a message to read.
pub trait FilterError {
    /// How the error reads.
    spec fn reads(&self) -> String;

    fn message(&self) -> (r: String)
        ensures
            r@ == self.reads()@,
    ;
}

/// The error of a filter that cannot fail. There is no such error to read.
impl FilterError for core::convert::Infallible {
    open spec fn reads(&self) -> String {
        choose|text: String| text@.len() == 0
    }

    /// The message is the empty text.
    fn message(&self) -> (r: String)
        ensures
            r@ == Seq::<char>::empty(),
    {
        let text = String::new();
        assert(self.reads()@ =~= text@);
        text
    }
}

/// A pure check of an input against a state.
pub trait StateFilter<State, Input> {
    type ValidOutput;

    type Error: FilterError;

    /// What the filter answers for `value` under `state`.
    spec fn verdict(state: State, value: Input) -> Result<Self::ValidOutput, Self::Error>;

    fn filter(state: &State, value: Input) -> (r: Result<Self::ValidOutput, Self::Error>)
        ensures
            r == Self::verdict(*state, value),
    ;
}

/// Splits a value into the part `T` that a filter consumes and the rest.
pub trait StateFilterInputConversion<T>: Sized {
    type Remainder;

    spec fn split_spec(self) -> (T, Self::Remainder);

    fn split_take(self) -> (r: (T, Self::Remainder))
        ensures
            r == self.split_spec(),
    ;
}

/// Puts a remainder and a filter's output back together.
pub trait StateFilterInputCombination<T>: Sized {
    type Combined;

    spec fn combine_spec(self, value: T) -> Self::Combined;

    fn combine(self, value: T) -> (r: Self::Combined)
        ensures
            r == self.combine_spec(value),
    ;
}

impl<T> StateFilterInputConversion<T> for T {
    type Remainder = ();

    open spec fn split_spec(self) -> (T, ()) {
        (self, ())
    }

    fn split_take(self) -> (r: (T, ())) {
        (self, ())
    }
}

impl<T> StateFilterInputCombination<T> for () {
    type Combined = T;

    open spec fn combine_spec(self, value: T) -> T {
        value
    }

    fn combine(self, value: T) -> (r: T) {
        value
    }
}

impl<State, Input> StateFilter<State, Input> for () {
    type ValidOutput = Input;

    type Error = core::convert::Infallible;

    open spec fn verdict(state: State, value: Input) -> Result<Input, core::convert::Infallible> {
        Ok(value)
    }

    fn filter(state: &State, value: Input) -> (r: Result<Input, core::convert::Infallible>) {
        Ok(value)
    }
}

/// The most steps that a chain can have. Longer chains would go by the same
/// rule: the ceiling is one of this module, not of the algebra.
pub const CHAIN_CEILING: usize = 8;

/// What is left of `V` when the input `I` is split off it.
pub type Rest<V, I> = <V as StateFilterInputConversion<I>>::Remainder;

/// What a step makes of `V`: what is left of it when the input `I` is split
/// off, combined with the output `O` of the step's filter.
pub type Stepped<V, I, O> = <Rest<V, I> as StateFilterInputCombination<O>>::Combined;

/// What one step answers for `value`: the input is split off, the filter is
/// asked about it, and where it passes its output is combined with what was
/// left; where it fails, its error is the step's.
pub open spec fn step<State, V, I, F>(state: State, value: V) -> Result<
    Stepped<V, I, F::ValidOutput>,
    F::Error,
> where
    F: StateFilter<State, I>,
    V: StateFilterInputConversion<I>,
    Rest<V, I>: StateFilterInputCombination<F::ValidOutput>,
 {
    let (input, remainder) = value.split_spec();
    match F::verdict(state, input) {
        Ok(output) => Ok(remainder.combine_spec(output)),
        Err(error) => Err(error),
    }
}

/// Combines what a filter answered with what was left when its input was
/// split off: its output is combined, its error is handed on.
pub fn finish_step<R, O, E>(remainder: R, answer: Result<O, E>) -> (r: Result<R::Combined, E>) where
    R: StateFilterInputCombination<O>,

    ensures
        r == match answer {
            Ok(output) => Ok::<R::Combined, E>(remainder.combine_spec(output)),
            Err(error) => Err(error),
        },
{
    match answer {
        Ok(output) => Ok(remainder.combine(output)),
        Err(error) => Err(error),
    }
}

/// Takes one step: splits the input off `value`, asks the filter, and
/// combines its output with what was left.
pub fn take_step<State, V, I, F>(state: &State, value: V) -> (r: Result<
    Stepped<V, I, F::ValidOutput>,
    F::Error,
>) where
    F: StateFilter<State, I>,
    V: StateFilterInputConversion<I>,
    Rest<V, I>: StateFilterInputCombination<F::ValidOutput>,

    ensures
        r == step::<State, V, I, F>(*state, value),
{
    let (input, remainder) = value.split_take();
    finish_step(remainder, F::filter(state, input))
}

/// A single step is a filter of what it is given.
impl<State, InitialInput, Input, F: StateFilter<State, Input>> StateFilter<
    State,
    InitialInput,
> for Condition<Input, F> where
    InitialInput: StateFilterInputConversion<Input>,
    Rest<InitialInput, Input>: StateFilterInputCombination<F::ValidOutput>,
 {
    type ValidOutput = Stepped<InitialInput, Input, F::ValidOutput>;

    type Error = F::Error;

    open spec fn verdict(state: State, value: InitialInput) -> Result<
        Self::ValidOutput,
        Self::Error,
    > {
        step::<State, InitialInput, Input, F>(state, value)
    }

    fn filter(state: &State, value: InitialInput) -> (r: Result<Self::ValidOutput, Self::Error>) {
        take_step::<State, InitialInput, Input, F>(state, value)
    }
}

/// The error of a chain of 2 steps: the error of the step that failed, under
/// that step's place.
pub enum StateFilterTwoChainError<E0, E1> {
    Filter0(E0),
    Filter1(E1),
}

/// A chain's error reads as the error of the step that failed.
impl<E0: FilterError, E1: FilterError> FilterError for StateFilterTwoChainError<E0, E1> {
    open spec fn reads(&self) -> String {
        match *self {
            StateFilterTwoChainError::Filter0(e) => e.reads(),
            StateFilterTwoChainError::Filter1(e) => e.reads(),
        }
    }

    fn message(&self) -> (r: String) {
        match self {
            StateFilterTwoChainError::Filter0(e) => e.message(),
            StateFilterTwoChainError::Filter1(e) => e.message(),
        }
    }
}

impl<
    State,
    InitialInput,
    Input0,
    Input1,
    F0: StateFilter<State, Input0>,
    F1: StateFilter<State, Input1>,
> StateFilter<State, InitialInput> for (
    Condition<Input0, F0>,
    Condition<Input1, F1>,
) where
    InitialInput: StateFilterInputConversion<Input0>,
    Rest<InitialInput, Input0>: StateFilterInputCombination<F0::ValidOutput>,
    Stepped<InitialInput, Input0, F0::ValidOutput>: StateFilterInputConversion<Input1>,
    Rest<Stepped<InitialInput, Input0, F0::ValidOutput>, Input1>: StateFilterInputCombination<F1::ValidOutput>,
 {
    type ValidOutput = Stepped<Stepped<InitialInput, Input0, F0::ValidOutput>, Input1, F1::ValidOutput>;

    type Error = StateFilterTwoChainError<F0::Error, F1::Error>;

    /// The steps are asked in their order, each on what the step before it
    /// gave back. The first step to fail ends the chain, and no later step
    /// is asked.
    open spec fn verdict(state: State, value: InitialInput) -> Result<
        Self::ValidOutput,
        Self::Error,
    > {
        match step::<State, _, Input0, F0>(state, value) {
            Err(e) => Err(StateFilterTwoChainError::Filter0(e)),
            Ok(v1) => {
                match step::<State, _, Input1, F1>(state, v1) {
                    Err(e) => Err(StateFilterTwoChainError::Filter1(e)),
                    Ok(v) => Ok(v),
                }
            },
        }
    }

    fn filter(state: &State, value: InitialInput) -> (r: Result<Self::ValidOutput, Self::Error>) {
        let value = match take_step::<State, _, Input0, F0>(state, value) {
            Ok(v) => v,
            Err(e) => {
                return Err(StateFilterTwoChainError::Filter0(e));
            },
        };
        match take_step::<State, _, Input1, F1>(state, value) {
            Ok(v) => Ok(v),
            Err(e) => Err(StateFilterTwoChainError::Filter1(e)),
        }
    }
}

/// The error of a chain of 3 steps: the error of the step that failed, under
/// that step's place.
pub enum StateFilterThreeChainError<E0, E1, E2> {
    Filter0(E0),
    Filter1(E1),
    Filter2(E2),
}

/// A chain's error reads as the error of the step that failed.
impl<E0: FilterError, E1: FilterError, E2: FilterError> FilterError for StateFilterThreeChainError<E0, E1, E2> {
    open spec fn reads(&self) -> String {
        match *self {
            StateFilterThreeChainError::Filter0(e) => e.reads(),
            StateFilterThreeChainError::Filter1(e) => e.reads(),
            StateFilterThreeChainError::Filter2(e) => e.reads(),
        }
    }

    fn message(&self) -> (r: String) {
        match self {
            StateFilterThreeChainError::Filter0(e) => e.message(),
            StateFilterThreeChainError::Filter1(e) => e.message(),
            StateFilterThreeChainError::Filter2(e) => e.message(),
        }
    }
}

impl<
    State,
    InitialInput,
    Input0,
    Input1,
    Input2,
    F0: StateFilter<State, Input0>,
    F1: StateFilter<State, Input1>,
    F2: StateFilter<State, Input2>,
> StateFilter<State, InitialInput> for (
    Condition<Input0, F0>,
    Condition<Input1, F1>,
    Condition<Input2, F2>,
) where
    InitialInput: StateFilterInputConversion<Input0>,
    Rest<InitialInput, Input0>: StateFilterInputCombination<F0::ValidOutput>,
    Stepped<InitialInput, Input0, F0::ValidOutput>: StateFilterInputConversion<Input1>,
    Rest<Stepped<InitialInput, Input0, F0::ValidOutput>, Input1>: StateFilterInputCombination<F1::ValidOutput>,
    Stepped<Stepped<InitialInput, Input0, F0::ValidOutput>, Input1, F1::ValidOutput>: StateFilterInputConversion<Input2>,
    Rest<Stepped<Stepped<InitialInput, Input0, F0::ValidOutput>, Input1, F1::ValidOutput>, Input2>: StateFilterInputCombination<F2::ValidOutput>,
 {
    type ValidOutput = Stepped<Stepped<Stepped<InitialInput, Input0, F0::ValidOutput>, Input1, F1::ValidOutput>, Input2, F2::ValidOutput>;

    type Error = StateFilterThreeChainError<F0::Error, F1::Error, F2::Error>;

    /// The steps are asked in their order, each on what the step before it
    /// gave back. The first step to fail ends the chain, and no later step
    /// is asked.
    open spec fn verdict(state: State, value: InitialInput) -> Result<
        Self::ValidOutput,
        Self::Error,
    > {
        match step::<State, _, Input0, F0>(state, value) {
            Err(e) => Err(StateFilterThreeChainError::Filter0(e)),
            Ok(v1) => {
                match step::<State, _, Input1, F1>(state, v1) {
                    Err(e) => Err(StateFilterThreeChainError::Filter1(e)),
                    Ok(v2) => {
                        match step::<State, _, Input2, F2>(state, v2) {
                            Err(e) => Err(StateFilterThreeChainError::Filter2(e)),
                            Ok(v) => Ok(v),
                        }
                    },
                }
            },
        }
    }

    fn filter(state: &State, value: InitialInput) -> (r: Result<Self::ValidOutput, Self::Error>) {
        let value = match take_step::<State, _, Input0, F0>(state, value) {
            Ok(v) => v,
            Err(e) => {
                return Err(StateFilterThreeChainError::Filter0(e));
            },
        };
        let value = match take_step::<State, _, Input1, F1>(state, value) {
            Ok(v) => v,
            Err(e) => {
                return Err(StateFilterThreeChainError::Filter1(e));
            },
        };
        match take_step::<State, _, Input2, F2>(state, value) {
            Ok(v) => Ok(v),
            Err(e) => Err(StateFilterThreeChainError::Filter2(e)),
        }
    }
}

/// The error of a chain of 4 steps: the error of the step that failed, under
/// that step's place.
pub enum StateFilterFourChainError<E0, E1, E2, E3> {
    Filter0(E0),
    Filter1(E1),
    Filter2(E2),
    Filter3(E3),
}

/// A chain's error reads as the error of the step that failed.
impl<E0: FilterError, E1: FilterError, E2: FilterError, E3: FilterError> FilterError for StateFilterFourChainError<E0, E1, E2, E3> {
    open spec fn reads(&self) -> String {
        match *self {
            StateFilterFourChainError::Filter0(e) => e.reads(),
            StateFilterFourChainError::Filter1(e) => e.reads(),
            StateFilterFourChainError::Filter2(e) => e.reads(),
            StateFilterFourChainError::Filter3(e) => e.reads(),
        }
    }

    fn message(&self) -> (r: String) {
        match self {
            StateFilterFourChainError::Filter0(e) => e.message(),
            StateFilterFourChainError::Filter1(e) => e.message(),
            StateFilterFourChainError::Filter2(e) => e.message(),
            StateFilterFourChainError::Filter3(e) => e.message(),
        }
    }
}

impl<
    State,
    InitialInput,
    Input0,
    Input1,
    Input2,
    Input3,
    F0: StateFilter<State, Input0>,
    F1: StateFilter<State, Input1>,
    F2: StateFilter<State, Input2>,
    F3: StateFilter<State, Input3>,
> StateFilter<State, InitialInput> for (
    Condition<Input0, F0>,
    Condition<Input1, F1>,
    Condition<Input2, F2>,
    Condition<Input3, F3>,
) where
    InitialInput: StateFilterInputConversion<Input0>,
    Rest<InitialInput, Input0>: StateFilterInputCombination<F0::ValidOutput>,
    Stepped<InitialInput, Input0, F0::ValidOutput>: StateFilterInputConversion<Input1>,
    Rest<Stepped<InitialInput, Input0, F0::ValidOutput>, Input1>: StateFilterInputCombination<F1::ValidOutput>,
    Stepped<Stepped<InitialInput, Input0, F0::ValidOutput>, Input1, F1::ValidOutput>: StateFilterInputConversion<Input2>,
    Rest<Stepped<Stepped<InitialInput, Input0, F0::ValidOutput>, Input1, F1::ValidOutput>, Input2>: StateFilterInputCombination<F2::ValidOutput>,
    Stepped<Stepped<Stepped<InitialInput, Input0, F0::ValidOutput>, Input1, F1::ValidOutput>, Input2, F2::ValidOutput>: StateFilterInputConversion<Input3>,
    Rest<Stepped<Stepped<Stepped<InitialInput, Input0, F0::ValidOutput>, Input1, F1::ValidOutput>, Input2, F2::ValidOutput>, Input3>: StateFilterInputCombination<F3::ValidOutput>,
 {
    type ValidOutput = Stepped<Stepped<Stepped<Stepped<InitialInput, Input0, F0::ValidOutput>, Input1, F1::ValidOutput>, Input2, F2::ValidOutput>, Input3, F3::ValidOutput>;

    type Error = StateFilterFourChainError<F0::Error, F1::Error, F2::Error, F3::Error>;

    /// The steps are asked in their order, each on what the step before it
    /// gave back. The first step to fail ends the chain, and no later step
    /// is asked.
    open spec fn verdict(state: State, value: InitialInput) -> Result<
        Self::ValidOutput,
        Self::Error,
    > {
        match step::<State, _, Input0, F0>(state, value) {
            Err(e) => Err(StateFilterFourChainError::Filter0(e)),
            Ok(v1) => {
                match step::<State, _, Input1, F1>(state, v1) {
                    Err(e) => Err(StateFilterFourChainError::Filter1(e)),
                    Ok(v2) => {
                        match step::<State, _, Input2, F2>(state, v2) {
                            Err(e) => Err(StateFilterFourChainError::Filter2(e)),
                            Ok(v3) => {
                                match step::<State, _, Input3, F3>(state, v3) {
                                    Err(e) => Err(StateFilterFourChainError::Filter3(e)),
                                    Ok(v) => Ok(v),
                                }
                            },
                        }
                    },
                }
            },
        }
    }

    fn filter(state: &State, value: InitialInput) -> (r: Result<Self::ValidOutput, Self::Error>) {
        let value = match take_step::<State, _, Input0, F0>(state, value) {
            Ok(v) => v,
            Err(e) => {
                return Err(StateFilterFourChainError::Filter0(e));
            },
        };
        let value = match take_step::<State, _, Input1, F1>(state, value) {
            Ok(v) => v,
            Err(e) => {
                return Err(StateFilterFourChainError::Filter1(e));
            },
        };
        let value = match take_step::<State, _, Input2, F2>(state, value) {
            Ok(v) => v,
            Err(e) => {
                return Err(StateFilterFourChainError::Filter2(e));
            },
        };
        match take_step::<State, _, Input3, F3>(state, value) {
            Ok(v) => Ok(v),
            Err(e) => Err(StateFilterFourChainError::Filter3(e)),
        }
    }
}

/// The error of a chain of 5 steps: the error of the step that failed, under
/// that step's place.
pub enum StateFilterFiveChainError<E0, E1, E2, E3, E4> {
    Filter0(E0),
    Filter1(E1),
    Filter2(E2),
    Filter3(E3),
    Filter4(E4),
}

/// A chain's error reads as the error of the step that failed.
impl<E0: FilterError, E1: FilterError, E2: FilterError, E3: FilterError, E4: FilterError> FilterError for StateFilterFiveChainError<E0, E1, E2, E3, E4> {
    open spec fn reads(&self) -> String {
        match *self {
            StateFilterFiveChainError::Filter0(e) => e.reads(),
            StateFilterFiveChainError::Filter1(e) => e.reads(),
            StateFilterFiveChainError::Filter2(e) => e.reads(),
            StateFilterFiveChainError::Filter3(e) => e.reads(),
            StateFilterFiveChainError::Filter4(e) => e.reads(),
        }
    }

    fn message(&self) -> (r: String) {
        match self {
            StateFilterFiveChainError::Filter0(e) => e.message(),
            StateFilterFiveChainError::Filter1(e) => e.message(),
            StateFilterFiveChainError::Filter2(e) => e.message(),
            StateFilterFiveChainError::Filter3(e) => e.message(),
            StateFilterFiveChainError::Filter4(e) => e.message(),
        }
    }
}

impl<
    State,
    InitialInput,
    Input0,
    Input1,
    Input2,
    Input3,
    Input4,
    F0: StateFilter<State, Input0>,
    F1: StateFilter<State, Input1>,
    F2: StateFilter<State, Input2>,
    F3: StateFilter<State, Input3>,
    F4: StateFilter<State, Input4>,
> StateFilter<State, InitialInput> for (
    Condition<Input0, F0>,
    Condition<Input1, F1>,
    Condition<Input2, F2>,
    Condition<Input3, F3>,
    Condition<Input4, F4>,
) where
    InitialInput: StateFilterInputConversion<Input0>,
    Rest<InitialInput, Input0>: StateFilterInputCombination<F0::ValidOutput>,
    Stepped<InitialInput, Input0, F0::ValidOutput>: StateFilterInputConversion<Input1>,
    Rest<Stepped<InitialInput, Input0, F0::ValidOutput>, Input1>: StateFilterInputCombination<F1::ValidOutput>,
    Stepped<Stepped<InitialInput, Input0, F0::ValidOutput>, Input1, F1::ValidOutput>: StateFilterInputConversion<Input2>,
    Rest<Stepped<Stepped<InitialInput, Input0, F0::ValidOutput>, Input1, F1::ValidOutput>, Input2>: StateFilterInputCombination<F2::ValidOutput>,
    Stepped<Stepped<Stepped<InitialInput, Input0, F0::ValidOutput>, Input1, F1::ValidOutput>, Input2, F2::ValidOutput>: StateFilterInputConversion<Input3>,
    Rest<Stepped<Stepped<Stepped<InitialInput, Input0, F0::ValidOutput>, Input1, F1::ValidOutput>, Input2, F2::ValidOutput>, Input3>: StateFilterInputCombination<F3::ValidOutput>,
    Stepped<Stepped<Stepped<Stepped<InitialInput, Input0, F0::ValidOutput>, Input1, F1::ValidOutput>, Input2, F2::ValidOutput>, Input3, F3::ValidOutput>: StateFilterInputConversion<Input4>,
    Rest<Stepped<Stepped<Stepped<Stepped<InitialInput, Input0, F0::ValidOutput>, Input1, F1::ValidOutput>, Input2, F2::ValidOutput>, Input3, F3::ValidOutput>, Input4>: StateFilterInputCombination<F4::ValidOutput>,
 {
    type ValidOutput = Stepped<Stepped<Stepped<Stepped<Stepped<InitialInput, Input0, F0::ValidOutput>, Input1, F1::ValidOutput>, Input2, F2::ValidOutput>, Input3, F3::ValidOutput>, Input4, F4::ValidOutput>;

    type Error = StateFilterFiveChainError<F0::Error, F1::Error, F2::Error, F3::Error, F4::Error>;

    /// The steps are asked in their order, each on what the step before it
    /// gave back. The first step to fail ends the chain, and no later step
    /// is asked.
    open spec fn verdict(state: State, value: InitialInput) -> Result<
        Self::ValidOutput,
        Self::Error,
    > {
        match step::<State, _, Input0, F0>(state, value) {
            Err(e) => Err(StateFilterFiveChainError::Filter0(e)),
            Ok(v1) => {
                match step::<State, _, Input1, F1>(state, v1) {
                    Err(e) => Err(StateFilterFiveChainError::Filter1(e)),
                    Ok(v2) => {
                        match step::<State, _, Input2, F2>(state, v2) {
                            Err(e) => Err(StateFilterFiveChainError::Filter2(e)),
                            Ok(v3) => {
                                match step::<State, _, Input3, F3>(state, v3) {
                                    Err(e) => Err(StateFilterFiveChainError::Filter3(e)),
                                    Ok(v4) => {
                                        match step::<State, _, Input4, F4>(state, v4) {
                                            Err(e) => Err(StateFilterFiveChainError::Filter4(e)),
                                            Ok(v) => Ok(v),
                                        }
                                    },
                                }
                            },
                        }
                    },
                }
            },
        }
    }

    fn filter(state: &State, value: InitialInput) -> (r: Result<Self::ValidOutput, Self::Error>) {
        let value = match take_step::<State, _, Input0, F0>(state, value) {
            Ok(v) => v,
            Err(e) => {
                return Err(StateFilterFiveChainError::Filter0(e));
            },
        };
        let value = match take_step::<State, _, Input1, F1>(state, value) {
            Ok(v) => v,
            Err(e) => {
                return Err(StateFilterFiveChainError::Filter1(e));
            },
        };
        let value = match take_step::<State, _, Input2, F2>(state, value) {
            Ok(v) => v,
            Err(e) => {
                return Err(StateFilterFiveChainError::Filter2(e));
            },
        };
        let value = match take_step::<State, _, Input3, F3>(state, value) {
            Ok(v) => v,
            Err(e) => {
                return Err(StateFilterFiveChainError::Filter3(e));
            },
        };
        match take_step::<State, _, Input4, F4>(state, value) {
            Ok(v) => Ok(v),
            Err(e) => Err(StateFilterFiveChainError::Filter4(e)),
        }
    }
}

/// The error of a chain of 6 steps: the error of the step that failed, under
/// that step's place.
pub enum StateFilterSixChainError<E0, E1, E2, E3, E4, E5> {
    Filter0(E0),
    Filter1(E1),
    Filter2(E2),
    Filter3(E3),
    Filter4(E4),
    Filter5(E5),
}

/// A chain's error reads as the error of the step that failed.
impl<E0: FilterError, E1: FilterError, E2: FilterError, E3: FilterError, E4: FilterError, E5: FilterError> FilterError for StateFilterSixChainError<E0, E1, E2, E3, E4, E5> {
    open spec fn reads(&self) -> String {
        match *self {
            StateFilterSixChainError::Filter0(e) => e.reads(),
            StateFilterSixChainError::Filter1(e) => e.reads(),
            StateFilterSixChainError::Filter2(e) => e.reads(),
            StateFilterSixChainError::Filter3(e) => e.reads(),
            StateFilterSixChainError::Filter4(e) => e.reads(),
            StateFilterSixChainError::Filter5(e) => e.reads(),
        }
    }

    fn message(&self) -> (r: String) {
        match self {
            StateFilterSixChainError::Filter0(e) => e.message(),
            StateFilterSixChainError::Filter1(e) => e.message(),
            StateFilterSixChainError::Filter2(e) => e.message(),
            StateFilterSixChainError::Filter3(e) => e.message(),
            StateFilterSixChainError::Filter4(e) => e.message(),
            StateFilterSixChainError::Filter5(e) => e.message(),
        }
    }
}

impl<
    State,
    InitialInput,
    Input0,
    Input1,
    Input2,
    Input3,
    Input4,
    Input5,
    F0: StateFilter<State, Input0>,
    F1: StateFilter<State, Input1>,
    F2: StateFilter<State, Input2>,
    F3: StateFilter<State, Input3>,
    F4: StateFilter<State, Input4>,
    F5: StateFilter<State, Input5>,
> StateFilter<State, InitialInput> for (
    Condition<Input0, F0>,
    Condition<Input1, F1>,
    Condition<Input2, F2>,
    Condition<Input3, F3>,
    Condition<Input4, F4>,
    Condition<Input5, F5>,
) where
    InitialInput: StateFilterInputConversion<Input0>,
    Rest<InitialInput, Input0>: StateFilterInputCombination<F0::ValidOutput>,
    Stepped<InitialInput, Input0, F0::ValidOutput>: StateFilterInputConversion<Input1>,
    Rest<Stepped<InitialInput, Input0, F0::ValidOutput>, Input1>: StateFilterInputCombination<F1::ValidOutput>,
    Stepped<Stepped<InitialInput, Input0, F0::ValidOutput>, Input1, F1::ValidOutput>: StateFilterInputConversion<Input2>,
    Rest<Stepped<Stepped<InitialInput, Input0, F0::ValidOutput>, Input1, F1::ValidOutput>, Input2>: StateFilterInputCombination<F2::ValidOutput>,
    Stepped<Stepped<Stepped<InitialInput, Input0, F0::ValidOutput>, Input1, F1::ValidOutput>, Input2, F2::ValidOutput>: StateFilterInputConversion<Input3>,
    Rest<Stepped<Stepped<Stepped<InitialInput, Input0, F0::ValidOutput>, Input1, F1::ValidOutput>, Input2, F2::ValidOutput>, Input3>: StateFilterInputCombination<F3::ValidOutput>,
    Stepped<Stepped<Stepped<Stepped<InitialInput, Input0, F0::ValidOutput>, Input1, F1::ValidOutput>, Input2, F2::ValidOutput>, Input3, F3::ValidOutput>: StateFilterInputConversion<Input4>,
    Rest<Stepped<Stepped<Stepped<Stepped<InitialInput, Input0, F0::ValidOutput>, Input1, F1::ValidOutput>, Input2, F2::ValidOutput>, Input3, F3::ValidOutput>, Input4>: StateFilterInputCombination<F4::ValidOutput>,
    Stepped<Stepped<Stepped<Stepped<Stepped<InitialInput, Input0, F0::ValidOutput>, Input1, F1::ValidOutput>, Input2, F2::ValidOutput>, Input3, F3::ValidOutput>, Input4, F4::ValidOutput>: StateFilterInputConversion<Input5>,
    Rest<Stepped<Stepped<Stepped<Stepped<Stepped<InitialInput, Input0, F0::ValidOutput>, Input1, F1::ValidOutput>, Input2, F2::ValidOutput>, Input3, F3::ValidOutput>, Input4, F4::ValidOutput>, Input5>: StateFilterInputCombination<F5::ValidOutput>,
 {
    type ValidOutput = Stepped<Stepped<Stepped<Stepped<Stepped<Stepped<InitialInput, Input0, F0::ValidOutput>, Input1, F1::ValidOutput>, Input2, F2::ValidOutput>, Input3, F3::ValidOutput>, Input4, F4::ValidOutput>, Input5, F5::ValidOutput>;

    type Error = StateFilterSixChainError<F0::Error, F1::Error, F2::Error, F3::Error, F4::Error, F5::Error>;

    /// The steps are asked in their order, each on what the step before it
    /// gave back. The first step to fail ends the chain, and no later step
    /// is asked.
    open spec fn verdict(state: State, value: InitialInput) -> Result<
        Self::ValidOutput,
        Self::Error,
    > {
        match step::<State, _, Input0, F0>(state, value) {
            Err(e) => Err(StateFilterSixChainError::Filter0(e)),
            Ok(v1) => {
                match step::<State, _, Input1, F1>(state, v1) {
                    Err(e) => Err(StateFilterSixChainError::Filter1(e)),
                    Ok(v2) => {
                        match step::<State, _, Input2, F2>(state, v2) {
                            Err(e) => Err(StateFilterSixChainError::Filter2(e)),
                            Ok(v3) => {
                                match step::<State, _, Input3, F3>(state, v3) {
                                    Err(e) => Err(StateFilterSixChainError::Filter3(e)),
                                    Ok(v4) => {
                                        match step::<State, _, Input4, F4>(state, v4) {
                                            Err(e) => Err(StateFilterSixChainError::Filter4(e)),
                                            Ok(v5) => {
                                                match step::<State, _, Input5, F5>(state, v5) {
                                                    Err(e) => Err(StateFilterSixChainError::Filter5(e)),
                                                    Ok(v) => Ok(v),
                                                }
                                            },
                                        }
                                    },
                                }
                            },
                        }
                    },
                }
            },
        }
    }

    fn filter(state: &State, value: InitialInput) -> (r: Result<Self::ValidOutput, Self::Error>) {
        let value = match take_step::<State, _, Input0, F0>(state, value) {
            Ok(v) => v,
            Err(e) => {
                return Err(StateFilterSixChainError::Filter0(e));
            },
        };
        let value = match take_step::<State, _, Input1, F1>(state, value) {
            Ok(v) => v,
            Err(e) => {
                return Err(StateFilterSixChainError::Filter1(e));
            },
        };
        let value = match take_step::<State, _, Input2, F2>(state, value) {
            Ok(v) => v,
            Err(e) => {
                return Err(StateFilterSixChainError::Filter2(e));
            },
        };
        let value = match take_step::<State, _, Input3, F3>(state, value) {
            Ok(v) => v,
            Err(e) => {
                return Err(StateFilterSixChainError::Filter3(e));
            },
        };
        let value = match take_step::<State, _, Input4, F4>(state, value) {
            Ok(v) => v,
            Err(e) => {
                return Err(StateFilterSixChainError::Filter4(e));
            },
        };
        match take_step::<State, _, Input5, F5>(state, value) {
            Ok(v) => Ok(v),
            Err(e) => Err(StateFilterSixChainError::Filter5(e)),
        }
    }
}

/// The error of a chain of 7 steps: the error of the step that failed, under
/// that step's place.
pub enum StateFilterSevenChainError<E0, E1, E2, E3, E4, E5, E6> {
    Filter0(E0),
    Filter1(E1),
    Filter2(E2),
    Filter3(E3),
    Filter4(E4),
    Filter5(E5),
    Filter6(E6),
}

/// A chain's error reads as the error of the step that failed.
impl<E0: FilterError, E1: FilterError, E2: FilterError, E3: FilterError, E4: FilterError, E5: FilterError, E6: FilterError> FilterError for StateFilterSevenChainError<E0, E1, E2, E3, E4, E5, E6> {
    open spec fn reads(&self) -> String {
        match *self {
            StateFilterSevenChainError::Filter0(e) => e.reads(),
            StateFilterSevenChainError::Filter1(e) => e.reads(),
            StateFilterSevenChainError::Filter2(e) => e.reads(),
            StateFilterSevenChainError::Filter3(e) => e.reads(),
            StateFilterSevenChainError::Filter4(e) => e.reads(),
            StateFilterSevenChainError::Filter5(e) => e.reads(),
            StateFilterSevenChainError::Filter6(e) => e.reads(),
        }
    }

    fn message(&self) -> (r: String) {
        match self {
            StateFilterSevenChainError::Filter0(e) => e.message(),
            StateFilterSevenChainError::Filter1(e) => e.message(),
            StateFilterSevenChainError::Filter2(e) => e.message(),
            StateFilterSevenChainError::Filter3(e) => e.message(),
            StateFilterSevenChainError::Filter4(e) => e.message(),
            StateFilterSevenChainError::Filter5(e) => e.message(),
            StateFilterSevenChainError::Filter6(e) => e.message(),
        }
    }
}

impl<
    State,
    InitialInput,
    Input0,
    Input1,
    Input2,
    Input3,
    Input4,
    Input5,
    Input6,
    F0: StateFilter<State, Input0>,
    F1: StateFilter<State, Input1>,
    F2: StateFilter<State, Input2>,
    F3: StateFilter<State, Input3>,
    F4: StateFilter<State, Input4>,
    F5: StateFilter<State, Input5>,
    F6: StateFilter<State, Input6>,
> StateFilter<State, InitialInput> for (
    Condition<Input0, F0>,
    Condition<Input1, F1>,
    Condition<Input2, F2>,
    Condition<Input3, F3>,
    Condition<Input4, F4>,
    Condition<Input5, F5>,
    Condition<Input6, F6>,
) where
    InitialInput: StateFilterInputConversion<Input0>,
    Rest<InitialInput, Input0>: StateFilterInputCombination<F0::ValidOutput>,
    Stepped<InitialInput, Input0, F0::ValidOutput>: StateFilterInputConversion<Input1>,
    Rest<Stepped<InitialInput, Input0, F0::ValidOutput>, Input1>: StateFilterInputCombination<F1::ValidOutput>,
    Stepped<Stepped<InitialInput, Input0, F0::ValidOutput>, Input1, F1::ValidOutput>: StateFilterInputConversion<Input2>,
    Rest<Stepped<Stepped<InitialInput, Input0, F0::ValidOutput>, Input1, F1::ValidOutput>, Input2>: StateFilterInputCombination<F2::ValidOutput>,
    Stepped<Stepped<Stepped<InitialInput, Input0, F0::ValidOutput>, Input1, F1::ValidOutput>, Input2, F2::ValidOutput>: StateFilterInputConversion<Input3>,
    Rest<Stepped<Stepped<Stepped<InitialInput, Input0, F0::ValidOutput>, Input1, F1::ValidOutput>, Input2, F2::ValidOutput>, Input3>: StateFilterInputCombination<F3::ValidOutput>,
    Stepped<Stepped<Stepped<Stepped<InitialInput, Input0, F0::ValidOutput>, Input1, F1::ValidOutput>, Input2, F2::ValidOutput>, Input3, F3::ValidOutput>: StateFilterInputConversion<Input4>,
    Rest<Stepped<Stepped<Stepped<Stepped<InitialInput, Input0, F0::ValidOutput>, Input1, F1::ValidOutput>, Input2, F2::ValidOutput>, Input3, F3::ValidOutput>, Input4>: StateFilterInputCombination<F4::ValidOutput>,
    Stepped<Stepped<Stepped<Stepped<Stepped<InitialInput, Input0, F0::ValidOutput>, Input1, F1::ValidOutput>, Input2, F2::ValidOutput>, Input3, F3::ValidOutput>, Input4, F4::ValidOutput>: StateFilterInputConversion<Input5>,
    Rest<Stepped<Stepped<Stepped<Stepped<Stepped<InitialInput, Input0, F0::ValidOutput>, Input1, F1::ValidOutput>, Input2, F2::ValidOutput>, Input3, F3::ValidOutput>, Input4, F4::ValidOutput>, Input5>: StateFilterInputCombination<F5::ValidOutput>,
    Stepped<Stepped<Stepped<Stepped<Stepped<Stepped<InitialInput, Input0, F0::ValidOutput>, Input1, F1::ValidOutput>, Input2, F2::ValidOutput>, Input3, F3::ValidOutput>, Input4, F4::ValidOutput>, Input5, F5::ValidOutput>: StateFilterInputConversion<Input6>,
    Rest<Stepped<Stepped<Stepped<Stepped<Stepped<Stepped<InitialInput, Input0, F0::ValidOutput>, Input1, F1::ValidOutput>, Input2, F2::ValidOutput>, Input3, F3::ValidOutput>, Input4, F4::ValidOutput>, Input5, F5::ValidOutput>, Input6>: StateFilterInputCombination<F6::ValidOutput>,
 {
    type ValidOutput = Stepped<Stepped<Stepped<Stepped<Stepped<Stepped<Stepped<InitialInput, Input0, F0::ValidOutput>, Input1, F1::ValidOutput>, Input2, F2::ValidOutput>, Input3, F3::ValidOutput>, Input4, F4::ValidOutput>, Input5, F5::ValidOutput>, Input6, F6::ValidOutput>;

    type Error = StateFilterSevenChainError<F0::Error, F1::Error, F2::Error, F3::Error, F4::Error, F5::Error, F6::Error>;

    /// The steps are asked in their order, each on what the step before it
    /// gave back. The first step to fail ends the chain, and no later step
    /// is asked.
    open spec fn verdict(state: State, value: InitialInput) -> Result<
        Self::ValidOutput,
        Self::Error,
    > {
        match step::<State, _, Input0, F0>(state, value) {
            Err(e) => Err(StateFilterSevenChainError::Filter0(e)),
            Ok(v1) => {
                match step::<State, _, Input1, F1>(state, v1) {
                    Err(e) => Err(StateFilterSevenChainError::Filter1(e)),
                    Ok(v2) => {
                        match step::<State, _, Input2, F2>(state, v2) {
                            Err(e) => Err(StateFilterSevenChainError::Filter2(e)),
                            Ok(v3) => {
                                match step::<State, _, Input3, F3>(state, v3) {
                                    Err(e) => Err(StateFilterSevenChainError::Filter3(e)),
                                    Ok(v4) => {
                                        match step::<State, _, Input4, F4>(state, v4) {
                                            Err(e) => Err(StateFilterSevenChainError::Filter4(e)),
                                            Ok(v5) => {
                                                match step::<State, _, Input5, F5>(state, v5) {
                                                    Err(e) => Err(StateFilterSevenChainError::Filter5(e)),
                                                    Ok(v6) => {
                                                        match step::<State, _, Input6, F6>(state, v6) {
                                                            Err(e) => Err(StateFilterSevenChainError::Filter6(e)),
                                                            Ok(v) => Ok(v),
                                                        }
                                                    },
                                                }
                                            },
                                        }
                                    },
                                }
                            },
                        }
                    },
                }
            },
        }
    }

    fn filter(state: &State, value: InitialInput) -> (r: Result<Self::ValidOutput, Self::Error>) {
        let value = match take_step::<State, _, Input0, F0>(state, value) {
            Ok(v) => v,
            Err(e) => {
                return Err(StateFilterSevenChainError::Filter0(e));
            },
        };
        let value = match take_step::<State, _, Input1, F1>(state, value) {
            Ok(v) => v,
            Err(e) => {
                return Err(StateFilterSevenChainError::Filter1(e));
            },
        };
        let value = match take_step::<State, _, Input2, F2>(state, value) {
            Ok(v) => v,
            Err(e) => {
                return Err(StateFilterSevenChainError::Filter2(e));
            },
        };
        let value = match take_step::<State, _, Input3, F3>(state, value) {
            Ok(v) => v,
            Err(e) => {
                return Err(StateFilterSevenChainError::Filter3(e));
            },
        };
        let value = match take_step::<State, _, Input4, F4>(state, value) {
            Ok(v) => v,
            Err(e) => {
                return Err(StateFilterSevenChainError::Filter4(e));
            },
        };
        let value = match take_step::<State, _, Input5, F5>(state, value) {
            Ok(v) => v,
            Err(e) => {
                return Err(StateFilterSevenChainError::Filter5(e));
            },
        };
        match take_step::<State, _, Input6, F6>(state, value) {
            Ok(v) => Ok(v),
            Err(e) => Err(StateFilterSevenChainError::Filter6(e)),
        }
    }
}

/// The error of a chain of 8 steps: the error of the step that failed, under
/// that step's place.
pub enum StateFilterEightChainError<E0, E1, E2, E3, E4, E5, E6, E7> {
    Filter0(E0),
    Filter1(E1),
    Filter2(E2),
    Filter3(E3),
    Filter4(E4),
    Filter5(E5),
    Filter6(E6),
    Filter7(E7),
}

/// A chain's error reads as the error of the step that failed.
impl<E0: FilterError, E1: FilterError, E2: FilterError, E3: FilterError, E4: FilterError, E5: FilterError, E6: FilterError, E7: FilterError> FilterError for StateFilterEightChainError<E0, E1, E2, E3, E4, E5, E6, E7> {
    open spec fn reads(&self) -> String {
        match *self {
            StateFilterEightChainError::Filter0(e) => e.reads(),
            StateFilterEightChainError::Filter1(e) => e.reads(),
            StateFilterEightChainError::Filter2(e) => e.reads(),
            StateFilterEightChainError::Filter3(e) => e.reads(),
            StateFilterEightChainError::Filter4(e) => e.reads(),
            StateFilterEightChainError::Filter5(e) => e.reads(),
            StateFilterEightChainError::Filter6(e) => e.reads(),
            StateFilterEightChainError::Filter7(e) => e.reads(),
        }
    }

    fn message(&self) -> (r: String) {
        match self {
            StateFilterEightChainError::Filter0(e) => e.message(),
            StateFilterEightChainError::Filter1(e) => e.message(),
            StateFilterEightChainError::Filter2(e) => e.message(),
            StateFilterEightChainError::Filter3(e) => e.message(),
            StateFilterEightChainError::Filter4(e) => e.message(),
            StateFilterEightChainError::Filter5(e) => e.message(),
            StateFilterEightChainError::Filter6(e) => e.message(),
            StateFilterEightChainError::Filter7(e) => e.message(),
        }
    }
}

impl<
    State,
    InitialInput,
    Input0,
    Input1,
    Input2,
    Input3,
    Input4,
    Input5,
    Input6,
    Input7,
    F0: StateFilter<State, Input0>,
    F1: StateFilter<State, Input1>,
    F2: StateFilter<State, Input2>,
    F3: StateFilter<State, Input3>,
    F4: StateFilter<State, Input4>,
    F5: StateFilter<State, Input5>,
    F6: StateFilter<State, Input6>,
    F7: StateFilter<State, Input7>,
> StateFilter<State, InitialInput> for (
    Condition<Input0, F0>,
    Condition<Input1, F1>,
    Condition<Input2, F2>,
    Condition<Input3, F3>,
    Condition<Input4, F4>,
    Condition<Input5, F5>,
    Condition<Input6, F6>,
    Condition<Input7, F7>,
) where
    InitialInput: StateFilterInputConversion<Input0>,
    Rest<InitialInput, Input0>: StateFilterInputCombination<F0::ValidOutput>,
    Stepped<InitialInput, Input0, F0::ValidOutput>: StateFilterInputConversion<Input1>,
    Rest<Stepped<InitialInput, Input0, F0::ValidOutput>, Input1>: StateFilterInputCombination<F1::ValidOutput>,
    Stepped<Stepped<InitialInput, Input0, F0::ValidOutput>, Input1, F1::ValidOutput>: StateFilterInputConversion<Input2>,
    Rest<Stepped<Stepped<InitialInput, Input0, F0::ValidOutput>, Input1, F1::ValidOutput>, Input2>: StateFilterInputCombination<F2::ValidOutput>,
    Stepped<Stepped<Stepped<InitialInput, Input0, F0::ValidOutput>, Input1, F1::ValidOutput>, Input2, F2::ValidOutput>: StateFilterInputConversion<Input3>,
    Rest<Stepped<Stepped<Stepped<InitialInput, Input0, F0::ValidOutput>, Input1, F1::ValidOutput>, Input2, F2::ValidOutput>, Input3>: StateFilterInputCombination<F3::ValidOutput>,
    Stepped<Stepped<Stepped<Stepped<InitialInput, Input0, F0::ValidOutput>, Input1, F1::ValidOutput>, Input2, F2::ValidOutput>, Input3, F3::ValidOutput>: StateFilterInputConversion<Input4>,
    Rest<Stepped<Stepped<Stepped<Stepped<InitialInput, Input0, F0::ValidOutput>, Input1, F1::ValidOutput>, Input2, F2::ValidOutput>, Input3, F3::ValidOutput>, Input4>: StateFilterInputCombination<F4::ValidOutput>,
    Stepped<Stepped<Stepped<Stepped<Stepped<InitialInput, Input0, F0::ValidOutput>, Input1, F1::ValidOutput>, Input2, F2::ValidOutput>, Input3, F3::ValidOutput>, Input4, F4::ValidOutput>: StateFilterInputConversion<Input5>,
    Rest<Stepped<Stepped<Stepped<Stepped<Stepped<InitialInput, Input0, F0::ValidOutput>, Input1, F1::ValidOutput>, Input2, F2::ValidOutput>, Input3, F3::ValidOutput>, Input4, F4::ValidOutput>, Input5>: StateFilterInputCombination<F5::ValidOutput>,
    Stepped<Stepped<Stepped<Stepped<Stepped<Stepped<InitialInput, Input0, F0::ValidOutput>, Input1, F1::ValidOutput>, Input2, F2::ValidOutput>, Input3, F3::ValidOutput>, Input4, F4::ValidOutput>, Input5, F5::ValidOutput>: StateFilterInputConversion<Input6>,
    Rest<Stepped<Stepped<Stepped<Stepped<Stepped<Stepped<InitialInput, Input0, F0::ValidOutput>, Input1, F1::ValidOutput>, Input2, F2::ValidOutput>, Input3, F3::ValidOutput>, Input4, F4::ValidOutput>, Input5, F5::ValidOutput>, Input6>: StateFilterInputCombination<F6::ValidOutput>,
    Stepped<Stepped<Stepped<Stepped<Stepped<Stepped<Stepped<InitialInput, Input0, F0::ValidOutput>, Input1, F1::ValidOutput>, Input2, F2::ValidOutput>, Input3, F3::ValidOutput>, Input4, F4::ValidOutput>, Input5, F5::ValidOutput>, Input6, F6::ValidOutput>: StateFilterInputConversion<Input7>,
    Rest<Stepped<Stepped<Stepped<Stepped<Stepped<Stepped<Stepped<InitialInput, Input0, F0::ValidOutput>, Input1, F1::ValidOutput>, Input2, F2::ValidOutput>, Input3, F3::ValidOutput>, Input4, F4::ValidOutput>, Input5, F5::ValidOutput>, Input6, F6::ValidOutput>, Input7>: StateFilterInputCombination<F7::ValidOutput>,
 {
    type ValidOutput = Stepped<Stepped<Stepped<Stepped<Stepped<Stepped<Stepped<Stepped<InitialInput, Input0, F0::ValidOutput>, Input1, F1::ValidOutput>, Input2, F2::ValidOutput>, Input3, F3::ValidOutput>, Input4, F4::ValidOutput>, Input5, F5::ValidOutput>, Input6, F6::ValidOutput>, Input7, F7::ValidOutput>;

    type Error = StateFilterEightChainError<F0::Error, F1::Error, F2::Error, F3::Error, F4::Error, F5::Error, F6::Error, F7::Error>;

    /// The steps are asked in their order, each on what the step before it
    /// gave back. The first step to fail ends the chain, and no later step
    /// is asked.
    open spec fn verdict(state: State, value: InitialInput) -> Result<
        Self::ValidOutput,
        Self::Error,
    > {
        match step::<State, _, Input0, F0>(state, value) {
            Err(e) => Err(StateFilterEightChainError::Filter0(e)),
            Ok(v1) => {
                match step::<State, _, Input1, F1>(state, v1) {
                    Err(e) => Err(StateFilterEightChainError::Filter1(e)),
                    Ok(v2) => {
                        match step::<State, _, Input2, F2>(state, v2) {
                            Err(e) => Err(StateFilterEightChainError::Filter2(e)),
                            Ok(v3) => {
                                match step::<State, _, Input3, F3>(state, v3) {
                                    Err(e) => Err(StateFilterEightChainError::Filter3(e)),
                                    Ok(v4) => {
                                        match step::<State, _, Input4, F4>(state, v4) {
                                            Err(e) => Err(StateFilterEightChainError::Filter4(e)),
                                            Ok(v5) => {
                                                match step::<State, _, Input5, F5>(state, v5) {
                                                    Err(e) => Err(StateFilterEightChainError::Filter5(e)),
                                                    Ok(v6) => {
                                                        match step::<State, _, Input6, F6>(state, v6) {
                                                            Err(e) => Err(StateFilterEightChainError::Filter6(e)),
                                                            Ok(v7) => {
                                                                match step::<State, _, Input7, F7>(state, v7) {
                                                                    Err(e) => Err(StateFilterEightChainError::Filter7(e)),
                                                                    Ok(v) => Ok(v),
                                                                }
                                                            },
                                                        }
                                                    },
                                                }
                                            },
                                        }
                                    },
                                }
                            },
                        }
                    },
                }
            },
        }
    }

    fn filter(state: &State, value: InitialInput) -> (r: Result<Self::ValidOutput, Self::Error>) {
        let value = match take_step::<State, _, Input0, F0>(state, value) {
            Ok(v) => v,
            Err(e) => {
                return Err(StateFilterEightChainError::Filter0(e));
            },
        };
        let value = match take_step::<State, _, Input1, F1>(state, value) {
            Ok(v) => v,
            Err(e) => {
                return Err(StateFilterEightChainError::Filter1(e));
            },
        };
        let value = match take_step::<State, _, Input2, F2>(state, value) {
            Ok(v) => v,
            Err(e) => {
                return Err(StateFilterEightChainError::Filter2(e));
            },
        };
        let value = match take_step::<State, _, Input3, F3>(state, value) {
            Ok(v) => v,
            Err(e) => {
                return Err(StateFilterEightChainError::Filter3(e));
            },
        };
        let value = match take_step::<State, _, Input4, F4>(state, value) {
            Ok(v) => v,
            Err(e) => {
                return Err(StateFilterEightChainError::Filter4(e));
            },
        };
        let value = match take_step::<State, _, Input5, F5>(state, value) {
            Ok(v) => v,
            Err(e) => {
                return Err(StateFilterEightChainError::Filter5(e));
            },
        };
        let value = match take_step::<State, _, Input6, F6>(state, value) {
            Ok(v) => v,
            Err(e) => {
                return Err(StateFilterEightChainError::Filter6(e));
            },
        };
        match take_step::<State, _, Input7, F7>(state, value) {
            Ok(v) => Ok(v),
            Err(e) => Err(StateFilterEightChainError::Filter7(e)),
        }
    }
}

/// Splitting a value for its own type and combining what is left with the
/// value gives the value back.
pub proof fn lemma_identity_round_trip<T>(value: T)
    ensures
        value.split_spec().1.combine_spec(value.split_spec().0) == value,
{
}

/// Where the second of three steps fails, the chain fails with that step's
/// error under the second place, whatever the third step would answer.
pub proof fn lemma_chain_stops_at_failure<State, InitialInput, Input0, Input1, Input2, F0, F1, F2>(
    state: State,
    value: InitialInput,
) where
    F0: StateFilter<State, Input0>,
    F1: StateFilter<State, Input1>,
    F2: StateFilter<State, Input2>,
    InitialInput: StateFilterInputConversion<Input0>,
    Rest<InitialInput, Input0>: StateFilterInputCombination<F0::ValidOutput>,
    Stepped<InitialInput, Input0, F0::ValidOutput>: StateFilterInputConversion<Input1>,
    Rest<Stepped<InitialInput, Input0, F0::ValidOutput>, Input1>: StateFilterInputCombination<F1::ValidOutput>,
    Stepped<Stepped<InitialInput, Input0, F0::ValidOutput>, Input1, F1::ValidOutput>: StateFilterInputConversion<Input2>,
    Rest<Stepped<Stepped<InitialInput, Input0, F0::ValidOutput>, Input1, F1::ValidOutput>, Input2>: StateFilterInputCombination<F2::ValidOutput>,

    requires
        step::<State, InitialInput, Input0, F0>(state, value) is Ok,
        step::<State, _, Input1, F1>(
            state,
            step::<State, InitialInput, Input0, F0>(state, value)->Ok_0,
        ) is Err,
    ensures
        <(Condition<Input0, F0>, Condition<Input1, F1>, Condition<Input2, F2>) as StateFilter<
            State,
            InitialInput,
        >>::verdict(state, value) matches Err(StateFilterThreeChainError::Filter1(error))
            && error == step::<State, _, Input1, F1>(
            state,
            step::<State, InitialInput, Input0, F0>(state, value)->Ok_0,
        )->Err_0,
{
}

/// A chain of 1 step that asks the filter `()` gives its input back.
pub proof fn lemma_identity_chain_1<State, T>(state: State, value: T)
    ensures
        <Condition<T, ()> as StateFilter<State, T>>::verdict(state, value) == Ok::<
            T,
            <Condition<T, ()> as StateFilter<State, T>>::Error,
        >(value),
{
}

/// A chain of 2 steps that each ask the filter `()` gives its input back.
pub proof fn lemma_identity_chain_2<State, T>(state: State, value: T)
    ensures
        <(Condition<T, ()>, Condition<T, ()>) as StateFilter<State, T>>::verdict(state, value) == Ok::<
            T,
            <(Condition<T, ()>, Condition<T, ()>) as StateFilter<State, T>>::Error,
        >(value),
{
}

/// A chain of 3 steps that each ask the filter `()` gives its input back.
pub proof fn lemma_identity_chain_3<State, T>(state: State, value: T)
    ensures
        <(Condition<T, ()>, Condition<T, ()>, Condition<T, ()>) as StateFilter<State, T>>::verdict(state, value) == Ok::<
            T,
            <(Condition<T, ()>, Condition<T, ()>, Condition<T, ()>) as StateFilter<State, T>>::Error,
        >(value),
{
}

/// A chain of 4 steps that each ask the filter `()` gives its input back.
pub proof fn lemma_identity_chain_4<State, T>(state: State, value: T)
    ensures
        <(Condition<T, ()>, Condition<T, ()>, Condition<T, ()>, Condition<T, ()>) as StateFilter<State, T>>::verdict(state, value) == Ok::<
            T,
            <(Condition<T, ()>, Condition<T, ()>, Condition<T, ()>, Condition<T, ()>) as StateFilter<State, T>>::Error,
        >(value),
{
}

/// A chain of 5 steps that each ask the filter `()` gives its input back.
pub proof fn lemma_identity_chain_5<State, T>(state: State, value: T)
    ensures
        <(Condition<T, ()>, Condition<T, ()>, Condition<T, ()>, Condition<T, ()>, Condition<T, ()>) as StateFilter<State, T>>::verdict(state, value) == Ok::<
            T,
            <(Condition<T, ()>, Condition<T, ()>, Condition<T, ()>, Condition<T, ()>, Condition<T, ()>) as StateFilter<State, T>>::Error,
        >(value),
{
}

/// A chain of 6 steps that each ask the filter `()` gives its input back.
pub proof fn lemma_identity_chain_6<State, T>(state: State, value: T)
    ensures
        <(Condition<T, ()>, Condition<T, ()>, Condition<T, ()>, Condition<T, ()>, Condition<T, ()>, Condition<T, ()>) as StateFilter<State, T>>::verdict(state, value) == Ok::<
            T,
            <(Condition<T, ()>, Condition<T, ()>, Condition<T, ()>, Condition<T, ()>, Condition<T, ()>, Condition<T, ()>) as StateFilter<State, T>>::Error,
        >(value),
{
}

/// A chain of 7 steps that each ask the filter `()` gives its input back.
pub proof fn lemma_identity_chain_7<State, T>(state: State, value: T)
    ensures
        <(Condition<T, ()>, Condition<T, ()>, Condition<T, ()>, Condition<T, ()>, Condition<T, ()>, Condition<T, ()>, Condition<T, ()>) as StateFilter<State, T>>::verdict(state, value) == Ok::<
            T,
            <(Condition<T, ()>, Condition<T, ()>, Condition<T, ()>, Condition<T, ()>, Condition<T, ()>, Condition<T, ()>, Condition<T, ()>) as StateFilter<State, T>>::Error,
        >(value),
{
}

/// A chain of 8 steps that each ask the filter `()` gives its input back.
pub proof fn lemma_identity_chain_8<State, T>(state: State, value: T)
    ensures
        <(Condition<T, ()>, Condition<T, ()>, Condition<T, ()>, Condition<T, ()>, Condition<T, ()>, Condition<T, ()>, Condition<T, ()>, Condition<T, ()>) as StateFilter<State, T>>::verdict(state, value) == Ok::<
            T,
            <(Condition<T, ()>, Condition<T, ()>, Condition<T, ()>, Condition<T, ()>, Condition<T, ()>, Condition<T, ()>, Condition<T, ()>, Condition<T, ()>) as StateFilter<State, T>>::Error,
        >(value),
{
}

} // verus!
