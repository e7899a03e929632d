use crate::state_filter::{FilterError, StateFilter};
use std::rc::Rc;
use vstd::prelude::*;
use vstd::std_specs::convert::IntoSpec;

verus! {

/// An error as it is held once its type is forgotten.
struct Kept<E>(E);

impl<E: FilterError> FilterError for Kept<E> {
    closed spec fn reads(&self) -> String {
        self.0.reads()
    }

    fn message(&self) -> (r: String) {
        self.0.message()
    }
}

/// An error whose type is forgotten. It can still be read.
pub struct DynError(Box<dyn FilterError>);

impl DynError {
    /// The error that `error` becomes when its type is forgotten.
    pub closed spec fn of<E: FilterError + 'static>(error: E) -> DynError {
        DynError(Box::new(Kept(error)))
    }

    /// How the error reads.
    pub closed spec fn reads(&self) -> Seq<char> {
        self.0.reads()@
    }

    /// Forgetting an error's type keeps how it reads.
    pub proof fn lemma_reads<E: FilterError + 'static>(error: E)
        ensures
            Self::of(error).reads() == error.reads()@,
    {
    }

    /// Forgets the type of `error`.
    pub fn new<E: FilterError + 'static>(error: E) -> (r: DynError)
        ensures
            r == Self::of(error),
    {
        DynError(Box::new(Kept(error)))
    }

    /// How the error reads.
    pub fn message(&self) -> (r: String)
        ensures
            r@ == self.reads(),
    {
        self.0.message()
    }
}

/// What is left of a filter's output when its type is forgotten: that there is one.
#[derive(Clone, Copy, Debug, PartialEq, Eq, Structural)]
pub struct AnyOutput;

/// What is left of a filter when its type is forgotten: it can be asked.
trait ErasedFilter<State, Input, ValidOutput> {
    spec fn faithful(&self) -> bool;

    spec fn answer(&self, state: State, input: Input) -> Result<ValidOutput, DynError>;

    fn check(&self, state: &State, input: Input) -> (r: Result<ValidOutput, DynError>)
        ensures
            self.faithful() ==> r == self.answer(*state, input),
    ;
}

/// A filter of any type.
#[verifier::reject_recursive_types(State)]
#[verifier::reject_recursive_types(Input)]
#[verifier::reject_recursive_types(ValidOutput)]
struct Boxed<State, Input, ValidOutput>(Box<dyn ErasedFilter<State, Input, ValidOutput>>);

/// Calls `Rc::clone` of std, which gives one more pointer to the same value.
#[verifier::external_body]
pub(crate) fn share<T>(handle: &Rc<T>) -> (r: Rc<T>)
    ensures
        r == *handle,
{
    Rc::clone(handle)
}

/// The filter `T`, its output converted.
struct Converting<T>(core::marker::PhantomData<T>);

/// The filter `T`, its output forgotten.
struct Forgetting<T>(core::marker::PhantomData<T>);

/// What the filter `T` answers when its output is converted and its error's
/// type is forgotten.
pub open spec fn converted<State, Input, ValidOutput, T>(state: State, input: Input) -> Result<
    ValidOutput,
    DynError,
> where T: StateFilter<State, Input>, T::ValidOutput: Into<ValidOutput>, T::Error: 'static {
    match T::verdict(state, input) {
        Ok(value) => Ok(value.into_spec()),
        Err(error) => Err(DynError::of(error)),
    }
}

/// What the filter `T` answers when the types of its output and of its error
/// are forgotten.
pub open spec fn forgotten<State, Input, T>(state: State, input: Input) -> Result<
    AnyOutput,
    DynError,
> where T: StateFilter<State, Input>, T::Error: 'static {
    match T::verdict(state, input) {
        Ok(value) => Ok(AnyOutput),
        Err(error) => Err(DynError::of(error)),
    }
}

impl<State, Input, ValidOutput, T> ErasedFilter<State, Input, ValidOutput> for Converting<T> where
    T: StateFilter<State, Input> + 'static,
    T::ValidOutput: Into<ValidOutput>,
    T::Error: 'static,
 {
    spec fn faithful(&self) -> bool {
        <T::ValidOutput as IntoSpec<ValidOutput>>::obeys_into_spec()
    }

    spec fn answer(&self, state: State, input: Input) -> Result<ValidOutput, DynError> {
        converted::<State, Input, ValidOutput, T>(state, input)
    }

    fn check(&self, state: &State, input: Input) -> (r: Result<ValidOutput, DynError>) {
        match T::filter(state, input) {
            Ok(value) => Ok(value.into()),
            Err(error) => Err(DynError::new(error)),
        }
    }
}

impl<State, Input, T> ErasedFilter<State, Input, AnyOutput> for Forgetting<T> where
    T: StateFilter<State, Input> + 'static,
    T::Error: 'static,
 {
    spec fn faithful(&self) -> bool {
        true
    }

    spec fn answer(&self, state: State, input: Input) -> Result<AnyOutput, DynError> {
        forgotten::<State, Input, T>(state, input)
    }

    fn check(&self, state: &State, input: Input) -> (r: Result<AnyOutput, DynError>) {
        match T::filter(state, input) {
            Ok(value) => Ok(AnyOutput),
            Err(error) => Err(DynError::new(error)),
        }
    }
}

/// A filter whose own type is forgotten: all that shows is the state and
/// the input it takes and the output it gives.
#[verifier::reject_recursive_types(State)]
#[verifier::reject_recursive_types(Input)]
#[verifier::reject_recursive_types(ValidOutput)]
pub struct DynStateFilter<State, Input, ValidOutput> {
    inner: Rc<Boxed<State, Input, ValidOutput>>,
}

impl<State, Input, ValidOutput> DynStateFilter<State, Input, ValidOutput> {
    /// Whether the conversion of the output is the one that `into_spec` describes.
    pub closed spec fn faithful(&self) -> bool {
        self.inner.0.faithful()
    }

    /// What the filter answers for `input` under `state`.
    pub closed spec fn verdict(&self, state: State, input: Input) -> Result<
        ValidOutput,
        DynError,
    > {
        self.inner.0.answer(state, input)
    }

    /// Forgets the type of the filter `T`. Its output is converted into
    /// `ValidOutput`, and the type of its error is forgotten.
    pub fn new<T>() -> (r: Self) where
        T: StateFilter<State, Input> + 'static,
        T::ValidOutput: Into<ValidOutput>,
        T::Error: 'static,

        ensures
            r.faithful() == <T::ValidOutput as IntoSpec<ValidOutput>>::obeys_into_spec(),
            forall|state: State, input: Input|
                #[trigger] r.verdict(state, input) == converted::<State, Input, ValidOutput, T>(
                    state,
                    input,
                ),
    {
        DynStateFilter { inner: Rc::new(Boxed(Box::new(Converting::<T>(core::marker::PhantomData)))) }
    }

    /// Asks the filter about `input` under `state`.
    pub fn filter(&self, state: &State, input: Input) -> (r: Result<ValidOutput, DynError>)
        ensures
            self.faithful() ==> r == self.verdict(*state, input),
    {
        self.inner.0.check(state, input)
    }
}

impl<State, Input> DynStateFilter<State, Input, AnyOutput> {
    /// Forgets the type of the filter `T` and the types of its output and error.
    pub fn new_with_any_output<T>() -> (r: Self) where
        T: StateFilter<State, Input> + 'static,
        T::Error: 'static,

        ensures
            r.faithful(),
            forall|state: State, input: Input|
                #[trigger] r.verdict(state, input) == forgotten::<State, Input, T>(state, input),
    {
        DynStateFilter { inner: Rc::new(Boxed(Box::new(Forgetting::<T>(core::marker::PhantomData)))) }
    }
}

impl<State, Input, ValidOutput> Clone for DynStateFilter<State, Input, ValidOutput> {
    /// The copy is the same filter.
    fn clone(&self) -> (r: Self)
        ensures
            r == *self,
    {
        DynStateFilter { inner: share(&self.inner) }
    }
}

} // verus!
