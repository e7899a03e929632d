use vstd::prelude::*;

verus! {

/// One step of a chain: the filter `Filter`, fed with the `Input` that is
/// carved out of whatever value reaches the step.
pub struct Condition<Input, Filter>(pub core::marker::PhantomData<(Input, Filter)>);

} // verus!
