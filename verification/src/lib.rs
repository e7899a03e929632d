//! Validate an input against a piece of state, then run an action on the
//! validated output.
//!
//! A [`StateFilter`] checks an input against a state and gives a validated
//! output or an error. A [`Validator`] holds a state together with the output
//! that a filter gave under it, and hands both to a [`ValidAction`]: the action
//! runs only on what its filter let through.
//!
//! Filters are chained with [`Condition`]: a tuple of up to eight conditions is
//! a filter again. Each step splits its input off the value that reaches it
//! ([`StateFilterInputConversion`]), asks its filter, and combines the
//! filter's output with what was left ([`StateFilterInputCombination`]), so a
//! later step can check what an earlier step produced.
//!
//! The splits and combinations of a record are generated from its
//! declaration by [`state_filter_conversion`]: for every choice of a type for
//! each field and every subset of the fields it registers a synthesized record
//! and makes the edges that lead from one to another. [`edges::Edge::split_take`]
//! and [`edges::Edge::combine`] say what an edge does to the values of the fields.

pub mod action;
pub mod algebra;
pub mod casing;
pub mod condition;
pub mod conversion;
pub mod dynamic;
pub mod edges;
pub mod error;
pub mod generator;
pub mod generics;
pub mod input_collector;
pub mod names;
pub mod plan;
pub mod record;
pub mod registry;
pub mod selections;
pub mod state_filter;
pub mod syntax;
pub mod synthesis;
pub mod type_expr;
pub mod validator;

pub use action::ValidAction;
pub use condition::Condition;
pub use dynamic::{
    AnyOutput, DynError, DynStateFilter, DynValidAction, DynValidActionExecutionError,
};
pub use generator::{state_filter_conversion, Plan};
pub use input_collector::{CollectedInputs, InputCollector};
pub use state_filter::{
    finish_step, take_step, FilterError, Rest, StateFilter, StateFilterEightChainError, StateFilterFiveChainError,
    StateFilterFourChainError, StateFilterInputCombination, StateFilterInputConversion,
    StateFilterSevenChainError, StateFilterSixChainError, StateFilterThreeChainError,
    StateFilterTwoChainError, Stepped,
};
pub use validator::Validator;
