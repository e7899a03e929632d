//! Filters and actions behind one type each, whatever their own types are.

pub mod action;
pub mod state_filter;

pub use action::{DynValidAction, DynValidActionExecutionError};
pub use state_filter::{AnyOutput, DynError, DynStateFilter};
