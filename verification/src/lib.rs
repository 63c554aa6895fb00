//! Stateful folding: a sequence is consumed item by item into a state that
//! starts from an initial value, absorbs one item at a time and is turned
//! into a result at the end. `fold` holds the form that cannot fail,
//! `try_fold` the form in which an item can be refused, which ends the fold
//! at once with an error.
//!
//! The contracts say which result a fold gives for which items and which
//! accumulator; the laws that follow from them stand beside the functions as
//! proof functions.

pub mod fold;
pub mod try_fold;

pub use fold::{Foldable, StatefulFold};
pub use try_fold::{TryFoldable, TryStatefulFold};
