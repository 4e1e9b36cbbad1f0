//! The transform stages of the pipeline. Each stage consumes the whole
//! record collection and produces the next one; a failing stage aborts
//! the run before anything is rendered.

use vstd::prelude::*;

pub mod filter;
pub mod flatten;
pub mod select;
pub mod sort;

pub use filter::Filter;
pub use flatten::Flatten;
pub use select::Select;
pub use sort::Sort;

verus! {

use crate::Error;
use crate::value::Value;

/// A transform over the record collection. Stages with nothing to fail
/// on still return `Ok`; the contracts live on each stage's own `apply`.
pub trait Action {
    fn apply(&self, values: Vec<Value>) -> Result<Vec<Value>, Error>;
}

} // verus!
