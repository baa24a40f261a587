//! Runtime field values available to the parameter signal graph.

use vstd::prelude::*;

verus! {

/// A field provider that knows no fields.
#[derive(Debug, Clone, Copy)]
pub struct NullFields;

impl NullFields {
    /// The value of the field at `path`: there is none, for every path.
    pub fn get<N>(&self, path: &str) -> (value: Option<N>)
        ensures
            value is None,
    {
        None
    }
}

} // verus!
