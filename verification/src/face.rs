//! The options a document is read and written with.
use vstd::prelude::*;

use crate::model::schema::Core;

verus! {

/// The options: the schema, where one is chosen.
pub struct Options {
    pub schema: Option<Core>,
}

impl Options {
    /// No schema chosen.
    pub fn new() -> (r: Options)
        ensures
            r.schema is None,
    {
        Options { schema: None }
    }
}

impl From<(Core, Options)> for Options {
    /// The options with `val.0` as the schema.
    fn from(val: (Core, Options)) -> (r: Options) {
        Options { schema: Some(val.0) }
    }
}

impl vstd::std_specs::convert::FromSpecImpl<(Core, Options)> for Options {
    open spec fn obeys_from_spec() -> bool {
        true
    }

    open spec fn from_spec(v: (Core, Options)) -> Options {
        Options { schema: Some(v.0) }
    }
}

} // verus!
