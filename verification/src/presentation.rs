//! Flat, transport-ready shapes of the model, for the layer that answers
//! clients.  Serialization itself, and any lossy narrowing of decimal
//! numbers, stays outside this crate.

use vstd::prelude::*;

use crate::model;

verus! {

/// A resolved source, flattened: the identifier as its bare string.
pub struct SourceInformation {
    pub id: String,
    pub name: String,
    pub version: usize,
}

impl From<model::SourceInformation> for SourceInformation {
    fn from(value: model::SourceInformation) -> (r: Self) {
        Self { id: value.id.value().clone(), name: value.name, version: value.version }
    }
}

impl vstd::std_specs::convert::FromSpecImpl<model::SourceInformation> for SourceInformation {
    open spec fn obeys_from_spec() -> bool {
        true
    }

    open spec fn from_spec(v: model::SourceInformation) -> Self {
        SourceInformation { id: v.id.spec_raw(), name: v.name, version: v.version }
    }
}

} // verus!
