//! Stored records of the account service.
use vstd::prelude::*;

pub mod refresh_token;
pub mod user;

verus! {

/// A column of a record being written: a new value, the value already
/// stored, or nothing.
#[derive(Debug)]
pub enum ActiveValue<V> {
    Assigned(V),
    Unchanged(V),
    NotSet,
}

/// The value a column holds, if any.
pub open spec fn value_of<V>(v: ActiveValue<V>) -> Option<V> {
    match v {
        ActiveValue::Assigned(x) => Some(x),
        ActiveValue::Unchanged(x) => Some(x),
        ActiveValue::NotSet => None,
    }
}

} // verus!
