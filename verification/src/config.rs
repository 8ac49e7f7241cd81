//! Settings that are neither credentials nor users.
use vstd::prelude::*;

verus! {

/// Whether a setting is switched on: it has a value that is not empty.
pub fn is_set(value: &Option<String>) -> (r: bool)
    ensures
        r == (value matches Some(text) && text@.len() > 0),
{
    match value {
        Some(text) => !text.as_str().is_empty(),
        None => false,
    }
}

} // verus!
