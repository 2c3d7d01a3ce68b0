//! Interpretation of optional command-line values: the argument
//! parser hands every option back as a string, with the empty string
//! standing for an option that was never set.

use vstd::prelude::*;

verus! {

/// The option's value, if the option was set: `Some` of the argument
/// exactly when it is non-empty, `None` for the empty string.
pub fn argument_if_set(argument: &String) -> (r: Option<String>)
    ensures
        match r {
            Some(s) => argument@.len() > 0 && s == *argument,
            None => argument@.len() == 0,
        },
{
    if !argument.as_str().is_empty() {
        Some(argument.clone())
    } else {
        None
    }
}

} // verus!
