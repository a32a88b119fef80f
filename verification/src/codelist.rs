//! The look-up of the labels of coded values.

use vstd::prelude::*;
use crate::object::Code;
use crate::pipeline::ParseError;

verus! {

/// A collaborator that knows the labels of the codes of code lists.
pub trait CodeResolver {
    /// The label of `code` in the code list `code_space`, which is given
    /// relative to `base_url`; `None` where no label is known.
    fn resolve(&self, base_url: &str, code_space: &str, code: &str) -> (r: Result<
        Option<String>,
        ParseError,
    >);
}

/// The code as it is presented once its label was looked up: the label
/// takes the place of the value where one is known, and the code list
/// stays.
pub fn labelled(code: Code, label: Option<String>) -> (r: Code)
    ensures
        r.code_space == code.code_space,
        r.value@ == (match label {
            Some(l) => l@,
            None => code.value@,
        }),
{
    match label {
        Some(l) => Code { value: l, code_space: code.code_space },
        None => code,
    }
}

/// A resolver that knows no label.
pub struct NoopResolver {}

impl CodeResolver for NoopResolver {
    /// Whatever is asked, the answer is that no label is known.
    fn resolve(&self, _base_url: &str, _code_space: &str, _code: &str) -> (r: Result<
        Option<String>,
        ParseError,
    >)
        ensures
            r matches Ok(label) && label is None,
    {
        Ok(None)
    }
}

} // verus!
