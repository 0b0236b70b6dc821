use vstd::prelude::*;
use vstd::string::*;

verus! {

/// The full text of one input unit together with a label naming where it came from.
pub struct Input {
    pub file: String,
    pub content: String,
}

impl Input {
    /// Wraps text that did not come from a file; its label is `<input>`.
    pub fn _from_string(input_string: String) -> (r: Input)
        ensures
            r.file@ == "<input>"@,
            r.content@ == input_string@,
    {
        Input { file: String::from_str("<input>"), content: input_string }
    }
}

} // verus!
