//! The text editor's own state.
use vstd::prelude::*;

verus! {

/// The editor's input.
pub struct Editor {
    pub input_value: String,
}

impl Default for Editor {
    fn default() -> (r: Editor)
        ensures
            r.input_value@.len() == 0,
    {
        Editor { input_value: String::new() }
    }
}

impl Editor {
    /// Drawing is done by the view; the editor's state is left as it is.
    pub fn render(&mut self)
        ensures
            *final(self) == *old(self),
    {
    }
}

} // verus!
