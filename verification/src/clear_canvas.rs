//! The component that clears the canvas before anything is rendered.

use vstd::prelude::*;

verus! {

/// Clears the canvas in the pre-render phase. It holds nothing: what it
/// clears and how is the host's to say.
pub struct ClearCanvas {}

impl ClearCanvas {
    pub fn new() -> (clear_canvas: Self)
        ensures
            clear_canvas == (ClearCanvas {  }),
    {
        Self {  }
    }
}

} // verus!
