//! Geometry of the remote display.
use vstd::prelude::*;

verus! {

/// Size of the remote display, learnt once when a session is set up.
#[derive(Clone, Copy, Debug, PartialEq, Eq, Structural)]
pub struct Terminal {
    pub width: u16,
    pub height: u16,
}

impl Terminal {
    /// A display has at least one row and one column.
    pub open spec fn wf(&self) -> bool {
        self.width >= 1 && self.height >= 1
    }

    /// Builds a geometry, or `None` where a side would be empty.
    pub fn new(width: u16, height: u16) -> (terminal: Option<Terminal>)
        ensures
            terminal == if width >= 1 && height >= 1 {
                Some(Terminal { width, height })
            } else {
                None
            },
    {
        if width >= 1 && height >= 1 {
            Some(Terminal { width, height })
        } else {
            None
        }
    }
}

} // verus!
