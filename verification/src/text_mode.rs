//! The text major mode: the shared registry state and the highlight pass
//! that runs a configured sequence of minor modes over a buffer's grid.

use vstd::prelude::*;
use crate::faces::Faces;
use crate::grid::TextContent;

verus! {

/// State shared by every mode: the face registry. An explicitly owned
/// value passed by reference into each operation that needs it; there is
/// no process-wide singleton.
pub struct Global {
    pub faces: Faces,
}

/// A minor mode over text: a highlighter that, given the buffer text, may
/// mutate the grid in place. The text itself and the registry are left
/// alone, and the grid invariant is preserved.
pub trait TextMinorMode {
    fn modify(&mut self, global: &mut Global, content: &mut TextContent)
        requires
            old(global).faces.wf(),
            old(content).wf(),
        ensures
            final(content).wf(),
            final(content).lines_view() == old(content).lines_view(),
            *final(global) == *old(global),
    ;
}

/// The text major mode: it owns the highlight pass over a buffer.
pub struct TextMode {}

impl TextMode {
    /// Run each configured minor mode over the buffer, in their fixed
    /// order. Every mode sees the grid as mutated by the previous ones;
    /// the text and the registry are untouched and the grid invariant
    /// holds before, between and after the passes.
    pub fn highlight<M: TextMinorMode>(
        &self,
        global: &mut Global,
        content: &mut TextContent,
        modes: &mut Vec<M>,
    )
        requires
            old(global).faces.wf(),
            old(content).wf(),
        ensures
            final(content).wf(),
            final(content).lines_view() == old(content).lines_view(),
            *final(global) == *old(global),
            final(modes)@.len() == old(modes)@.len(),
    {
        let n = modes.len();
        let mut i: usize = 0;
        while i < n
            invariant
                n == modes@.len(),
                i <= n,
                global.faces.wf(),
                content.wf(),
                content.lines_view() == old(content).lines_view(),
                *global == *old(global),
            decreases n - i,
        {
            let mut m = modes.remove(i);
            m.modify(global, content);
            modes.insert(i, m);
            i += 1;
        }
    }
}

} // verus!
