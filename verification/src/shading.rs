//! Shading (post-process pass) settings.

use vstd::prelude::*;

verus! {

/// Where a shading pass is composited relative to the document.
#[derive(Debug, Clone, Copy, PartialEq, Eq, Structural)]
pub enum ShadingStack {
    Behind,
    Middle,
    OnTop,
}

impl Default for ShadingStack {
    fn default() -> (s: Self)
        ensures
            s == ShadingStack::Behind,
    {
        ShadingStack::Behind
    }
}

/// A pass is enabled unless the project says otherwise.
pub fn default_enabled() -> (b: bool)
    ensures
        b,
{
    true
}

/// A pass reloads its shader file on change unless the project says otherwise.
pub fn default_hot_reload() -> (b: bool)
    ensures
        b,
{
    true
}

} // verus!
