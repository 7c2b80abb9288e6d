pub mod args;
pub mod registry;
pub mod styles;

use vstd::prelude::*;

verus! {

/// The encodings a template can be rendered to.
#[derive(Debug, Clone, Copy, PartialEq, Eq, Structural)]
pub enum RenderOutputType {
    SVG,
    PNG,
}

} // verus!
