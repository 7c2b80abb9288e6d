pub mod assets;
pub mod values;
pub mod font;
pub mod language;
pub mod render;
pub mod runtime;
pub mod wasm;

use vstd::prelude::*;

use crate::font::FontFile;

verus! {

/// How a renderer is set up: whether assets may come from the network, the directory that
/// asset paths are resolved under, whether the system's fonts are loaded, and more fonts.
#[derive(Debug, Clone, PartialEq, Eq)]
pub struct SeruOption {
    pub allow_network_asset: bool,
    pub asset_root: Option<String>,
    pub load_system_fonts: bool,
    pub fonts: Vec<FontFile>,
}

} // verus!
