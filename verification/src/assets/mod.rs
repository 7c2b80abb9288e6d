pub mod emscripten;
pub mod native;

use vstd::prelude::*;

verus! {

/// A source of the bytes of assets (images, SVG files) named in templates.
pub trait AssetProvider {
    fn load(&self, src: &str) -> Result<Vec<u8>, String>;
}

/// Where assets come from: the network may be allowed, and file paths are resolved under an
/// optional root directory.
#[derive(Debug, Clone, PartialEq, Eq)]
pub struct DefaultAssetProvider {
    pub allow_network_asset: bool,
    pub asset_root: Option<String>,
}

/// What loading an asset asks for.
#[derive(Debug, Clone, PartialEq, Eq)]
pub enum ResourceRequest {
    /// Fetch this URL.
    Url(String),
    /// Read this file.
    File(String),
}

pub enum SResourceRequest {
    Url(Seq<char>),
    File(Seq<char>),
}

impl View for ResourceRequest {
    type V = SResourceRequest;

    open spec fn view(&self) -> SResourceRequest {
        match self {
            ResourceRequest::Url(u) => SResourceRequest::Url(u@),
            ResourceRequest::File(f) => SResourceRequest::File(f@),
        }
    }
}

/// Why an asset cannot be loaded.
#[derive(Debug, Clone, Copy, PartialEq, Eq, Structural)]
pub enum AssetError {
    NetworkAssetDisabled,
}

} // verus!
