use vstd::prelude::*;

use crate::assets::{AssetError, ResourceRequest, SResourceRequest};
use crate::language::text::{spec_trim, trim};

verus! {

/// A buffer that the host page fills with a fetched resource: its length and its bytes.
pub struct Bytes {
    pub len: u32,
    pub data: Vec<u8>,
}

/// What loading `src` asks for in a web build, where every asset is fetched: the URL `src`
/// without surrounding white space, unless network assets are disabled.
pub fn load_resource(src: &str, allow_network_asset: bool, _asset_root: &Option<String>) -> (r:
    Result<ResourceRequest, AssetError>)
    ensures
        !allow_network_asset ==> r == Err::<ResourceRequest, _>(AssetError::NetworkAssetDisabled),
        allow_network_asset ==> (r matches Ok(q) && q@ == SResourceRequest::Url(spec_trim(src@))),
{
    if !allow_network_asset {
        return Err(AssetError::NetworkAssetDisabled);
    }
    Ok(ResourceRequest::Url(trim(src)))
}

} // verus!
