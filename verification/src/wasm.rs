use vstd::prelude::*;

use crate::assets::DefaultAssetProvider;

verus! {

/// A buffer handed over by the host page: its length and its bytes.
pub struct Bytes {
    pub len: u32,
    pub data: Vec<u8>,
}

/// A buffer handed back to the host page: whether rendering succeeded (`1`) or failed (`0`),
/// the length of the bytes, and the bytes (the image, or the error message).
pub struct ResultBytes {
    pub success: u32,
    pub len: u32,
    pub data: Vec<u8>,
}

/// Packs `data` for the host page; the length is that of `data`, cut to 32 bits.
pub fn into_result_bytes(success: u32, data: Vec<u8>) -> (r: ResultBytes)
    ensures
        r.success == success,
        r.data@ == data@,
        r.len == data@.len() as u32,
{
    let len = data.len() as u32;
    ResultBytes { success, len, data }
}

/// The asset provider of a web build: network assets allowed, no root directory.
pub fn get_asset_provider() -> (p: DefaultAssetProvider)
    ensures
        p.allow_network_asset,
        p.asset_root is None,
{
    DefaultAssetProvider { allow_network_asset: true, asset_root: None }
}

} // verus!
