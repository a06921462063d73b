//! Taking an asset out of the library and bringing it back in. What is taken
//! out is a tree of plain values; turning that into text is left to the caller.

use vstd::prelude::*;
use crate::asset::snapshot::{AssetSnapshot, ImportError};
use crate::asset::Asset;

verus! {

/// The asset as a tree of plain values: what every node and every edge
/// holds, under its index, the names of the exposed properties, and the
/// nodes that stand for embedded assets.
pub fn export_asset_v1(asset: &Asset) -> (snapshot: AssetSnapshot)
    requires
        asset.wf(),
    ensures
        snapshot.taken_from(asset),
{
    asset.snapshot()
}

/// Bundles the assets that an asset refers to into it. An asset refers to
/// no asset outside of itself yet, so there is nothing to bundle.
pub fn export_asset_bundled() {
}

/// The asset that a tree of plain values stands for, or what is wrong with
/// the tree.
pub fn import_asset_v1(snapshot: AssetSnapshot) -> (r: Result<Asset, ImportError>)
    ensures
        match r {
            Ok(asset) => snapshot.fault() is None && asset.wf() && snapshot.restored_as(&asset),
            Err(e) => snapshot.fault() == Some(e),
        },
{
    Asset::restore(snapshot)
}

} // verus!
