//! Assets as the launcher service lists them.

use vstd::prelude::*;

verus! {

/// An asset of the library, as the launcher service lists it.
#[derive(Default, Debug, Clone, PartialEq)]
pub struct EpicAsset {
    pub app_name: String,
    pub label_name: String,
    pub build_version: String,
    pub catalog_item_id: String,
    pub namespace: String,
    pub asset_id: String,
}

} // verus!
