//! Records of the store's services and the download manifest.

pub mod account;
pub mod asset_info;
pub mod asset_manifest;
pub mod chunk;
pub mod download_manifest;
pub mod entitlement;
pub mod epic_asset;
pub mod fab_asset_manifest;
pub mod fab_library;
pub mod friends;
pub mod library;
