//! The Fab library of an account.

use crate::api::table::Table;
use vstd::prelude::*;

verus! {

/// A page of the Fab library of an account.
#[derive(Default, Debug, Clone, PartialEq)]
pub struct FabLibrary {
    pub cursors: Cursor,
    pub results: Vec<FabAsset>,
}

/// Where the next page of a listing starts.
#[derive(Default, Debug, Clone, PartialEq)]
pub struct Cursor {
    pub next: Option<String>,
}

/// An item of the Fab library.
#[derive(Default, Debug, Clone, PartialEq)]
pub struct FabAsset {
    pub asset_id: String,
    pub asset_namespace: String,
    pub categories: Vec<Category>,
    pub custom_attributes: Vec<Table<String>>,
    pub description: String,
    pub distribution_method: String,
    pub images: Vec<Image>,
    pub legacy_item_id: Option<String>,
    pub project_versions: Vec<ProjectVersion>,
    pub source: String,
    pub title: String,
    pub url: String,
}

/// A category of a Fab listing.
#[derive(Default, Debug, Clone, PartialEq)]
pub struct Category {
    pub id: String,
    pub name: Option<String>,
}

/// An image of a Fab listing.
#[derive(Default, Debug, Clone, PartialEq)]
pub struct Image {
    pub height: String,
    pub md5: Option<String>,
    pub type_field: String,
    pub uploaded_date: String,
    pub url: String,
    pub width: String,
}

/// A version of a Fab project.
#[derive(Default, Debug, Clone, PartialEq)]
pub struct ProjectVersion {
    pub artifact_id: String,
    pub build_versions: Vec<BuildVersion>,
    pub engine_versions: Vec<String>,
    pub target_platforms: Vec<String>,
}

/// A build of a version of a Fab project.
#[derive(Default, Debug, Clone, PartialEq)]
pub struct BuildVersion {
    pub build_version: String,
    pub platform: String,
}

impl FabLibrary {
    /// Takes in a page of the library: its items go behind those at hand,
    /// and its cursor takes the place of the cursor at hand.
    pub fn take_page(&mut self, page: FabLibrary)
        ensures
            final(self).results@ == old(self).results@ + page.results@,
            final(self).cursors == page.cursors,
    {
        let FabLibrary { cursors, results } = page;
        let mut results = results;
        self.cursors = cursors;
        self.results.append(&mut results);
    }
}

} // verus!
