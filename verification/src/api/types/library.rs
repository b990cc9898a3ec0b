//! The library of an account.

use vstd::prelude::*;

verus! {

/// A page of the library of an account.
#[derive(Default, Debug, Clone, PartialEq)]
pub struct Library {
    pub records: Vec<Record>,
    pub response_metadata: Option<ResponseMetadata>,
}

/// One item of the library.
#[derive(Default, Debug, Clone, PartialEq)]
pub struct Record {
    pub app_name: String,
    pub catalog_item_id: String,
    pub namespace: String,
    pub product_id: String,
    pub sandbox_name: String,
}

/// What the service says about a page of the library.
#[derive(Default, Debug, Clone, PartialEq)]
pub struct ResponseMetadata {
    pub next_cursor: Option<String>,
}

impl Library {
    /// Takes in a page of the library: its items go behind those at hand.
    /// The cursor of the next page is given back, where there is a next
    /// page.
    pub fn take_page(&mut self, page: Library) -> (cursor: Option<String>)
        ensures
            final(self).records@ == old(self).records@ + page.records@,
            final(self).response_metadata == old(self).response_metadata,
            cursor == match page.response_metadata {
                Some(metadata) => metadata.next_cursor,
                None => None,
            },
    {
        let Library { records, response_metadata } = page;
        let mut records = records;
        self.records.append(&mut records);
        match response_metadata {
            Some(metadata) => metadata.next_cursor,
            None => None,
        }
    }
}

} // verus!
