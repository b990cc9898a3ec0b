//! Where the manifests of an asset are found.

use crate::api::binary::views_of;
use crate::api::foreign::{path_segments, url_at_path, url_segments, with_path};
use crate::api::text::{join, joined};
use vstd::prelude::*;
use vstd::string::StringExecFns;

verus! {

/// A parameter of the query of a manifest address.
#[derive(Default, Debug, Clone, PartialEq)]
pub struct QueryParam {
    pub name: String,
    pub value: String,
}

/// Where one manifest of a build is found.
#[derive(Default, Debug, Clone, PartialEq)]
pub struct Manifest {
    /// The address of the manifest, as text.
    pub uri: String,
    /// What to send along as the query.
    pub query_params: Vec<QueryParam>,
}

/// A build of an asset and where its manifests are found.
#[derive(Default, Debug, Clone, PartialEq)]
pub struct Element {
    pub app_name: String,
    pub label_name: String,
    pub build_version: String,
    pub hash: String,
    pub manifests: Vec<Manifest>,
}

/// The builds of an asset, and what was asked for to get them.
#[derive(Default, Debug, Clone, PartialEq)]
pub struct AssetManifest {
    pub elements: Vec<Element>,
    pub platform: Option<String>,
    pub label: Option<String>,
    pub namespace: Option<String>,
    pub item_id: Option<String>,
    pub app: Option<String>,
}

/// The addresses of the manifests of a build, in order.
pub open spec fn element_uris(element: Element) -> Seq<Seq<char>> {
    element.manifests@.map_values(|m: Manifest| m.uri@)
}

/// The addresses of the manifests of the first `count` builds, build
/// after build.
pub open spec fn uris_upto(elements: Seq<Element>, count: nat) -> Seq<Seq<char>>
    decreases count,
{
    if count == 0 {
        Seq::empty()
    } else {
        uris_upto(elements, (count - 1) as nat) + element_uris(elements[count - 1])
    }
}

/// The text of a parameter of a query: its name, an equals sign and its
/// value.
pub open spec fn param_text(param: QueryParam) -> Seq<char> {
    param.name@ + "="@ + param.value@
}

/// The address of a manifest with its query: the address, a question
/// mark, and the parameters with an ampersand between each two.
pub open spec fn address_with_query(manifest: Manifest) -> Seq<char> {
    manifest.uri@ + "?"@ + joined(
        manifest.query_params@.map_values(|p: QueryParam| param_text(p)),
        "&"@,
    )
}

/// The path of the directory of an address: its path segments but the
/// last, with a slash between each two; the empty path where the address
/// has no segments.
pub open spec fn directory_path(address: Seq<char>) -> Seq<char> {
    match url_segments(address) {
        Some(segments) => if segments.len() > 0 {
            joined(segments.drop_last(), "/"@)
        } else {
            Seq::empty()
        },
        None => Seq::empty(),
    }
}

impl Manifest {
    /// The address of the directory that the manifest lies in: its address
    /// without the last segment of its path, without query and fragment.
    /// There is none where the address does not parse as a URL.
    pub fn source_url(&self) -> (source: Option<String>)
        ensures
            match source {
                Some(s) => url_at_path(self.uri@, directory_path(self.uri@)) == Some(s@),
                None => url_at_path(self.uri@, directory_path(self.uri@)) is None,
            },
    {
        let path: String = match path_segments(self.uri.as_str()) {
            Some(segments) => {
                let mut segments = segments;
                let ghost all = segments@.map_values(|s: String| s@);
                if segments.len() > 0 {
                    segments.pop();
                    assert(segments@.map_values(|s: String| s@) =~= all.drop_last());
                    join(&segments, "/")
                } else {
                    String::new()
                }
            },
            None => String::new(),
        };
        with_path(self.uri.as_str(), path.as_str())
    }

    /// The address to ask for the manifest: its address and its query.
    pub fn address(&self) -> (text: String)
        ensures
            text@ == address_with_query(*self),
    {
        let mut queries: Vec<String> = Vec::new();
        let mut i: usize = 0;
        let ghost texts = self.query_params@.map_values(|p: QueryParam| param_text(p));
        while i < self.query_params.len()
            invariant
                i <= self.query_params@.len(),
                texts == self.query_params@.map_values(|p: QueryParam| param_text(p)),
                views_of(queries@) == texts.take(i as int),
            decreases self.query_params@.len() - i,
        {
            let param: &QueryParam = &self.query_params[i];
            let mut query: String = param.name.clone();
            query.append("=");
            query.append(param.value.as_str());
            let ghost before = views_of(queries@);
            queries.push(query);
            i = i + 1;
            assert(views_of(queries@) =~= before.push(query@));
            assert(views_of(queries@) =~= texts.take(i as int));
        }
        assert(texts.take(i as int) =~= texts);
        assert(views_of(queries@) == queries@.map_values(|s: String| s@));
        let mut text: String = self.uri.clone();
        text.append("?");
        let all: String = join(&queries, "&");
        text.append(all.as_str());
        text
    }
}

impl AssetManifest {
    /// The addresses of all manifests of all builds, with a comma between
    /// each two.
    pub fn url_csv(&self) -> (csv: String)
        ensures
            csv@ == joined(uris_upto(self.elements@, self.elements@.len()), ","@),
    {
        let mut res: Vec<String> = Vec::new();
        let mut i: usize = 0;
        assert(views_of(res@) =~= uris_upto(self.elements@, 0));
        while i < self.elements.len()
            invariant
                i <= self.elements@.len(),
                views_of(res@) == uris_upto(self.elements@, i as nat),
            decreases self.elements@.len() - i,
        {
            let element: &Element = &self.elements[i];
            let ghost start = views_of(res@);
            let ghost uris = element_uris(*element);
            let mut j: usize = 0;
            assert(uris.take(0) =~= Seq::<Seq<char>>::empty());
            assert(start + uris.take(0) =~= start);
            while j < element.manifests.len()
                invariant
                    j <= element.manifests@.len(),
                    uris == element_uris(*element),
                    views_of(res@) == start + uris.take(j as int),
                decreases element.manifests@.len() - j,
            {
                let ghost before = views_of(res@);
                res.push(element.manifests[j].uri.clone());
                assert(views_of(res@) =~= before.push(element.manifests@[j as int].uri@));
                j = j + 1;
                assert(views_of(res@) =~= start + uris.take(j as int));
            }
            assert(uris.take(j as int) =~= uris);
            i = i + 1;
        }
        assert(views_of(res@) == res@.map_values(|s: String| s@));
        join(&res, ",")
    }
}

} // verus!
