//! Where the manifests of a Fab asset are found.

use crate::api::text::{begins_with, starts_with};
use crate::api::types::account::Timestamp;
use vstd::prelude::*;

verus! {

/// Metadata of a download; the service sends none yet.
#[derive(Default, Debug, Clone, PartialEq)]
pub struct Metadata {}

/// A place from which a manifest can be had for a while.
#[derive(Default, Debug, Clone, PartialEq)]
pub struct DistributionPoint {
    /// Address of the manifest.
    pub manifest_url: String,
    /// When the signature in the address expires.
    pub signature_expiration: Timestamp,
}

/// How a build of a Fab asset is downloaded.
#[derive(Default, Debug, Clone, PartialEq)]
pub struct DownloadInfo {
    /// Artifact id.
    pub artifact_id: String,
    /// Asset format.
    pub asset_format: String,
    /// Build version.
    pub build_version: String,
    /// Base addresses of the distribution points.
    pub distribution_point_base_urls: Vec<String>,
    /// Distribution points.
    pub distribution_points: Vec<DistributionPoint>,
    /// Hash of the manifest.
    pub manifest_hash: String,
    /// Metadata.
    pub metadata: Metadata,
    /// Kind of download.
    pub type_field: String,
}

/// What the service answers when asked for the manifests of a Fab asset.
#[derive(Default, Debug, Clone, PartialEq)]
pub struct FabAssetManifest {
    /// How each build is downloaded.
    pub download_info: Vec<DownloadInfo>,
}

/// Index of the first distribution point at or behind `from` whose
/// manifest address begins with `base`; the number of points where there is
/// none.
pub open spec fn point_at(points: Seq<DistributionPoint>, base: Seq<char>, from: int) -> int
    decreases points.len() - from,
{
    if from < 0 || from >= points.len() {
        points.len() as int
    } else if begins_with(points[from].manifest_url@, base) {
        from
    } else {
        point_at(points, base, from + 1)
    }
}

impl DistributionPoint {
    /// Whether the signature of the address has expired at `now`.
    pub fn is_expired_at(&self, now: Timestamp) -> (expired: bool)
        ensures
            expired == (self.signature_expiration.total_nanos() < now.total_nanos()),
    {
        let this: i128 = self.signature_expiration.seconds as i128 * 1_000_000_000
            + self.signature_expiration.nanos as i128;
        let that: i128 = now.seconds as i128 * 1_000_000_000 + now.nanos as i128;
        this < that
    }
}

impl DownloadInfo {
    /// The first distribution point whose manifest address begins with the
    /// given base address.
    pub fn get_distribution_point_by_base_url(&self, base_url: &str) -> (point: Option<
        &DistributionPoint,
    >)
        ensures
            match point {
                Some(found) => point_at(self.distribution_points@, base_url@, 0)
                    < self.distribution_points@.len() && *found
                    == self.distribution_points@[point_at(self.distribution_points@, base_url@, 0)],
                None => point_at(self.distribution_points@, base_url@, 0)
                    == self.distribution_points@.len(),
            },
    {
        let mut i: usize = 0;
        while i < self.distribution_points.len()
            invariant
                i <= self.distribution_points@.len(),
                point_at(self.distribution_points@, base_url@, 0) == point_at(
                    self.distribution_points@,
                    base_url@,
                    i as int,
                ),
            decreases self.distribution_points@.len() - i,
        {
            if starts_with(self.distribution_points[i].manifest_url.as_str(), base_url) {
                return Some(&self.distribution_points[i]);
            }
            i = i + 1;
        }
        None
    }
}

} // verus!
