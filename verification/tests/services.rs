use egs_api::api::error::EpicAPIError;
use egs_api::api::table::Table;
use egs_api::api::text::{insert_sorted, is_less, join, starts_with};
use egs_api::api::types::account::{LoginStep, Timestamp, UserData};
use egs_api::api::types::asset_info::{AssetInfo, ReleaseInfo};
use egs_api::api::types::asset_manifest::{AssetManifest, Element, Manifest, QueryParam};
use egs_api::api::types::download_manifest::DownloadManifest;
use egs_api::api::types::fab_asset_manifest::{DistributionPoint, DownloadInfo};

fn at(seconds: i64) -> Timestamp {
    Timestamp { seconds, nanos: 0 }
}

#[test]
fn update_takes_over_what_is_known() {
    let mut user = UserData::new();
    assert_eq!(user, UserData::default());
    user.set_access_token(Some("old-access".to_string()));
    user.set_refresh_token(Some("old-refresh".to_string()));
    user.expires_in = Some(10);
    user.account_id = Some("account".to_string());
    user.error_message = Some("old error".to_string());
    let mut new = UserData::new();
    new.set_access_token(Some("new-access".to_string()));
    new.expires_at = Some(at(5));
    new.internal_client = Some(true);
    new.display_name = Some("name".to_string());
    user.update(new);
    assert_eq!(user.access_token(), Some("new-access".to_string()));
    assert_eq!(user.refresh_token(), Some("old-refresh".to_string()));
    assert_eq!(user.expires_in, Some(10));
    assert_eq!(user.expires_at, Some(at(5)));
    assert_eq!(user.account_id, Some("account".to_string()));
    assert_eq!(user.internal_client, Some(true));
    assert_eq!(user.display_name, Some("name".to_string()));
    assert_eq!(user.error_message, Some("old error".to_string()));
    assert_eq!(user.token_type, None);
    let before = user.clone();
    user.update(UserData::new());
    assert_eq!(user, before);
}

#[test]
fn update_of_every_field() {
    let mut new = UserData::new();
    new.set_access_token(Some("a".to_string()));
    new.expires_in = Some(1);
    new.expires_at = Some(at(2));
    new.token_type = Some("t".to_string());
    new.set_refresh_token(Some("r".to_string()));
    new.refresh_expires = Some(3);
    new.refresh_expires_at = Some(at(4));
    new.account_id = Some("ac".to_string());
    new.client_id = Some("cl".to_string());
    new.internal_client = Some(false);
    new.client_service = Some("cs".to_string());
    new.display_name = Some("dn".to_string());
    new.app = Some("app".to_string());
    new.in_app_id = Some("in".to_string());
    new.device_id = Some("dev".to_string());
    new.error_message = Some("em".to_string());
    new.error_code = Some("ec".to_string());
    let mut user = UserData::new();
    user.update(new.clone());
    assert_eq!(user, new);
}

#[test]
fn session_is_fresh_beyond_ten_minutes() {
    let mut user = UserData::new();
    assert_eq!(user.is_logged_in_at(at(0)), false);
    user.expires_at = Some(at(1600));
    assert_eq!(user.is_logged_in_at(at(999)), true);
    assert_eq!(user.is_logged_in_at(at(1000)), false);
    assert_eq!(user.is_logged_in_at(Timestamp { seconds: 998, nanos: 999_999_999 }), true);
    assert_eq!(user.is_logged_in_at(Timestamp { seconds: 999, nanos: 1 }), false);
    assert_eq!(user.is_logged_in_at(at(2000)), false);
    user.expires_at = Some(Timestamp { seconds: i64::MAX, nanos: 999_999_999 });
    assert_eq!(user.is_logged_in_at(Timestamp { seconds: i64::MIN, nanos: 0 }), true);
    assert!(at(601).is_far_after(&at(0)));
    assert!(!at(600).is_far_after(&at(0)));
}

#[test]
fn steps_of_a_login() {
    let mut user = UserData::new();
    assert_eq!(user.login_first_step(at(0)), LoginStep::Finished(false));
    user.refresh_expires_at = Some(at(5000));
    assert_eq!(user.login_first_step(at(0)), LoginStep::StartSession);
    assert_eq!(user.login_first_step(at(4500)), LoginStep::Finished(false));
    user.expires_at = Some(at(1000));
    assert_eq!(user.login_first_step(at(0)), LoginStep::ResumeSession);
    assert_eq!(user.login_first_step(at(500)), LoginStep::StartSession);
    assert_eq!(user.login_step_on_resumed(at(0), Some(true)), LoginStep::Finished(true));
    assert_eq!(user.login_step_on_resumed(at(0), Some(false)), LoginStep::Finished(false));
    assert_eq!(user.login_step_on_resumed(at(0), None), LoginStep::StartSession);
    assert_eq!(user.login_step_on_resumed(at(4500), None), LoginStep::Finished(false));
    assert_eq!(user.login_step_after_resume(at(0)), LoginStep::StartSession);
}

fn pairs(list: &[(&str, &str)]) -> Vec<(String, String)> {
    list.iter().map(|(a, b)| (a.to_string(), b.to_string())).collect()
}

#[test]
fn parameters_of_a_session_request() {
    let mut user = UserData::new();
    assert_eq!(user.grant_params(None, None), None);
    user.set_refresh_token(Some("r".to_string()));
    assert_eq!(
        user.grant_params(None, None),
        Some(pairs(&[("grant_type", "refresh_token"), ("refresh_token", "r"), ("token_type", "eg1")]))
    );
    assert_eq!(
        user.grant_params(None, Some("c".to_string())),
        Some(pairs(&[("grant_type", "authorization_code"), ("code", "c"), ("token_type", "eg1")]))
    );
    assert_eq!(
        user.grant_params(Some("x".to_string()), Some("c".to_string())),
        Some(pairs(&[("grant_type", "exchange_code"), ("exchange_code", "x"), ("token_type", "eg1")]))
    );
}

#[test]
fn authorization_header() {
    let mut user = UserData::new();
    assert_eq!(user.authorization(), "bearer ");
    user.set_access_token(Some("token".to_string()));
    assert_eq!(user.authorization(), "bearer token");
    user.token_type = Some("eg1".to_string());
    assert_eq!(user.authorization(), "eg1 token");
}

#[test]
fn answers_to_a_session_request() {
    let mut user = UserData::new();
    user.account_id = Some("a".to_string());
    let before = user.clone();
    assert!(matches!(
        user.take_login_response(true, Some(UserData::new())),
        Err(EpicAPIError::Server)
    ));
    assert_eq!(user, before);
    assert!(matches!(user.take_login_response(false, None), Err(EpicAPIError::Unknown)));
    assert_eq!(user, before);
    let mut answer = UserData::new();
    answer.set_access_token(Some("t".to_string()));
    assert!(matches!(user.take_login_response(false, Some(answer)), Ok(true)));
    assert_eq!(user.access_token(), Some("t".to_string()));
    assert_eq!(user.account_id, Some("a".to_string()));
    let mut failed = UserData::new();
    failed.error_message = Some("denied".to_string());
    match user.take_login_response(false, Some(failed)) {
        Err(EpicAPIError::APIError(message)) => assert_eq!(message, "denied"),
        other => panic!("{:?}", other),
    }
    assert_eq!(user.error_message, Some("denied".to_string()));
    assert!(matches!(
        user.take_login_response(false, Some(UserData::new())),
        Err(EpicAPIError::APIError(_))
    ));
}

fn manifest(uri: &str, params: &[(&str, &str)]) -> Manifest {
    Manifest {
        uri: uri.to_string(),
        query_params: params
            .iter()
            .map(|(n, v)| QueryParam { name: n.to_string(), value: v.to_string() })
            .collect(),
    }
}

#[test]
fn addresses_of_manifests() {
    let asset = AssetManifest {
        elements: vec![
            Element {
                manifests: vec![manifest("https://a/x", &[]), manifest("https://b/y", &[])],
                ..Default::default()
            },
            Element { manifests: vec![], ..Default::default() },
            Element { manifests: vec![manifest("https://c/z", &[])], ..Default::default() },
        ],
        ..Default::default()
    };
    assert_eq!(asset.url_csv(), "https://a/x,https://b/y,https://c/z");
    assert_eq!(AssetManifest::default().url_csv(), "");
    assert_eq!(manifest("https://a/x", &[("k", "v"), ("t", "1")]).address(), "https://a/x?k=v&t=1");
    assert_eq!(manifest("https://a/x", &[("k", "v")]).address(), "https://a/x?k=v");
    assert_eq!(manifest("https://a/x", &[]).address(), "https://a/x?");
}

#[test]
fn directory_of_a_manifest() {
    assert_eq!(
        manifest("https://cdn.example/Builds/Org/o-abc/App/default/Manifest.manifest?x=1#top", &[])
            .source_url(),
        Some("https://cdn.example/Builds/Org/o-abc/App/default".to_string())
    );
    assert_eq!(
        manifest("https://cdn.example/one", &[]).source_url(),
        Some("https://cdn.example/".to_string())
    );
    assert_eq!(
        manifest("https://cdn.example", &[]).source_url(),
        Some("https://cdn.example/".to_string())
    );
    assert_eq!(
        manifest("https://cdn.example/a/b/", &[]).source_url(),
        Some("https://cdn.example/a/b".to_string())
    );
    assert_eq!(manifest("no address", &[]).source_url(), None);
    assert_eq!(manifest("data:text/plain,Hello", &[]).source_url(), Some("data:".to_string()));
}

#[test]
fn joined_texts() {
    assert_eq!(join(&vec![], ","), "");
    assert_eq!(join(&vec!["a".to_string()], ","), "a");
    assert_eq!(join(&vec!["a".to_string(), "".to_string(), "c".to_string()], ", "), "a, , c");
}

#[test]
fn text_that_begins_with_another() {
    assert!(starts_with("https://cdn/x", "https://cdn"));
    assert!(starts_with("abc", ""));
    assert!(starts_with("abc", "abc"));
    assert!(!starts_with("abc", "abcd"));
    assert!(!starts_with("abc", "b"));
    assert!(!starts_with("", "a"));
}

#[test]
fn distribution_point_by_base() {
    let info = DownloadInfo {
        distribution_points: vec![
            DistributionPoint {
                manifest_url: "https://one.example/m".to_string(),
                signature_expiration: at(100),
            },
            DistributionPoint {
                manifest_url: "https://two.example/m?a".to_string(),
                signature_expiration: at(200),
            },
            DistributionPoint {
                manifest_url: "https://two.example/m?b".to_string(),
                signature_expiration: at(300),
            },
        ],
        ..Default::default()
    };
    let found = info.get_distribution_point_by_base_url("https://two.example").expect("a point");
    assert_eq!(found.manifest_url, "https://two.example/m?a");
    assert!(info.get_distribution_point_by_base_url("https://three.example").is_none());
    assert_eq!(
        info.get_distribution_point_by_base_url("").unwrap().manifest_url,
        "https://one.example/m"
    );
    assert_eq!(found.is_expired_at(at(199)), false);
    assert_eq!(found.is_expired_at(at(200)), false);
    assert_eq!(found.is_expired_at(Timestamp { seconds: 200, nanos: 1 }), true);
    assert!(DownloadInfo::default().get_distribution_point_by_base_url("").is_none());
}

fn blank_manifest() -> DownloadManifest {
    DownloadManifest {
        manifest_file_version: 18,
        chunk_sha_list: Some(Table::new()),
        ..Default::default()
    }
}

#[test]
fn provenance_of_a_manifest() {
    let mut manifest = blank_manifest();
    manifest.stamp_provenance(
        "https://a,https://b".to_string(),
        Some("item".to_string()),
        None,
        Some("ns".to_string()),
        None,
        "https://a/dir".to_string(),
    );
    let fields = manifest.custom_fields.as_ref().unwrap();
    assert_eq!(fields.len(), 4);
    assert_eq!(fields.key(0), "BaseUrl");
    assert_eq!(fields.key(1), "CatalogItemId");
    assert_eq!(fields.key(2), "CatalogNamespace");
    assert_eq!(fields.key(3), "SourceURL");
    assert_eq!(manifest.custom_field("BaseUrl"), Some("https://a,https://b".to_string()));
    assert_eq!(manifest.custom_field("CatalogItemId"), Some("item".to_string()));
    assert_eq!(manifest.custom_field("BuildLabel"), None);
    assert_eq!(manifest.custom_field("CatalogNamespace"), Some("ns".to_string()));
    assert_eq!(manifest.custom_field("CatalogAssetName"), None);
    assert_eq!(manifest.custom_field("SourceURL"), Some("https://a/dir".to_string()));
    manifest.stamp_provenance(
        "c".to_string(),
        None,
        Some("Live".to_string()),
        None,
        Some("app".to_string()),
        "d".to_string(),
    );
    assert_eq!(manifest.custom_fields.as_ref().unwrap().len(), 6);
    assert_eq!(manifest.custom_field("BaseUrl"), Some("c".to_string()));
    assert_eq!(manifest.custom_field("BuildLabel"), Some("Live".to_string()));
    assert_eq!(manifest.custom_field("CatalogAssetName"), Some("app".to_string()));
    assert_eq!(manifest.custom_field("SourceURL"), Some("d".to_string()));
    assert_eq!(manifest.custom_field("CatalogItemId"), Some("item".to_string()));
}

#[test]
fn manifest_of_which_nothing_is_known() {
    let manifest = DownloadManifest::default();
    assert_eq!(manifest.manifest_file_version, 0);
    assert_eq!(manifest.app_name_string, "");
    assert_eq!(manifest.file_manifest_list.len(), 0);
    assert_eq!(manifest.chunk_hash_list.len(), 0);
    assert_eq!(manifest.chunk_sha_list, None);
    assert_eq!(manifest.custom_fields, None);
    assert_eq!(manifest.custom_field("BaseUrl"), None);
    assert_eq!(manifest.total_size(), 0);
    assert_eq!(manifest.total_download_size(), 0);
    assert_eq!(manifest.files().len(), 0);
    assert!(manifest.download_links().is_none());
    let read = DownloadManifest::from_vec(manifest.to_vec()).expect("a manifest");
    assert_eq!(read.chunk_sha_list, Some(Table::new()));
    assert_eq!(read.custom_fields, Some(Table::new()));
    assert_eq!(read.manifest_file_version, 0);
}

#[test]
fn blank_manifest_is_written_and_read() {
    let mut manifest = blank_manifest();
    manifest.custom_fields = Some(Table::new());
    let bytes = manifest.to_vec();
    assert_eq!(DownloadManifest::from_vec(bytes), Some(manifest));
}

fn release(id: &str, date: Option<i64>, apps: Option<&[&str]>, platforms: Option<&[&str]>) -> ReleaseInfo {
    ReleaseInfo {
        id: Some(id.to_string()),
        compatible_apps: apps.map(|a| a.iter().map(|s| s.to_string()).collect()),
        platform: platforms.map(|a| a.iter().map(|s| s.to_string()).collect()),
        date_added: date.map(at),
        ..Default::default()
    }
}

fn ids(releases: &[ReleaseInfo]) -> Vec<String> {
    releases.iter().map(|r| r.id.clone().unwrap()).collect()
}

#[test]
fn releases_from_newest_to_oldest() {
    let mut item = AssetInfo::default();
    assert!(item.get_sorted_releases().is_none());
    assert!(item.get_latest_release().is_none());
    item.release_info = Some(Vec::new());
    assert_eq!(item.get_sorted_releases(), Some(Vec::new()));
    assert!(item.get_latest_release().is_none());
    let releases = vec![
        release("a", Some(5), None, None),
        release("b", None, None, None),
        release("c", Some(9), None, None),
        release("d", Some(5), None, None),
        release("e", None, None, None),
        release("f", Some(1), None, None),
    ];
    let mut expected = releases.clone();
    expected.sort_by_key(|r| r.date_added.map(|t| (t.seconds, t.nanos)));
    expected.reverse();
    item.release_info = Some(releases);
    let sorted = item.get_sorted_releases().expect("releases");
    assert_eq!(ids(&sorted), vec!["c", "d", "a", "f", "e", "b"]);
    assert_eq!(sorted, expected);
    assert_eq!(item.get_latest_release().unwrap().id, Some("c".to_string()));
}

#[test]
fn apps_and_platforms_of_all_releases() {
    let mut item = AssetInfo::default();
    assert_eq!(item.get_compatible_apps(), None);
    assert_eq!(item.get_platforms(), None);
    item.release_info = Some(vec![
        release("a", None, Some(&["UE_5.1", "UE_4.27"]), Some(&["Windows"])),
        release("b", None, None, None),
        release("c", None, Some(&["UE_5.0", "UE_5.1", "UE_4.27", "UE_5"]), Some(&["Mac", "Windows", "Linux"])),
    ]);
    assert_eq!(
        item.get_compatible_apps(),
        Some(vec!["UE_4.27".to_string(), "UE_5".to_string(), "UE_5.0".to_string(), "UE_5.1".to_string()])
    );
    assert_eq!(
        item.get_platforms(),
        Some(vec!["Linux".to_string(), "Mac".to_string(), "Windows".to_string()])
    );
    item.release_info = Some(Vec::new());
    assert_eq!(item.get_compatible_apps(), Some(Vec::new()));
}

#[test]
fn order_of_texts() {
    assert!(is_less("a", "b"));
    assert!(!is_less("b", "a"));
    assert!(!is_less("a", "a"));
    assert!(is_less("", "a"));
    assert!(!is_less("a", ""));
    assert!(!is_less("", ""));
    assert!(is_less("ab", "abc"));
    assert!(is_less("Z", "a"));
    assert!(is_less("z", "\u{e9}"));
    let words = ["pear", "apple", "fig", "apple", "", "figs", "Pear"];
    let mut list: Vec<String> = Vec::new();
    for word in words {
        insert_sorted(&mut list, word.to_string());
    }
    let mut expected: Vec<String> = words.iter().map(|s| s.to_string()).collect();
    expected.sort();
    expected.dedup();
    assert_eq!(list, expected);
}
