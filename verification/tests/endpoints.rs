use egs_api::api::endpoints::{
    account_url, accounts_query, asset_info_url, asset_manifest_url, assets_url, entitlements_url,
    fab_library_url, fab_manifest_url, friends_url, kill_session_url, library_url, ownership_item,
    ownership_url, ACCOUNTS_URL, EXCHANGE_URL, TOKEN_URL, VERIFY_URL,
};
use egs_api::api::error::EpicAPIError;
use egs_api::api::payload::ManifestError;
use egs_api::api::types::download_manifest::DownloadManifest;
use egs_api::api::types::fab_library::{Cursor, FabAsset, FabLibrary};
use egs_api::api::types::library::{Library, Record, ResponseMetadata};

fn some(text: &str) -> Option<String> {
    Some(text.to_string())
}

#[test]
fn fixed_addresses() {
    assert_eq!(
        TOKEN_URL,
        "https://account-public-service-prod03.ol.epicgames.com/account/api/oauth/token"
    );
    assert_eq!(
        VERIFY_URL,
        "https://account-public-service-prod03.ol.epicgames.com/account/api/oauth/verify"
    );
    assert_eq!(
        EXCHANGE_URL,
        "https://account-public-service-prod03.ol.epicgames.com/account/api/oauth/exchange"
    );
    assert_eq!(
        ACCOUNTS_URL,
        "https://account-public-service-prod03.ol.epicgames.com/account/api/public/account"
    );
}

#[test]
fn addresses_of_the_account_service() {
    assert_eq!(
        kill_session_url("tok"),
        "https://account-public-service-prod03.ol.epicgames.com/account/api/oauth/sessions/kill/tok"
    );
    assert_eq!(
        account_url(&some("id1")).unwrap(),
        "https://account-public-service-prod03.ol.epicgames.com/account/api/public/account/id1"
    );
    assert!(matches!(account_url(&None), Err(EpicAPIError::InvalidParams)));
    assert_eq!(
        accounts_query(&vec!["a".to_string(), "b".to_string(), "c".to_string()]).unwrap(),
        "accountId=a&accountId=b&accountId=c"
    );
    assert_eq!(accounts_query(&vec!["a".to_string()]).unwrap(), "accountId=a");
    assert!(matches!(accounts_query(&vec![]), Err(EpicAPIError::InvalidParams)));
    assert_eq!(
        friends_url(&some("me"), true).unwrap(),
        "https://friends-public-service-prod06.ol.epicgames.com/friends/api/public/friends/me?includePending=true"
    );
    assert_eq!(
        friends_url(&some("me"), false).unwrap(),
        "https://friends-public-service-prod06.ol.epicgames.com/friends/api/public/friends/me?includePending=false"
    );
    assert!(matches!(friends_url(&None, true), Err(EpicAPIError::InvalidParams)));
    assert_eq!(
        entitlements_url(&some("me")).unwrap(),
        "https://entitlement-public-service-prod08.ol.epicgames.com/entitlement/api/account/me/entitlements?start=0&count=5000"
    );
    assert!(matches!(entitlements_url(&None), Err(EpicAPIError::InvalidCredentials)));
    assert_eq!(
        ownership_url(&some("me")).unwrap(),
        "https://ecommerceintegration-public-service-ecomprod02.ol.epicgames.com/ecommerceintegration/api/public/platforms/EPIC/identities/me/ownershipToken"
    );
    assert!(matches!(ownership_url(&None), Err(EpicAPIError::InvalidCredentials)));
    assert_eq!(ownership_item("ns", "item"), "ns:item");
}

#[test]
fn addresses_of_the_launcher_and_catalog() {
    assert_eq!(
        assets_url(&None, &None),
        "https://launcher-public-service-prod06.ol.epicgames.com/launcher/api/public/assets/Windows?label=Live"
    );
    assert_eq!(
        assets_url(&some("Mac"), &some("Beta")),
        "https://launcher-public-service-prod06.ol.epicgames.com/launcher/api/public/assets/Mac?label=Beta"
    );
    assert_eq!(
        asset_manifest_url(&None, &None, &some("ns"), &some("item"), &some("app")).unwrap(),
        "https://launcher-public-service-prod06.ol.epicgames.com/launcher/api/public/assets/v2/platform/Windows/namespace/ns/catalogItem/item/app/app/label/Live"
    );
    assert_eq!(
        asset_manifest_url(&some("Mac"), &some("L"), &some("n"), &some("i"), &some("a")).unwrap(),
        "https://launcher-public-service-prod06.ol.epicgames.com/launcher/api/public/assets/v2/platform/Mac/namespace/n/catalogItem/i/app/a/label/L"
    );
    assert!(matches!(
        asset_manifest_url(&None, &None, &None, &some("i"), &some("a")),
        Err(EpicAPIError::InvalidParams)
    ));
    assert!(matches!(
        asset_manifest_url(&None, &None, &some("n"), &None, &some("a")),
        Err(EpicAPIError::InvalidParams)
    ));
    assert!(matches!(
        asset_manifest_url(&None, &None, &some("n"), &some("i"), &None),
        Err(EpicAPIError::InvalidParams)
    ));
    assert_eq!(
        asset_info_url("ns", "item"),
        "https://catalog-public-service-prod06.ol.epicgames.com/catalog/api/shared/namespace/ns/bulk/items?id=item&includeDLCDetails=true&includeMainGameDetails=true&country=us&locale=lc"
    );
    assert_eq!(
        library_url(true, &None),
        "https://library-service.live.use1a.on.epicgames.com/library/api/public/items?includeMetadata=true"
    );
    assert_eq!(
        library_url(false, &some("c1")),
        "https://library-service.live.use1a.on.epicgames.com/library/api/public/items?includeMetadata=false&cursor=c1"
    );
}

#[test]
fn addresses_of_fab() {
    assert_eq!(fab_manifest_url("art"), "https://www.fab.com/e/artifacts/art/manifest");
    assert_eq!(
        fab_library_url("acc", &None),
        "https://www.fab.com/e/accounts/acc/ue/library?count=100"
    );
    assert_eq!(
        fab_library_url("acc", &some("cur")),
        "https://www.fab.com/e/accounts/acc/ue/library?cursor=cur&count=100"
    );
}

fn record(name: &str) -> Record {
    Record { app_name: name.to_string(), ..Default::default() }
}

#[test]
fn pages_of_the_library() {
    let mut library = Library::default();
    let cursor = library.take_page(Library {
        records: vec![record("a"), record("b")],
        response_metadata: Some(ResponseMetadata { next_cursor: some("next") }),
    });
    assert_eq!(cursor, some("next"));
    let cursor = library.take_page(Library {
        records: vec![record("c")],
        response_metadata: Some(ResponseMetadata { next_cursor: None }),
    });
    assert_eq!(cursor, None);
    let cursor = library.take_page(Library { records: vec![], response_metadata: None });
    assert_eq!(cursor, None);
    assert_eq!(library.records, vec![record("a"), record("b"), record("c")]);
    assert_eq!(library.response_metadata, None);
}

#[test]
fn pages_of_the_fab_library() {
    let asset = |id: &str| FabAsset { asset_id: id.to_string(), ..Default::default() };
    let mut library = FabLibrary::default();
    library.take_page(FabLibrary {
        cursors: Cursor { next: some("n") },
        results: vec![asset("a")],
    });
    assert_eq!(library.cursors.next, some("n"));
    library.take_page(FabLibrary { cursors: Cursor { next: None }, results: vec![asset("b")] });
    assert_eq!(library.cursors.next, None);
    assert_eq!(library.results, vec![asset("a"), asset("b")]);
}

#[test]
fn reasons_why_there_is_no_manifest() {
    assert_eq!(DownloadManifest::try_parse(b"").err(), Some(ManifestError::MalformedJson));
    assert_eq!(DownloadManifest::try_parse(b"{}").err(), Some(ManifestError::MalformedJson));
    assert_eq!(
        DownloadManifest::try_parse(&[0x0c, 0xc0, 0xbe, 0x44, 1, 2, 3]).err(),
        Some(ManifestError::Truncated)
    );
    let mut header = vec![0x0c, 0xc0, 0xbe, 0x44];
    header.extend_from_slice(&[0u8; 37]);
    assert_eq!(
        DownloadManifest::try_parse(&header).err(),
        Some(ManifestError::IntegrityMismatch)
    );
    header[36] = 1;
    assert_eq!(
        DownloadManifest::try_parse(&header).err(),
        Some(ManifestError::IntegrityMismatch)
    );
}
