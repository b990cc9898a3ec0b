//! The addresses of the store's services, and what has to be known before
//! a service can be asked.

use crate::api::error::EpicAPIError;
use crate::api::payload::option_view;
use crate::api::text::{join, joined};
use vstd::prelude::*;
use vstd::string::StringExecFns;

verus! {

/// Where a session is asked for.
pub const TOKEN_URL: &'static str =
    "https://account-public-service-prod03.ol.epicgames.com/account/api/oauth/token";

/// Where a session is verified.
pub const VERIFY_URL: &'static str =
    "https://account-public-service-prod03.ol.epicgames.com/account/api/oauth/verify";

/// Where an exchange code is had.
pub const EXCHANGE_URL: &'static str =
    "https://account-public-service-prod03.ol.epicgames.com/account/api/oauth/exchange";

/// Where accounts are looked up by their ids.
pub const ACCOUNTS_URL: &'static str =
    "https://account-public-service-prod03.ol.epicgames.com/account/api/public/account";

/// A text, or another where there is none.
pub open spec fn text_or(text: Option<Seq<char>>, fallback: Seq<char>) -> Seq<char> {
    match text {
        Some(t) => t,
        None => fallback,
    }
}

/// The text of a boolean.
pub open spec fn flag_text(flag: bool) -> Seq<char> {
    if flag {
        "true"@
    } else {
        "false"@
    }
}

/// Appends the text of a boolean.
pub fn push_flag(out: &mut String, flag: bool)
    ensures
        final(out)@ == old(out)@ + flag_text(flag),
{
    if flag {
        out.append("true");
    } else {
        out.append("false");
    }
}

/// Appends a text, or another where there is none.
pub fn push_or(out: &mut String, text: &Option<String>, fallback: &str)
    ensures
        final(out)@ == old(out)@ + text_or(option_view(*text), fallback@),
{
    match text {
        Some(t) => out.append(t.as_str()),
        None => out.append(fallback),
    }
}

/// Where a session is ended: the address of the service and the access
/// token.
pub fn kill_session_url(access_token: &str) -> (url: String)
    ensures
        url@
            == "https://account-public-service-prod03.ol.epicgames.com/account/api/oauth/sessions/kill/"@
            + access_token@,
{
    let mut url: String =
        "https://account-public-service-prod03.ol.epicgames.com/account/api/oauth/sessions/kill/".to_owned();
    url.append(access_token);
    url
}

/// Where the assets of a platform and a label are listed; the platform is
/// `Windows` and the label `Live` where none is given.
pub fn assets_url(platform: &Option<String>, label: &Option<String>) -> (url: String)
    ensures
        url@
            == "https://launcher-public-service-prod06.ol.epicgames.com/launcher/api/public/assets/"@
            + text_or(option_view(*platform), "Windows"@) + "?label="@ + text_or(
            option_view(*label),
            "Live"@,
        ),
{
    let mut url: String =
        "https://launcher-public-service-prod06.ol.epicgames.com/launcher/api/public/assets/".to_owned();
    push_or(&mut url, platform, "Windows");
    url.append("?label=");
    push_or(&mut url, label, "Live");
    url
}

/// Where the details of the account of the session are had. The id of the
/// account has to be known.
pub fn account_url(account_id: &Option<String>) -> (url: Result<String, EpicAPIError>)
    ensures
        match url {
            Ok(text) => account_id is Some && text@
                == "https://account-public-service-prod03.ol.epicgames.com/account/api/public/account/"@
                + account_id.unwrap()@,
            Err(EpicAPIError::InvalidParams) => account_id is None,
            Err(_) => false,
        },
{
    match account_id {
        Some(id) => {
            let mut url: String =
                "https://account-public-service-prod03.ol.epicgames.com/account/api/public/account/".to_owned();
            url.append(id.as_str());
            Ok(url)
        },
        None => Err(EpicAPIError::InvalidParams),
    }
}

/// The query that asks for accounts by their ids: every id as a parameter
/// `accountId`. There has to be an id.
pub fn accounts_query(ids: &Vec<String>) -> (query: Result<String, EpicAPIError>)
    ensures
        match query {
            Ok(text) => ids@.len() > 0 && text@ == "accountId="@ + joined(
                ids@.map_values(|s: String| s@),
                "&accountId="@,
            ),
            Err(EpicAPIError::InvalidParams) => ids@.len() == 0,
            Err(_) => false,
        },
{
    if ids.len() == 0 {
        return Err(EpicAPIError::InvalidParams);
    }
    let mut query: String = "accountId=".to_owned();
    let all: String = join(ids, "&accountId=");
    query.append(all.as_str());
    Ok(query)
}

/// Where the friends of the account of the session are listed. The id of
/// the account has to be known.
pub fn friends_url(account_id: &Option<String>, include_pending: bool) -> (url: Result<
    String,
    EpicAPIError,
>)
    ensures
        match url {
            Ok(text) => account_id is Some && text@
                == "https://friends-public-service-prod06.ol.epicgames.com/friends/api/public/friends/"@
                + account_id.unwrap()@ + "?includePending="@ + flag_text(include_pending),
            Err(EpicAPIError::InvalidParams) => account_id is None,
            Err(_) => false,
        },
{
    match account_id {
        Some(id) => {
            let mut url: String =
                "https://friends-public-service-prod06.ol.epicgames.com/friends/api/public/friends/".to_owned();
            url.append(id.as_str());
            url.append("?includePending=");
            push_flag(&mut url, include_pending);
            Ok(url)
        },
        None => Err(EpicAPIError::InvalidParams),
    }
}

/// Where the entitlements of the account of the session are listed. The
/// id of the account has to be known.
pub fn entitlements_url(account_id: &Option<String>) -> (url: Result<String, EpicAPIError>)
    ensures
        match url {
            Ok(text) => account_id is Some && text@
                == "https://entitlement-public-service-prod08.ol.epicgames.com/entitlement/api/account/"@
                + account_id.unwrap()@ + "/entitlements?start=0&count=5000"@,
            Err(EpicAPIError::InvalidCredentials) => account_id is None,
            Err(_) => false,
        },
{
    match account_id {
        Some(id) => {
            let mut url: String =
                "https://entitlement-public-service-prod08.ol.epicgames.com/entitlement/api/account/".to_owned();
            url.append(id.as_str());
            url.append("/entitlements?start=0&count=5000");
            Ok(url)
        },
        None => Err(EpicAPIError::InvalidCredentials),
    }
}

/// Where an ownership token is had for the account of the session. The id
/// of the account has to be known.
pub fn ownership_url(account_id: &Option<String>) -> (url: Result<String, EpicAPIError>)
    ensures
        match url {
            Ok(text) => account_id is Some && text@
                == "https://ecommerceintegration-public-service-ecomprod02.ol.epicgames.com/ecommerceintegration/api/public/platforms/EPIC/identities/"@
                + account_id.unwrap()@ + "/ownershipToken"@,
            Err(EpicAPIError::InvalidCredentials) => account_id is None,
            Err(_) => false,
        },
{
    match account_id {
        Some(id) => {
            let mut url: String =
                "https://ecommerceintegration-public-service-ecomprod02.ol.epicgames.com/ecommerceintegration/api/public/platforms/EPIC/identities/".to_owned();
            url.append(id.as_str());
            url.append("/ownershipToken");
            Ok(url)
        },
        None => Err(EpicAPIError::InvalidCredentials),
    }
}

/// How an item is named when an ownership token is asked for: its
/// namespace, a colon and its id.
pub fn ownership_item(namespace: &str, catalog_item_id: &str) -> (item: String)
    ensures
        item@ == namespace@ + ":"@ + catalog_item_id@,
{
    let mut item: String = namespace.to_owned();
    item.append(":");
    item.append(catalog_item_id);
    item
}

/// Where the manifests of an artifact of Fab are asked for.
pub fn fab_manifest_url(artifact_id: &str) -> (url: String)
    ensures
        url@ == "https://www.fab.com/e/artifacts/"@ + artifact_id@ + "/manifest"@,
{
    let mut url: String = "https://www.fab.com/e/artifacts/".to_owned();
    url.append(artifact_id);
    url.append("/manifest");
    url
}

/// Where the builds of an asset are listed. Namespace, item and app have
/// to be given; the platform is `Windows` and the label `Live` where none is
/// given.
pub fn asset_manifest_url(
    platform: &Option<String>,
    label: &Option<String>,
    namespace: &Option<String>,
    item_id: &Option<String>,
    app: &Option<String>,
) -> (url: Result<String, EpicAPIError>)
    ensures
        match url {
            Ok(text) => {
                &&& namespace is Some
                &&& item_id is Some
                &&& app is Some
                &&& text@
                    == "https://launcher-public-service-prod06.ol.epicgames.com/launcher/api/public/assets/v2/platform/"@
                    + text_or(option_view(*platform), "Windows"@) + "/namespace/"@
                    + namespace.unwrap()@ + "/catalogItem/"@ + item_id.unwrap()@ + "/app/"@
                    + app.unwrap()@ + "/label/"@ + text_or(option_view(*label), "Live"@)
            },
            Err(EpicAPIError::InvalidParams) => namespace is None || item_id is None || app
                is None,
            Err(_) => false,
        },
{
    let space: &String = match namespace {
        Some(space) => space,
        None => {
            return Err(EpicAPIError::InvalidParams);
        },
    };
    let item: &String = match item_id {
        Some(item) => item,
        None => {
            return Err(EpicAPIError::InvalidParams);
        },
    };
    let name: &String = match app {
        Some(name) => name,
        None => {
            return Err(EpicAPIError::InvalidParams);
        },
    };
    let mut url: String =
        "https://launcher-public-service-prod06.ol.epicgames.com/launcher/api/public/assets/v2/platform/".to_owned();
    push_or(&mut url, platform, "Windows");
    url.append("/namespace/");
    url.append(space.as_str());
    url.append("/catalogItem/");
    url.append(item.as_str());
    url.append("/app/");
    url.append(name.as_str());
    url.append("/label/");
    push_or(&mut url, label, "Live");
    Ok(url)
}

/// Where an item of the catalog is described.
pub fn asset_info_url(namespace: &str, catalog_item_id: &str) -> (url: String)
    ensures
        url@
            == "https://catalog-public-service-prod06.ol.epicgames.com/catalog/api/shared/namespace/"@
            + namespace@ + "/bulk/items?id="@ + catalog_item_id@
            + "&includeDLCDetails=true&includeMainGameDetails=true&country=us&locale=lc"@,
{
    let mut url: String =
        "https://catalog-public-service-prod06.ol.epicgames.com/catalog/api/shared/namespace/".to_owned();
    url.append(namespace);
    url.append("/bulk/items?id=");
    url.append(catalog_item_id);
    url.append("&includeDLCDetails=true&includeMainGameDetails=true&country=us&locale=lc");
    url
}

/// Where a page of the library is had: the first one, or the one that a
/// cursor points to.
pub fn library_url(include_metadata: bool, cursor: &Option<String>) -> (url: String)
    ensures
        url@
            == "https://library-service.live.use1a.on.epicgames.com/library/api/public/items?includeMetadata="@
            + flag_text(include_metadata) + match *cursor {
            Some(c) => "&cursor="@ + c@,
            None => Seq::empty(),
        },
{
    let mut url: String =
        "https://library-service.live.use1a.on.epicgames.com/library/api/public/items?includeMetadata=".to_owned();
    push_flag(&mut url, include_metadata);
    let ghost head = url@;
    match cursor {
        Some(c) => {
            url.append("&cursor=");
            url.append(c.as_str());
            assert(url@ =~= head + ("&cursor="@ + c@));
        },
        None => {
            assert(url@ =~= head + Seq::<char>::empty());
        },
    }
    url
}

/// Where a page of the Fab library of an account is had: the first one,
/// or the one that a cursor points to.
pub fn fab_library_url(account_id: &str, cursor: &Option<String>) -> (url: String)
    ensures
        url@ == "https://www.fab.com/e/accounts/"@ + account_id@ + "/ue/library?"@ + (match *cursor {
            Some(c) => "cursor="@ + c@ + "&"@,
            None => Seq::empty(),
        }) + "count=100"@,
{
    let mut url: String = "https://www.fab.com/e/accounts/".to_owned();
    url.append(account_id);
    url.append("/ue/library?");
    let ghost head = url@;
    match cursor {
        Some(c) => {
            url.append("cursor=");
            url.append(c.as_str());
            url.append("&");
            assert(url@ =~= head + ("cursor="@ + c@ + "&"@));
        },
        None => {
            assert(url@ =~= head + Seq::<char>::empty());
        },
    }
    url.append("count=100");
    url
}

} // verus!
