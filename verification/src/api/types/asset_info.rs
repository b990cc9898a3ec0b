//! Catalog items and tokens.

use crate::api::binary::views_of;
use crate::api::json::Json;
use crate::api::payload::option_view;
use crate::api::table::Table;
use crate::api::text::{ascending, insert_sorted};
use crate::api::types::account::Timestamp;
use vstd::prelude::*;

verus! {

/// A category of a catalog item.
#[derive(Default, Debug, Clone, PartialEq)]
pub struct Category {
    pub path: String,
}

/// A custom attribute of a catalog item.
#[derive(Default, Debug, Clone, PartialEq)]
pub struct CustomAttribute {
    pub type_field: String,
    pub value: String,
}

/// A short-lived code that starts a game session.
#[derive(Default, Debug, Clone, PartialEq)]
pub struct GameToken {
    pub expires_in_seconds: i64,
    pub code: String,
    pub creating_client_id: String,
}

/// A token that proves ownership of an item.
#[derive(Default, Debug, Clone, PartialEq)]
pub struct OwnershipToken {
    pub token: String,
}

/// An image of a catalog item.
#[derive(Default, Debug, Clone, PartialEq)]
pub struct KeyImage {
    pub type_field: String,
    pub url: String,
    /// The MD5 of the image.
    pub md5: String,
    pub width: i64,
    pub height: i64,
    pub size: i64,
    /// When the image was uploaded.
    pub uploaded_date: Timestamp,
}

/// A release of a catalog item.
#[derive(Default, Debug, Clone, PartialEq)]
pub struct ReleaseInfo {
    pub id: Option<String>,
    pub app_id: Option<String>,
    pub compatible_apps: Option<Vec<String>>,
    pub platform: Option<Vec<String>>,
    /// When the release was added.
    pub date_added: Option<Timestamp>,
    pub release_note: Option<String>,
    pub version_title: Option<String>,
}

/// What a release holds.
pub struct ReleaseModel {
    pub id: Option<Seq<char>>,
    pub app_id: Option<Seq<char>>,
    pub compatible_apps: Option<Seq<Seq<char>>>,
    pub platform: Option<Seq<Seq<char>>>,
    pub date_added: Option<Timestamp>,
    pub release_note: Option<Seq<char>>,
    pub version_title: Option<Seq<char>>,
}

/// The texts of an optional list of strings.
pub open spec fn option_views(list: Option<Vec<String>>) -> Option<Seq<Seq<char>>> {
    match list {
        Some(texts) => Some(views_of(texts@)),
        None => None,
    }
}

impl View for ReleaseInfo {
    type V = ReleaseModel;

    open spec fn view(&self) -> ReleaseModel {
        ReleaseModel {
            id: option_view(self.id),
            app_id: option_view(self.app_id),
            compatible_apps: option_views(self.compatible_apps),
            platform: option_views(self.platform),
            date_added: self.date_added,
            release_note: option_view(self.release_note),
            version_title: option_view(self.version_title),
        }
    }
}

/// What a sequence of releases holds.
pub open spec fn release_models(releases: Seq<ReleaseInfo>) -> Seq<ReleaseModel> {
    releases.map_values(|r: ReleaseInfo| r@)
}

/// A copy of a list of strings.
pub fn copy_texts(texts: &Vec<String>) -> (copy: Vec<String>)
    ensures
        views_of(copy@) == views_of(texts@),
{
    let mut copy: Vec<String> = Vec::new();
    let mut i: usize = 0;
    while i < texts.len()
        invariant
            i <= texts@.len(),
            views_of(copy@) == views_of(texts@).take(i as int),
        decreases texts@.len() - i,
    {
        let ghost before = views_of(copy@);
        copy.push(texts[i].clone());
        i = i + 1;
        assert(views_of(copy@) =~= before.push(texts@[i - 1]@));
        assert(views_of(copy@) =~= views_of(texts@).take(i as int));
    }
    assert(views_of(texts@).take(i as int) =~= views_of(texts@));
    copy
}

/// A copy of an optional list of strings.
pub fn copy_option_texts(texts: &Option<Vec<String>>) -> (copy: Option<Vec<String>>)
    ensures
        option_views(copy) == option_views(*texts),
{
    match texts {
        Some(list) => Some(copy_texts(list)),
        None => None,
    }
}

impl ReleaseInfo {
    /// A copy of the release.
    pub fn copy(&self) -> (copy: ReleaseInfo)
        ensures
            copy@ == self@,
    {
        ReleaseInfo {
            id: self.id.clone(),
            app_id: self.app_id.clone(),
            compatible_apps: copy_option_texts(&self.compatible_apps),
            platform: copy_option_texts(&self.platform),
            date_added: self.date_added,
            release_note: self.release_note.clone(),
            version_title: self.version_title.clone(),
        }
    }
}

/// A catalog item.
#[derive(Debug)]
pub struct AssetInfo {
    pub id: String,
    pub title: Option<String>,
    pub description: Option<String>,
    pub key_images: Option<Vec<KeyImage>>,
    pub categories: Option<Vec<Category>>,
    pub namespace: String,
    pub status: Option<String>,
    pub creation_date: Option<Timestamp>,
    pub last_modified_date: Option<Timestamp>,
    pub custom_attributes: Option<Table<CustomAttribute>>,
    pub entitlement_name: Option<String>,
    pub entitlement_type: Option<String>,
    pub item_type: Option<String>,
    pub release_info: Option<Vec<ReleaseInfo>>,
    pub developer: Option<String>,
    pub developer_id: Option<String>,
    pub eula_ids: Vec<String>,
    pub end_of_support: Option<bool>,
    pub dlc_item_list: Vec<AssetInfo>,
    pub age_gatings: Option<Json>,
    pub application_id: Option<String>,
    pub unsearchable: bool,
    pub self_refundable: Option<bool>,
    pub requires_secure_account: Option<bool>,
    pub long_description: Option<String>,
    pub main_game_item: Box<Option<AssetInfo>>,
    pub esrb_game_rating_value: Option<String>,
    pub use_count: Option<i64>,
    pub technical_details: Option<String>,
    pub install_modes: Vec<Json>,
}

impl Default for AssetInfo {
    /// A catalog item of which nothing is known: every text and list is
    /// empty, every flag is off, and nothing else is there.
    fn default() -> (item: AssetInfo)
        ensures
            item.id@ == Seq::<char>::empty(),
            item.title is None,
            item.description is None,
            item.key_images is None,
            item.categories is None,
            item.namespace@ == Seq::<char>::empty(),
            item.status is None,
            item.creation_date is None,
            item.last_modified_date is None,
            item.custom_attributes is None,
            item.entitlement_name is None,
            item.entitlement_type is None,
            item.item_type is None,
            item.release_info is None,
            item.developer is None,
            item.developer_id is None,
            item.eula_ids@.len() == 0,
            item.end_of_support is None,
            item.dlc_item_list@.len() == 0,
            item.age_gatings is None,
            item.application_id is None,
            !item.unsearchable,
            item.self_refundable is None,
            item.requires_secure_account is None,
            item.long_description is None,
            *item.main_game_item is None,
            item.esrb_game_rating_value is None,
            item.use_count is None,
            item.technical_details is None,
            item.install_modes@.len() == 0,
    {
        AssetInfo {
            id: String::new(),
            title: None,
            description: None,
            key_images: None,
            categories: None,
            namespace: String::new(),
            status: None,
            creation_date: None,
            last_modified_date: None,
            custom_attributes: None,
            entitlement_name: None,
            entitlement_type: None,
            item_type: None,
            release_info: None,
            developer: None,
            developer_id: None,
            eula_ids: Vec::new(),
            end_of_support: None,
            dlc_item_list: Vec::new(),
            age_gatings: None,
            application_id: None,
            unsearchable: false,
            self_refundable: None,
            requires_secure_account: None,
            long_description: None,
            main_game_item: Box::new(None),
            esrb_game_rating_value: None,
            use_count: None,
            technical_details: None,
            install_modes: Vec::new(),
        }
    }
}

/// Whether a date is later than another; no date is the earliest.
pub open spec fn later(a: Option<Timestamp>, b: Option<Timestamp>) -> bool {
    match a {
        Some(first) => match b {
            Some(second) => first.total_nanos() > second.total_nanos(),
            None => true,
        },
        None => false,
    }
}

/// Tests whether a date is later than another.
pub fn is_later(a: &Option<Timestamp>, b: &Option<Timestamp>) -> (after: bool)
    ensures
        after == later(*a, *b),
{
    match a {
        Some(first) => match b {
            Some(second) => {
                let this: i128 = first.seconds as i128 * 1_000_000_000 + first.nanos as i128;
                let that: i128 = second.seconds as i128 * 1_000_000_000 + second.nanos as i128;
                this > that
            },
            None => true,
        },
        None => false,
    }
}

/// Index of the first release at or behind `from` that is not later than
/// `date`; the number of releases where every one is later.
pub open spec fn place_for(releases: Seq<ReleaseModel>, date: Option<Timestamp>, from: int) -> int
    decreases releases.len() - from,
{
    if from < 0 || from >= releases.len() {
        releases.len() as int
    } else if !later(releases[from].date_added, date) {
        from
    } else {
        place_for(releases, date, from + 1)
    }
}

/// The first `count` releases from the newest to the oldest; of releases
/// of one date the one that stands later in the list comes first.
pub open spec fn newest_first(releases: Seq<ReleaseModel>, count: nat) -> Seq<ReleaseModel>
    decreases count,
{
    if count == 0 {
        Seq::empty()
    } else {
        let earlier = newest_first(releases, (count - 1) as nat);
        let release = releases[count - 1];
        earlier.insert(place_for(earlier, release.date_added, 0), release)
    }
}

/// Whether no release of a sequence is later than the one before it.
pub open spec fn descending(releases: Seq<ReleaseModel>) -> bool {
    forall|i: int|
        0 <= i < releases.len() - 1 ==> !later(
            releases[i + 1].date_added,
            (#[trigger] releases[i]).date_added,
        )
}

/// The apps that the first `count` releases work with, release after
/// release.
pub open spec fn apps_upto(releases: Seq<ReleaseModel>, count: nat) -> Seq<Seq<char>>
    decreases count,
{
    if count == 0 {
        Seq::empty()
    } else {
        apps_upto(releases, (count - 1) as nat) + match releases[count - 1].compatible_apps {
            Some(apps) => apps,
            None => Seq::empty(),
        }
    }
}

/// The platforms that the first `count` releases are for, release after
/// release.
pub open spec fn platforms_upto(releases: Seq<ReleaseModel>, count: nat) -> Seq<Seq<char>>
    decreases count,
{
    if count == 0 {
        Seq::empty()
    } else {
        platforms_upto(releases, (count - 1) as nat) + match releases[count - 1].platform {
            Some(platforms) => platforms,
            None => Seq::empty(),
        }
    }
}

/// Puts every text of a list into an ascending list.
pub fn insert_all(list: &mut Vec<String>, texts: &Vec<String>)
    requires
        ascending(views_of(old(list)@)),
    ensures
        ascending(views_of(final(list)@)),
        forall|t: Seq<char>|
            #[trigger] views_of(final(list)@).contains(t) <==> (views_of(old(list)@).contains(t)
                || views_of(texts@).contains(t)),
{
    let mut i: usize = 0;
    while i < texts.len()
        invariant
            i <= texts@.len(),
            ascending(views_of(list@)),
            forall|t: Seq<char>|
                #[trigger] views_of(list@).contains(t) <==> (views_of(old(list)@).contains(t)
                    || views_of(texts@).take(i as int).contains(t)),
        decreases texts@.len() - i,
    {
        let ghost before = views_of(list@);
        let ghost taken = views_of(texts@).take(i as int);
        insert_sorted(list, texts[i].clone());
        i = i + 1;
        proof {
            let next = views_of(texts@).take(i as int);
            assert(next =~= taken.push(texts@[i - 1]@));
            assert forall|t: Seq<char>| #[trigger]
                views_of(list@).contains(t) <==> (views_of(old(list)@).contains(t)
                    || next.contains(t)) by {
                assert(views_of(list@).contains(t) <==> (before.contains(t) || t == texts@[i
                    - 1]@));
                if taken.contains(t) {
                    let k = taken.index_of(t);
                    assert(next[k] == t);
                }
                if t == texts@[i - 1]@ {
                    assert(next[i - 1] == t);
                }
                if next.contains(t) {
                    let k = next.index_of(t);
                    if k < i - 1 {
                        assert(taken[k] == t);
                    }
                }
            }
        }
    }
    assert(views_of(texts@).take(i as int) =~= views_of(texts@));
}

impl AssetInfo {
    /// The releases from the newest to the oldest.
    pub fn get_sorted_releases(&self) -> (sorted: Option<Vec<ReleaseInfo>>)
        ensures
            match sorted {
                Some(list) => self.release_info is Some && release_models(list@) == newest_first(
                    release_models(self.release_info.unwrap()@),
                    self.release_info.unwrap()@.len(),
                ) && descending(release_models(list@)),
                None => self.release_info is None,
            },
    {
        let releases: &Vec<ReleaseInfo> = match &self.release_info {
            Some(releases) => releases,
            None => {
                return None;
            },
        };
        let ghost models = release_models(releases@);
        let mut sorted: Vec<ReleaseInfo> = Vec::new();
        let mut i: usize = 0;
        assert(release_models(sorted@) =~= newest_first(models, 0));
        while i < releases.len()
            invariant
                i <= releases@.len(),
                models == release_models(releases@),
                release_models(sorted@) == newest_first(models, i as nat),
                descending(release_models(sorted@)),
            decreases releases@.len() - i,
        {
            let release: ReleaseInfo = releases[i].copy();
            let ghost before = release_models(sorted@);
            let mut place: usize = 0;
            while place < sorted.len() && is_later(&sorted[place].date_added, &release.date_added)
                invariant
                    place <= sorted@.len(),
                    before == release_models(sorted@),
                    place_for(before, release.date_added, 0) == place_for(
                        before,
                        release.date_added,
                        place as int,
                    ),
                    forall|j: int|
                        0 <= j < place ==> later(
                            (#[trigger] before[j]).date_added,
                            release.date_added,
                        ),
                decreases sorted@.len() - place,
            {
                place = place + 1;
            }
            sorted.insert(place, release);
            i = i + 1;
            proof {
                let after = release_models(sorted@);
                assert(after =~= before.insert(place as int, release@));
                assert(release@ == models[i - 1]);
                assert forall|k: int| 0 <= k < after.len() - 1 implies !later(
                    after[k + 1].date_added,
                    (#[trigger] after[k]).date_added,
                ) by {
                    if k + 1 < place {
                        assert(after[k] == before[k] && after[k + 1] == before[k + 1]);
                    } else if k + 1 == place {
                        assert(after[k] == before[k]);
                    } else if k == place {
                        assert(after[k + 1] == before[k]);
                    } else {
                        assert(after[k] == before[k - 1] && after[k + 1] == before[k]);
                    }
                }
            }
        }
        Some(sorted)
    }

    /// The newest release.
    pub fn get_latest_release(&self) -> (latest: Option<ReleaseInfo>)
        ensures
            match latest {
                Some(release) => self.release_info is Some && self.release_info.unwrap()@.len() > 0
                    && release@ == newest_first(
                    release_models(self.release_info.unwrap()@),
                    self.release_info.unwrap()@.len(),
                )[0],
                None => self.release_info is None || self.release_info.unwrap()@.len() == 0,
            },
    {
        match self.get_sorted_releases() {
            Some(releases) => {
                proof {
                    lemma_newest_first_len(
                        release_models(self.release_info.unwrap()@),
                        self.release_info.unwrap()@.len(),
                    );
                }
                if releases.len() > 0 {
                    Some(releases[0].copy())
                } else {
                    None
                }
            },
            None => None,
        }
    }

    /// The apps that any release works with, each once, in ascending
    /// order.
    pub fn get_compatible_apps(&self) -> (apps: Option<Vec<String>>)
        ensures
            match apps {
                Some(list) => {
                    &&& self.release_info is Some
                    &&& ascending(views_of(list@))
                    &&& forall|t: Seq<char>|
                        #[trigger] views_of(list@).contains(t) <==> apps_upto(
                            release_models(self.release_info.unwrap()@),
                            self.release_info.unwrap()@.len(),
                        ).contains(t)
                },
                None => self.release_info is None,
            },
    {
        let releases: &Vec<ReleaseInfo> = match &self.release_info {
            Some(releases) => releases,
            None => {
                return None;
            },
        };
        let ghost models = release_models(releases@);
        let mut res: Vec<String> = Vec::new();
        let mut i: usize = 0;
        while i < releases.len()
            invariant
                i <= releases@.len(),
                models == release_models(releases@),
                ascending(views_of(res@)),
                forall|t: Seq<char>|
                    #[trigger] views_of(res@).contains(t) <==> apps_upto(models, i as nat).contains(
                        t,
                    ),
            decreases releases@.len() - i,
        {
            let ghost before = views_of(res@);
            let ghost earlier = apps_upto(models, i as nat);
            match &releases[i].compatible_apps {
                Some(apps) => {
                    insert_all(&mut res, apps);
                    proof {
                        let added = views_of(apps@);
                        assert(models[i as int].compatible_apps == Some(added));
                        lemma_contains_concat(earlier, added);
                    }
                },
                None => {
                    proof {
                        assert(models[i as int].compatible_apps is None);
                        assert(earlier + Seq::<Seq<char>>::empty() =~= earlier);
                    }
                },
            }
            i = i + 1;
        }
        Some(res)
    }

    /// The platforms that any release is for, each once, in ascending
    /// order.
    pub fn get_platforms(&self) -> (platforms: Option<Vec<String>>)
        ensures
            match platforms {
                Some(list) => {
                    &&& self.release_info is Some
                    &&& ascending(views_of(list@))
                    &&& forall|t: Seq<char>|
                        #[trigger] views_of(list@).contains(t) <==> platforms_upto(
                            release_models(self.release_info.unwrap()@),
                            self.release_info.unwrap()@.len(),
                        ).contains(t)
                },
                None => self.release_info is None,
            },
    {
        let releases: &Vec<ReleaseInfo> = match &self.release_info {
            Some(releases) => releases,
            None => {
                return None;
            },
        };
        let ghost models = release_models(releases@);
        let mut res: Vec<String> = Vec::new();
        let mut i: usize = 0;
        while i < releases.len()
            invariant
                i <= releases@.len(),
                models == release_models(releases@),
                ascending(views_of(res@)),
                forall|t: Seq<char>|
                    #[trigger] views_of(res@).contains(t) <==> platforms_upto(
                        models,
                        i as nat,
                    ).contains(t),
            decreases releases@.len() - i,
        {
            let ghost earlier = platforms_upto(models, i as nat);
            match &releases[i].platform {
                Some(list) => {
                    insert_all(&mut res, list);
                    proof {
                        let added = views_of(list@);
                        assert(models[i as int].platform == Some(added));
                        lemma_contains_concat(earlier, added);
                    }
                },
                None => {
                    proof {
                        assert(models[i as int].platform is None);
                        assert(earlier + Seq::<Seq<char>>::empty() =~= earlier);
                    }
                },
            }
            i = i + 1;
        }
        Some(res)
    }
}

/// A text is in two lists put together exactly if it is in one of them.
pub proof fn lemma_contains_concat(first: Seq<Seq<char>>, second: Seq<Seq<char>>)
    ensures
        forall|t: Seq<char>|
            #[trigger] (first + second).contains(t) <==> (first.contains(t) || second.contains(t)),
{
    let whole = first + second;
    assert forall|t: Seq<char>| #[trigger]
        whole.contains(t) <==> (first.contains(t) || second.contains(t)) by {
        if whole.contains(t) {
            let k = whole.index_of(t);
            if k < first.len() {
                assert(first[k] == t);
            } else {
                assert(second[k - first.len()] == t);
            }
        }
        if first.contains(t) {
            let k = first.index_of(t);
            assert(whole[k] == t);
        }
        if second.contains(t) {
            let k = second.index_of(t);
            assert(whole[first.len() + k] == t);
        }
    }
}

/// Sorting keeps the number of releases.
pub proof fn lemma_newest_first_len(releases: Seq<ReleaseModel>, count: nat)
    requires
        count <= releases.len(),
    ensures
        newest_first(releases, count).len() == count,
    decreases count,
{
    if count > 0 {
        lemma_newest_first_len(releases, (count - 1) as nat);
        let earlier = newest_first(releases, (count - 1) as nat);
        lemma_place_in_range(earlier, releases[count - 1].date_added, 0);
    }
}

/// The place for a release is in the list or at its end.
pub proof fn lemma_place_in_range(releases: Seq<ReleaseModel>, date: Option<Timestamp>, from: int)
    requires
        0 <= from <= releases.len(),
    ensures
        from <= place_for(releases, date, from) <= releases.len(),
    decreases releases.len() - from,
{
    if from < releases.len() && later(releases[from].date_added, date) {
        lemma_place_in_range(releases, date, from + 1);
    }
}

} // verus!
