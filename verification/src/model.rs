//! Domain model shared by every part of the client: bangumi (anime series),
//! their weekly groups, subtitle groups, episodes, subscriptions and search
//! results.
//!
//! Each type has a deep view of plain mathematical values that the contracts
//! speak of.

use vstd::prelude::*;

verus! {

/// One bangumi as shown in lists and on its detail page.
#[derive(Debug, Clone)]
pub struct BangumiItem {
    pub name: String,
    pub bangumi_id: Option<u32>,
    pub cover_url: Option<String>,
    pub detail_url: Option<String>,
    pub meta: Option<BangumiMeta>,
    pub subtitle_groups: Vec<SubtitleGroup>,
    pub update_date: Option<String>,
}

/// The bangumi of one weekday (or of the movie shelf).
#[derive(Debug, Clone)]
pub struct BangumiGroup {
    /// `monday` … `sunday` or `movie`.
    pub day: String,
    /// The heading shown on the site.
    pub title: String,
    pub items: Vec<BangumiItem>,
}

/// Broadcast facts and links of a bangumi.
#[derive(Debug, Clone)]
pub struct BangumiMeta {
    pub broadcast_day: Option<String>,
    pub broadcast_start: Option<String>,
    pub official_site: Option<String>,
    pub bangumi_link: Option<String>,
    pub cover_url: Option<String>,
    pub summary: Option<String>,
}

/// A subtitle group of a bangumi with its episodes.
#[derive(Debug, Clone)]
pub struct SubtitleGroup {
    pub name: String,
    pub subgroup_id: Option<u32>,
    pub subscription_url: Option<String>,
    pub episodes: Vec<Episode>,
}

/// A subscription: one subtitle group of one bangumi.
#[derive(Debug, Clone)]
pub struct Subscription {
    pub bangumi_id: u32,
    pub subgroup_id: u32,
    pub bangumi_name: String,
    pub group_name: String,
    pub cover_url: Option<String>,
}

/// One released episode of a subtitle group.
#[derive(Debug, Clone)]
pub struct Episode {
    pub title: String,
    pub magnet_link: Option<String>,
    pub size: Option<String>,
    pub publish_date: Option<String>,
}

/// One episode row of the search page.
#[derive(Debug, Clone)]
pub struct SearchEpisode {
    pub title: String,
    pub magnet: String,
    pub size: String,
    pub date: String,
}

/// What the search page lists: bangumi cards and episode rows.
#[derive(Debug, Clone)]
pub struct SearchResults {
    pub items: Vec<BangumiItem>,
    pub episodes: Vec<SearchEpisode>,
}

// ───────────────────────── views ─────────────────────────

pub struct BangumiMetaView {
    pub broadcast_day: Option<Seq<char>>,
    pub broadcast_start: Option<Seq<char>>,
    pub official_site: Option<Seq<char>>,
    pub bangumi_link: Option<Seq<char>>,
    pub cover_url: Option<Seq<char>>,
    pub summary: Option<Seq<char>>,
}

pub struct EpisodeView {
    pub title: Seq<char>,
    pub magnet_link: Option<Seq<char>>,
    pub size: Option<Seq<char>>,
    pub publish_date: Option<Seq<char>>,
}

pub struct SubtitleGroupView {
    pub name: Seq<char>,
    pub subgroup_id: Option<u32>,
    pub subscription_url: Option<Seq<char>>,
    pub episodes: Seq<EpisodeView>,
}

pub struct BangumiItemView {
    pub name: Seq<char>,
    pub bangumi_id: Option<u32>,
    pub cover_url: Option<Seq<char>>,
    pub detail_url: Option<Seq<char>>,
    pub meta: Option<BangumiMetaView>,
    pub subtitle_groups: Seq<SubtitleGroupView>,
    pub update_date: Option<Seq<char>>,
}

pub struct BangumiGroupView {
    pub day: Seq<char>,
    pub title: Seq<char>,
    pub items: Seq<BangumiItemView>,
}

pub struct SubscriptionView {
    pub bangumi_id: u32,
    pub subgroup_id: u32,
    pub bangumi_name: Seq<char>,
    pub group_name: Seq<char>,
    pub cover_url: Option<Seq<char>>,
}

pub struct SearchEpisodeView {
    pub title: Seq<char>,
    pub magnet: Seq<char>,
    pub size: Seq<char>,
    pub date: Seq<char>,
}

pub struct SearchResultsView {
    pub items: Seq<BangumiItemView>,
    pub episodes: Seq<SearchEpisodeView>,
}

impl DeepView for BangumiMeta {
    type V = BangumiMetaView;

    open spec fn deep_view(&self) -> BangumiMetaView {
        BangumiMetaView {
            broadcast_day: self.broadcast_day.deep_view(),
            broadcast_start: self.broadcast_start.deep_view(),
            official_site: self.official_site.deep_view(),
            bangumi_link: self.bangumi_link.deep_view(),
            cover_url: self.cover_url.deep_view(),
            summary: self.summary.deep_view(),
        }
    }
}

impl DeepView for Episode {
    type V = EpisodeView;

    open spec fn deep_view(&self) -> EpisodeView {
        EpisodeView {
            title: self.title@,
            magnet_link: self.magnet_link.deep_view(),
            size: self.size.deep_view(),
            publish_date: self.publish_date.deep_view(),
        }
    }
}

impl DeepView for SubtitleGroup {
    type V = SubtitleGroupView;

    open spec fn deep_view(&self) -> SubtitleGroupView {
        SubtitleGroupView {
            name: self.name@,
            subgroup_id: self.subgroup_id,
            subscription_url: self.subscription_url.deep_view(),
            episodes: self.episodes.deep_view(),
        }
    }
}

impl DeepView for BangumiItem {
    type V = BangumiItemView;

    open spec fn deep_view(&self) -> BangumiItemView {
        BangumiItemView {
            name: self.name@,
            bangumi_id: self.bangumi_id,
            cover_url: self.cover_url.deep_view(),
            detail_url: self.detail_url.deep_view(),
            meta: self.meta.deep_view(),
            subtitle_groups: self.subtitle_groups.deep_view(),
            update_date: self.update_date.deep_view(),
        }
    }
}

impl DeepView for BangumiGroup {
    type V = BangumiGroupView;

    open spec fn deep_view(&self) -> BangumiGroupView {
        BangumiGroupView { day: self.day@, title: self.title@, items: self.items.deep_view() }
    }
}

impl DeepView for Subscription {
    type V = SubscriptionView;

    open spec fn deep_view(&self) -> SubscriptionView {
        SubscriptionView {
            bangumi_id: self.bangumi_id,
            subgroup_id: self.subgroup_id,
            bangumi_name: self.bangumi_name@,
            group_name: self.group_name@,
            cover_url: self.cover_url.deep_view(),
        }
    }
}

impl DeepView for SearchEpisode {
    type V = SearchEpisodeView;

    open spec fn deep_view(&self) -> SearchEpisodeView {
        SearchEpisodeView {
            title: self.title@,
            magnet: self.magnet@,
            size: self.size@,
            date: self.date@,
        }
    }
}

impl DeepView for SearchResults {
    type V = SearchResultsView;

    open spec fn deep_view(&self) -> SearchResultsView {
        SearchResultsView { items: self.items.deep_view(), episodes: self.episodes.deep_view() }
    }
}

// ───────────────────────── defaults ─────────────────────────

impl Default for BangumiMeta {
    fn default() -> (r: Self)
        ensures
            r.deep_view() == (BangumiMetaView {
                broadcast_day: None,
                broadcast_start: None,
                official_site: None,
                bangumi_link: None,
                cover_url: None,
                summary: None,
            }),
    {
        BangumiMeta {
            broadcast_day: None,
            broadcast_start: None,
            official_site: None,
            bangumi_link: None,
            cover_url: None,
            summary: None,
        }
    }
}

impl Default for BangumiItem {
    fn default() -> (r: Self)
        ensures
            r.deep_view() == (BangumiItemView {
                name: Seq::empty(),
                bangumi_id: None,
                cover_url: None,
                detail_url: None,
                meta: None,
                subtitle_groups: Seq::empty(),
                update_date: None,
            }),
    {
        let r = BangumiItem {
            name: String::new(),
            bangumi_id: None,
            cover_url: None,
            detail_url: None,
            meta: None,
            subtitle_groups: Vec::new(),
            update_date: None,
        };
        assert(r.subtitle_groups.deep_view() =~= Seq::<SubtitleGroupView>::empty());
        r
    }
}

impl Default for SearchEpisode {
    fn default() -> (r: Self)
        ensures
            r.deep_view() == (SearchEpisodeView {
                title: Seq::empty(),
                magnet: Seq::empty(),
                size: Seq::empty(),
                date: Seq::empty(),
            }),
    {
        SearchEpisode {
            title: String::new(),
            magnet: String::new(),
            size: String::new(),
            date: String::new(),
        }
    }
}

impl Default for SearchResults {
    fn default() -> (r: Self)
        ensures
            r.deep_view() == (SearchResultsView { items: Seq::empty(), episodes: Seq::empty() }),
    {
        let r = SearchResults { items: Vec::new(), episodes: Vec::new() };
        assert(r.items.deep_view() =~= Seq::<BangumiItemView>::empty());
        assert(r.episodes.deep_view() =~= Seq::<SearchEpisodeView>::empty());
        r
    }
}

// ───────────────────────── copies ─────────────────────────

/// A copy of an optional text.
pub fn copy_opt_string(v: &Option<String>) -> (res: Option<String>)
    ensures
        res.deep_view() == v.deep_view(),
{
    match v {
        Some(s) => Some(s.clone()),
        None => None,
    }
}

/// A copy of an episode.
pub fn copy_episode(e: &Episode) -> (res: Episode)
    ensures
        res.deep_view() == e.deep_view(),
{
    Episode {
        title: e.title.clone(),
        magnet_link: copy_opt_string(&e.magnet_link),
        size: copy_opt_string(&e.size),
        publish_date: copy_opt_string(&e.publish_date),
    }
}

/// A copy of a subtitle group with its episodes.
pub fn copy_subtitle_group(g: &SubtitleGroup) -> (res: SubtitleGroup)
    ensures
        res.deep_view() == g.deep_view(),
{
    let mut eps: Vec<Episode> = Vec::new();
    let mut i: usize = 0;
    while i < g.episodes.len()
        invariant
            i <= g.episodes.len(),
            eps.deep_view() == g.episodes.deep_view().take(i as int),
        decreases g.episodes.len() - i,
    {
        let ghost before = eps.deep_view();
        let e = copy_episode(&g.episodes[i]);
        let ghost ev = e.deep_view();
        eps.push(e);
        assert(eps.deep_view() =~= before.push(ev));
        assert(g.episodes.deep_view().take(i + 1) =~= g.episodes.deep_view().take(i as int).push(ev));
        i = i + 1;
    }
    assert(g.episodes.deep_view().take(g.episodes.len() as int) =~= g.episodes.deep_view());
    SubtitleGroup {
        name: g.name.clone(),
        subgroup_id: g.subgroup_id,
        subscription_url: copy_opt_string(&g.subscription_url),
        episodes: eps,
    }
}

/// A copy of the metadata of a bangumi.
pub fn copy_meta(m: &BangumiMeta) -> (res: BangumiMeta)
    ensures
        res.deep_view() == m.deep_view(),
{
    BangumiMeta {
        broadcast_day: copy_opt_string(&m.broadcast_day),
        broadcast_start: copy_opt_string(&m.broadcast_start),
        official_site: copy_opt_string(&m.official_site),
        bangumi_link: copy_opt_string(&m.bangumi_link),
        cover_url: copy_opt_string(&m.cover_url),
        summary: copy_opt_string(&m.summary),
    }
}

/// A copy of a bangumi with everything it holds.
pub fn copy_item(it: &BangumiItem) -> (res: BangumiItem)
    ensures
        res.deep_view() == it.deep_view(),
{
    let mut gs: Vec<SubtitleGroup> = Vec::new();
    let mut i: usize = 0;
    while i < it.subtitle_groups.len()
        invariant
            i <= it.subtitle_groups.len(),
            gs.deep_view() == it.subtitle_groups.deep_view().take(i as int),
        decreases it.subtitle_groups.len() - i,
    {
        let ghost before = gs.deep_view();
        let g = copy_subtitle_group(&it.subtitle_groups[i]);
        let ghost gv = g.deep_view();
        gs.push(g);
        assert(gs.deep_view() =~= before.push(gv));
        assert(it.subtitle_groups.deep_view().take(i + 1) =~= it.subtitle_groups.deep_view().take(i as int).push(gv));
        i = i + 1;
    }
    assert(it.subtitle_groups.deep_view().take(it.subtitle_groups.len() as int) =~= it.subtitle_groups.deep_view());
    BangumiItem {
        name: it.name.clone(),
        bangumi_id: it.bangumi_id,
        cover_url: copy_opt_string(&it.cover_url),
        detail_url: copy_opt_string(&it.detail_url),
        meta: match &it.meta {
            Some(m) => Some(copy_meta(m)),
            None => None,
        },
        subtitle_groups: gs,
        update_date: copy_opt_string(&it.update_date),
    }
}

/// A copy of a subscription.
pub fn copy_subscription(s: &Subscription) -> (res: Subscription)
    ensures
        res.deep_view() == s.deep_view(),
{
    Subscription {
        bangumi_id: s.bangumi_id,
        subgroup_id: s.subgroup_id,
        bangumi_name: s.bangumi_name.clone(),
        group_name: s.group_name.clone(),
        cover_url: copy_opt_string(&s.cover_url),
    }
}

} // verus!
