use mikanplus::assoc::AssocMap;
use mikanplus::display::{
    cover_url, day_key, format_broadcast_start, group_by_day, home_sections, BangumiFormat, HomeSection,
};
use mikanplus::navigation::HomeFilter;
use mikanplus::download::{DownloadCmd, DownloadEvent};
use mikanplus::library::{
    detail_base_item, detail_name_by_bid, find_list_item, find_list_item_by_id, finish_unsubscribe,
    is_pair_subscribed, on_download_event, start_unsubscribe, take_detail_name,
    toggle_subscription, BoundedCache, KeywordMap, Toggle, UnsubscribeOutcome,
};
use mikanplus::model::{BangumiGroup, BangumiItem, SearchResults, Subscription};

fn item(name: &str, id: u32, cover: Option<&str>) -> BangumiItem {
    let mut it = BangumiItem::default();
    it.name = name.to_string();
    it.bangumi_id = Some(id);
    it.cover_url = cover.map(|c| c.to_string());
    it
}

fn group(day: &str, items: Vec<BangumiItem>) -> BangumiGroup {
    BangumiGroup { day: day.to_string(), title: day.to_string(), items }
}

fn sub(bid: u32, gid: u32, name: &str) -> Subscription {
    Subscription {
        bangumi_id: bid,
        subgroup_id: gid,
        bangumi_name: name.to_string(),
        group_name: "组".to_string(),
        cover_url: None,
    }
}

#[test]
fn bounded_cache_forgets_oldest() {
    let mut c: BoundedCache<u32> = BoundedCache::new(2);
    c.insert("a".to_string(), 1);
    c.insert("b".to_string(), 2);
    c.insert("a".to_string(), 10);
    assert_eq!(c.len(), 2);
    assert_eq!(c.get("a"), Some(&10));
    c.insert("c".to_string(), 3);
    assert_eq!(c.len(), 2);
    assert!(!c.contains_key("a"));
    assert_eq!(c.get("b"), Some(&2));
    assert_eq!(c.get("c"), Some(&3));
    let keys: Vec<&str> = c.entries().iter().map(|(k, _)| k.as_str()).collect();
    assert_eq!(keys, vec!["b", "c"]);
}

#[test]
fn list_lookup_prefers_the_weekly_list() {
    let groups = vec![
        group("monday", vec![item("甲", 1, Some("list-cover"))]),
        group("tuesday", vec![item("乙", 2, None)]),
    ];
    let mut searches: BoundedCache<SearchResults> = BoundedCache::new(4);
    let mut r = SearchResults::default();
    r.items.push(item("甲", 9, Some("search-cover")));
    r.items.push(item("丙", 3, Some("c3")));
    searches.insert("q".to_string(), r);
    assert_eq!(find_list_item(&groups, &searches, "甲").unwrap().bangumi_id, Some(1));
    assert_eq!(find_list_item(&groups, &searches, "丙").unwrap().bangumi_id, Some(3));
    assert!(find_list_item(&groups, &searches, "丁").is_none());
    assert_eq!(find_list_item_by_id(&groups, 2).unwrap().name, "乙");
    assert!(find_list_item_by_id(&groups, 3).is_none());
}

#[test]
fn subscribe_toggle_and_unsubscribe() {
    let groups = vec![group("monday", vec![item("甲", 1, Some("list-cover"))])];
    let mut searches: BoundedCache<SearchResults> = BoundedCache::new(4);
    let mut r = SearchResults::default();
    r.items.push(item("丙", 3, Some("c3")));
    searches.insert("q".to_string(), r);
    let mut subs: Vec<Subscription> = Vec::new();
    let t = toggle_subscription(&mut subs, &groups, &searches, 1, 7, Some("甲"), Some("LoliHouse"));
    assert_eq!(t, Toggle::Subscribed);
    assert_eq!(subs.len(), 1);
    assert_eq!(subs[0].cover_url.as_deref(), Some("list-cover"));
    assert_eq!(subs[0].group_name, "LoliHouse");
    // the cover of a bangumi found only among searches, by id
    toggle_subscription(&mut subs, &groups, &searches, 3, 8, Some("别名"), None);
    assert_eq!(subs[1].cover_url.as_deref(), Some("c3"));
    assert_eq!(subs[1].group_name, "未知");
    toggle_subscription(&mut subs, &groups, &searches, 4, 8, None, None);
    assert_eq!(subs[2].bangumi_name, "未知");
    assert_eq!(subs[2].cover_url, None);
    assert!(is_pair_subscribed(&subs, 1, 7));
    // a subscribed pair is left to the clean-up
    let again = toggle_subscription(&mut subs, &groups, &searches, 1, 7, Some("甲"), None);
    assert_eq!(again, Toggle::StartUnsubscribe);
    assert_eq!(subs.len(), 3);
    let mut kw = KeywordMap::new();
    kw.insert(1, 7, "简日".to_string());
    kw.insert(3, 8, "1080".to_string());
    finish_unsubscribe(&mut subs, &mut kw, 1, 7);
    assert!(!is_pair_subscribed(&subs, 1, 7));
    assert_eq!(subs.len(), 2);
    assert!(kw.get(1, 7).is_none());
    assert_eq!(kw.get(3, 8).as_deref(), Some("1080"));
}

#[test]
fn detail_names_and_bases() {
    let groups = vec![group("monday", vec![item("甲", 1, None)])];
    let searches: BoundedCache<SearchResults> = BoundedCache::new(4);
    let subs = vec![sub(5, 1, "旧番")];
    let mut details: BoundedCache<BangumiItem> = BoundedCache::new(4);
    details.insert("详情名".to_string(), item("详情名", 2, None));
    let mut names: AssocMap<u32, String> = AssocMap::new();
    names.insert(6, "加载中".to_string());
    assert_eq!(detail_name_by_bid(&details, &names, &groups, &subs, 2).as_deref(), Some("详情名"));
    assert_eq!(detail_name_by_bid(&details, &names, &groups, &subs, 6).as_deref(), Some("加载中"));
    assert_eq!(detail_name_by_bid(&details, &names, &groups, &subs, 1).as_deref(), Some("甲"));
    assert_eq!(detail_name_by_bid(&details, &names, &groups, &subs, 5).as_deref(), Some("旧番"));
    assert_eq!(detail_name_by_bid(&details, &names, &groups, &subs, 9), None);
    // a bangumi no longer listed is reached through its subscription
    let base = detail_base_item(&groups, &searches, &subs, "旧番").unwrap();
    assert_eq!(base.bangumi_id, Some(5));
    assert!(base.subtitle_groups.is_empty());
    assert_eq!(detail_base_item(&groups, &searches, &subs, "甲").unwrap().bangumi_id, Some(1));
    assert!(detail_base_item(&groups, &searches, &subs, "无").is_none());
    // the noted name is consumed
    assert_eq!(take_detail_name(&mut names, &groups, &searches, 6).as_deref(), Some("加载中"));
    assert_eq!(take_detail_name(&mut names, &groups, &searches, 6), None);
    assert_eq!(take_detail_name(&mut names, &groups, &searches, 1).as_deref(), Some("甲"));
}

#[test]
fn filter_keyword_input() {
    let mut kw = KeywordMap::new();
    kw.apply_input(1, 2, "  简日  ");
    assert_eq!(kw.get(1, 2).as_deref(), Some("简日"));
    kw.apply_input(1, 2, " \t ");
    assert!(kw.get(1, 2).is_none());
    assert_eq!(kw.len(), 0);
}

#[test]
fn display_helpers() {
    assert_eq!(format_broadcast_start("2/1/2026"), "2026年2月1日");
    assert_eq!(format_broadcast_start("13/1/2026"), "13/1/2026");
    assert_eq!(
        cover_url("https://x/a.jpg?width=400&height=400&v=1"),
        "https://x/a.jpg?v=1&width=400&height=560"
    );
    let groups = vec![group("monday", vec![]), group("movie", vec![])];
    assert_eq!(group_by_day(&groups, "movie").unwrap().day, "movie");
    assert!(group_by_day(&groups, "sunday").is_none());
    assert_eq!(BangumiFormat::Movie.label(), "剧场版");
    assert_eq!(BangumiFormat::Tv.label(), "TV");
}

#[test]
fn unsubscribe_waits_for_its_folder() {
    let subs = vec![sub(1, 7, "碧蓝之海"), sub(2, 8, "别的")];
    assert!(start_unsubscribe(&subs, "/v", 3, 3).is_none());
    let (p, cmd) = start_unsubscribe(&subs, "/v", 1, 7).unwrap();
    match &cmd {
        DownloadCmd::CleanupDir { dir, bangumi_name, group_name } => {
            assert_eq!(dir, "/v/碧蓝之海 - 组");
            assert_eq!(bangumi_name, "碧蓝之海");
            assert_eq!(group_name, "组");
        }
        other => panic!("unexpected command {:?}", other),
    }
    let mut pending = Some(p);
    // an answer about another folder changes nothing
    let other = DownloadEvent::UnsubscribeDone { dir: "/v/别的 - 组".to_string() };
    assert!(matches!(on_download_event(&mut pending, "/v", &other), UnsubscribeOutcome::Ignored));
    assert!(pending.is_some());
    let failed = DownloadEvent::AddFailed { title: "t".to_string(), error: "e".to_string() };
    assert!(matches!(on_download_event(&mut pending, "/v", &failed), UnsubscribeOutcome::Ignored));
    // a refusal about its folder drops it with a warning
    let blocked = DownloadEvent::UnsubscribeBlocked {
        dir: "/v/碧蓝之海 - 组".to_string(),
        titles: vec!["第 1 话".to_string()],
    };
    match on_download_event(&mut pending, "/v", &blocked) {
        UnsubscribeOutcome::Blocked { bangumi_name, group_name, titles } => {
            assert_eq!(bangumi_name, "碧蓝之海");
            assert_eq!(group_name, "组");
            assert_eq!(titles, vec!["第 1 话".to_string()]);
        }
        other => panic!("unexpected outcome {:?}", other),
    }
    assert!(pending.is_none());
    assert!(matches!(on_download_event(&mut pending, "/v", &blocked), UnsubscribeOutcome::Ignored));
    // a finished clean-up concludes it
    let (p, _) = start_unsubscribe(&subs, "/v/", 2, 8).unwrap();
    let mut pending = Some(p);
    let done = DownloadEvent::UnsubscribeDone { dir: "/v/别的 - 组".to_string() };
    assert!(matches!(
        on_download_event(&mut pending, "/v/", &done),
        UnsubscribeOutcome::Done { bangumi_id: 2, subgroup_id: 8 }
    ));
    assert!(pending.is_none());
}

#[test]
fn home_page_sections() {
    let today = home_sections(HomeFilter::Today, 2);
    assert_eq!(today.len(), 8);
    assert_eq!(today[0], HomeSection::Day { day: 2, featured: true });
    assert_eq!(today[1], HomeSection::Day { day: 0, featured: false });
    assert_eq!(today[2], HomeSection::Day { day: 1, featured: false });
    assert_eq!(today[3], HomeSection::Day { day: 3, featured: false });
    assert_eq!(today[6], HomeSection::Day { day: 6, featured: false });
    assert_eq!(today[7], HomeSection::Movies);
    assert_eq!(home_sections(HomeFilter::Weekday(4), 0), vec![HomeSection::Day { day: 4, featured: false }]);
    assert_eq!(home_sections(HomeFilter::Movies, 6), vec![HomeSection::Movies]);
    assert_eq!(day_key(0), "monday");
    assert_eq!(day_key(6), "sunday");
}
