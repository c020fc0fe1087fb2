use mikanplus::error::SourceError;
use mikanplus::navigation::{
    page_scroll_key, page_title, weekday_name, weekday_short, HomeFilter, Navigator, Page, TopSection,
};

#[test]
fn sections_and_labels() {
    assert_eq!(TopSection::from_page(&Page::Home(HomeFilter::Today)), Some(TopSection::Home));
    assert_eq!(TopSection::from_page(&Page::Settings), Some(TopSection::Settings));
    assert_eq!(TopSection::from_page(&Page::SearchResult("x".to_string())), None);
    assert_eq!(TopSection::Subscription.label(), "我的订阅");
    assert_eq!(TopSection::all().len(), 3);
    assert_eq!(HomeFilter::Weekday(0).label(), "星期一");
    assert_eq!(HomeFilter::Weekday(6).label(), "星期日");
    assert_eq!(HomeFilter::Weekday(9).label(), "星期");
    assert_eq!(HomeFilter::Movies.label(), "剧场版");
    assert_eq!(weekday_name(7), None);
    assert_eq!(weekday_short(0), Some("周一"));
    assert_eq!(weekday_short(6), Some("周日"));
    assert_eq!(weekday_short(7), None);
}

#[test]
fn titles_and_scroll_keys() {
    assert_eq!(page_title(&Page::SearchResult("碧蓝".to_string())), "搜索「碧蓝」");
    assert_eq!(page_title(&Page::Home(HomeFilter::Today)), "今日更新");
    assert_eq!(page_title(&Page::SubGroupDetail(1, 2)), "字幕组");
    assert_eq!(page_scroll_key(&Page::Home(HomeFilter::Weekday(3))), "home:Weekday(3)");
    assert_eq!(
        page_scroll_key(&Page::Home(HomeFilter::Weekday(3))),
        format!("home:{:?}", HomeFilter::Weekday(3))
    );
    assert_eq!(page_scroll_key(&Page::Home(HomeFilter::Today)), "home:Today");
    assert_eq!(page_scroll_key(&Page::SubGroupDetail(3883, 370)), "subgroup:3883:370");
    assert_eq!(page_scroll_key(&Page::BangumiDetail("名".to_string())), "detail:名");
}

#[test]
fn back_returns_to_previous_page() {
    let mut nav = Navigator::new(Page::Home(HomeFilter::Today));
    nav.navigate_to(Page::Settings);
    nav.navigate_to(Page::Settings);
    assert_eq!(nav.history_len(), 1);
    assert!(nav.go_back());
    assert!(matches!(nav.current(), Page::Home(HomeFilter::Today)));
    assert!(!nav.go_back());
}

#[test]
fn history_is_bounded() {
    let mut nav = Navigator::new(Page::Settings);
    for i in 0..150u32 {
        nav.navigate_to(Page::SubGroupDetail(i, i));
    }
    assert_eq!(nav.history_len(), 100);
}

#[test]
fn error_texts() {
    assert_eq!(SourceError::Server(503).user_message(), "源站返回了错误");
    assert_eq!(SourceError::ImageTooLarge.user_hint(), "");
    assert_eq!(SourceError::Throttled.user_message(), "请求过于频繁");
    assert_eq!(SourceError::Network.user_hint(), "请检查网络连接或代理设置");
    assert_eq!(SourceError::Server(503).error_text(), "服务器返回错误状态码 503");
    assert_eq!(SourceError::Decode.error_text(), "响应内容解码失败");
    assert_eq!(SourceError::Cache.error_text(), "写入本地缓存失败");
}
