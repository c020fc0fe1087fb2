use mikanplus::parser::{
    list_item_from_parts, mikan_day_key, parse_bangumi_detail, parse_bangumi_list,
    parse_search_results, search_item_from_parts, summary_from_text,
};

fn s(x: &str) -> Option<String> {
    Some(x.to_string())
}

#[test]
fn day_mapping() {
    // Mikan 0 = Sunday → app key "sunday"
    assert_eq!(mikan_day_key("0"), Some("sunday"));
    assert_eq!(mikan_day_key("1"), Some("monday"));
    assert_eq!(mikan_day_key("6"), Some("saturday"));
    assert_eq!(mikan_day_key("7"), Some("movie"));
    assert_eq!(mikan_day_key("x"), None);
}

#[test]
fn parse_minimal_list() {
    let html = r#"
        <div class="sk-bangumi" data-dayofweek="1">
          <div class="row">星期一</div>
          <ul class="list-inline an-ul">
            <li>
              <span class="js-expand_bangumi b-lazy" data-src="/images/Bangumi/202602/abc.jpg?width=400&height=400&format=webp" data-bangumiid="3883" data-bangumiindex="1"></span>
              <div class="an-info"><div class="an-info-group">
                <div class="date-text">2026/08/09 更新</div>
                <a href="/Home/Bangumi/3883" target="_blank" class="an-text" title="测试番剧">测试番剧</a>
              </div></div>
            </li>
          </ul>
        </div>"#;
    let groups = parse_bangumi_list(html);
    assert_eq!(groups.len(), 1);
    assert_eq!(groups[0].day, "monday");
    assert_eq!(groups[0].title, "星期一");
    assert_eq!(groups[0].items.len(), 1);
    let item = &groups[0].items[0];
    assert_eq!(item.name, "测试番剧");
    assert_eq!(item.bangumi_id, Some(3883));
    assert!(item
        .cover_url
        .as_deref()
        .unwrap()
        .contains("/images/Bangumi/202602/abc.jpg"));
}

#[test]
fn parse_minimal_detail() {
    let html = r#"
        <p class="bangumi-info">放送日期：星期日</p>
        <p class="bangumi-info">放送开始：2/1/2026</p>
        <p class="bangumi-info">官方网站：<a class="w-other-c" href="https://example.com/site">site</a></p>
        <p class="bangumi-info">Bangumi番组计划链接：<a class="w-other-c" href="https://bgm.tv/subject/123">bgm</a></p>
        <div class="bangumi-intro">这是一个测试简介</div>
        <div class="subgroup-text" id="370">
          <a href="/Home/PublishGroup/223">LoliHouse</a>
          <a href="/RSS/Bangumi?bangumiId=3883&subgroupid=370" class="mikan-rss"></a>
        </div>
        <div class="episode-table">
          <table class="table table-striped">
            <tbody>
              <tr>
                <td><input class="js-episode-select" data-magnet="magnet:?xt=urn:btih:abc123" /></td>
                <td><a class="magnet-link-wrap" href="/Home/Episode/x">[LoliHouse] 测试 - 01</a></td>
                <td>997.4MB</td>
                <td>2026/08/09 19:06</td>
              </tr>
            </tbody>
          </table>
        </div>"#;
    let (meta, groups) = parse_bangumi_detail(html);
    assert_eq!(meta.broadcast_day.as_deref(), Some("星期日"));
    assert_eq!(meta.broadcast_start.as_deref(), Some("2/1/2026"));
    assert_eq!(meta.official_site.as_deref(), Some("https://example.com/site"));
    assert_eq!(meta.bangumi_link.as_deref(), Some("https://bgm.tv/subject/123"));
    assert_eq!(meta.summary.as_deref(), Some("这是一个测试简介"));
    assert_eq!(groups.len(), 1);
    assert_eq!(groups[0].name, "LoliHouse");
    assert_eq!(groups[0].subgroup_id, Some(370));
    assert_eq!(groups[0].episodes.len(), 1);
    let ep = &groups[0].episodes[0];
    assert_eq!(ep.title, "[LoliHouse] 测试 - 01");
    assert!(ep.magnet_link.as_deref().unwrap().starts_with("magnet:"));
    assert_eq!(ep.size.as_deref(), Some("997.4MB"));
    assert_eq!(ep.publish_date.as_deref(), Some("2026/08/09 19:06"));
}

#[test]
fn stray_tables_do_not_misalign_groups() {
    // unrelated tables and a numbered ghost div must neither shift the
    // pairing nor make a phantom group
    let html = r#"
        <div id="999">无关的锚点 div</div>
        <table class="table-striped"><tbody><tr>
          <td><a class="magnet-link-wrap">无关表格的行</a></td>
        </tr></tbody></table>
        <div class="subgroup-text" id="370">
          <a href="/Home/PublishGroup/223">LoliHouse</a>
          <a href="/RSS/Bangumi?bangumiId=3883&subgroupid=370" class="mikan-rss"></a>
        </div>
        <div class="episode-table">
          <table class="table-striped"><tbody><tr>
            <td><input class="js-episode-select" data-magnet="magnet:?xt=urn:btih:aaa" /></td>
            <td><a class="magnet-link-wrap">[LoliHouse] 真正的 - 01</a></td>
          </tr></tbody></table>
        </div>
        <div class="subgroup-text" id="371">
          <a href="/Home/PublishGroup/999">另一个组</a>
        </div>
        <div class="episode-table">
          <table class="table-striped"><tbody><tr>
            <td><input class="js-episode-select" data-magnet="magnet:?xt=urn:btih:bbb" /></td>
            <td><a class="magnet-link-wrap">[另一个组] 第 1 话</a></td>
          </tr></tbody></table>
        </div>"#;
    let (_, groups) = parse_bangumi_detail(html);
    assert_eq!(groups.len(), 2, "只应有 2 个真实字幕组");
    assert_eq!(groups[0].name, "LoliHouse");
    assert_eq!(groups[0].episodes.len(), 1);
    assert_eq!(groups[0].episodes[0].title, "[LoliHouse] 真正的 - 01");
    assert_eq!(groups[1].name, "另一个组");
    assert_eq!(groups[1].episodes[0].title, "[另一个组] 第 1 话");
}

#[test]
fn parse_search_page() {
    let html = r#"
        <ul>
            <li>
                <a href="/Home/Bangumi/4014" target="_blank">
                    <span data-src="/images/Bangumi/202607/79691e78.jpg?width=400&height=400&format=webp" class="b-lazy"></span>
                    <div class="an-info">
                        <div class="an-info-group">
                            <div class="an-text" title="碧蓝之海 第三季">碧蓝之海 第三季</div>
                        </div>
                    </div>
                </a>
            </li>
        </ul>
        <div class="episode-table">
            <table class="table table-striped">
                <tbody>
                    <tr class="js-search-results-row">
                        <td><input type="checkbox" class="js-episode-select" data-magnet="magnet:?xt=urn:btih:aaa111" /></td>
                        <td><a href="/Home/Episode/aaa111" class="magnet-link-wrap">[ANi] GRAND BLUE 碧蓝之海 3 - 06</a></td>
                        <td>342.8 MB</td>
                        <td>2026/08/20 12:00</td>
                    </tr>
                </tbody>
            </table>
        </div>"#;
    let results = parse_search_results(html);
    assert_eq!(results.items.len(), 1);
    let item = &results.items[0];
    assert_eq!(item.name, "碧蓝之海 第三季");
    assert_eq!(item.bangumi_id, Some(4014));
    // the square cover is asked for in portrait size
    assert!(item
        .cover_url
        .as_deref()
        .unwrap()
        .contains("width=400&height=560"));
    assert_eq!(results.episodes.len(), 1);
    let ep = &results.episodes[0];
    assert_eq!(ep.title, "[ANi] GRAND BLUE 碧蓝之海 3 - 06");
    assert!(ep.magnet.starts_with("magnet:"));
    assert_eq!(ep.size, "342.8 MB");
    assert_eq!(ep.date, "2026/08/20 12:00");
}

#[test]
fn list_item_rules() {
    let it = list_item_from_parts(s("+0042"), s("/i.jpg"), s("  名  "), s("  ")).unwrap();
    assert_eq!(it.bangumi_id, Some(42));
    assert_eq!(it.name, "名");
    assert_eq!(it.cover_url.as_deref(), Some("https://mikanani.me/i.jpg"));
    assert_eq!(it.detail_url.as_deref(), Some("https://mikanani.me/Home/Bangumi/42"));
    assert_eq!(it.update_date, None);
    assert!(list_item_from_parts(s("x1"), None, s("a"), None).is_none());
    assert!(list_item_from_parts(s("4294967296"), None, s("a"), None).is_none());
    assert!(list_item_from_parts(s("1"), None, s("   "), None).is_none());
    assert!(list_item_from_parts(None, None, s("a"), None).is_none());
}

#[test]
fn search_item_rules() {
    let it = search_item_from_parts(
        s("/Home/Bangumi/7"),
        s("/c.jpg?width=400&height=400&x=width=400&height=400"),
        s("n"),
    )
    .unwrap();
    assert_eq!(
        it.cover_url.as_deref(),
        Some("https://mikanani.me/c.jpg?width=400&height=560&x=width=400&height=560")
    );
    assert!(search_item_from_parts(s("/Home/Bangumi/x"), None, s("n")).is_none());
    assert!(search_item_from_parts(None, None, s("n")).is_none());
}

#[test]
fn summary_rules() {
    assert_eq!(summary_from_text(s("  概况介绍\n  正文 ")).as_deref(), Some("正文"));
    assert_eq!(summary_from_text(s("概况介绍  ")), None);
    assert_eq!(summary_from_text(s("简介")).as_deref(), Some("简介"));
    assert_eq!(summary_from_text(None), None);
}

#[test]
fn table_after_skipped_block_is_dropped() {
    let html = "<div class='subgroup-text' id='1'></div><div class='episode-table'><table class='table-striped'><tbody><tr><td><a class='magnet-link-wrap'>A</a></td></tr></tbody></table></div><div class='subgroup-text' id='x'></div><div class='episode-table'><table class='table-striped'><tbody><tr><td><a class='magnet-link-wrap'>B</a></td></tr></tbody></table></div>";
    let (_, groups) = parse_bangumi_detail(html);
    assert_eq!(groups.len(), 1);
    assert_eq!(groups[0].subgroup_id, Some(1));
    assert_eq!(groups[0].episodes.len(), 1);
    assert_eq!(groups[0].episodes[0].title, "A");
}
