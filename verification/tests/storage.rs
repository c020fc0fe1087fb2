use mikanplus::cache::{
    age_order, detail_cache_key, image_key, is_fresh, json_file_name, search_cache_key, url_hash,
    Eviction, IMAGE_CACHE_TARGET,
};
use mikanplus::paths::{open_url, sanitize_file_name, subgroup_download_dir};

#[test]
fn image_key_is_host_independent() {
    // the same path under the two site domains shares one key
    assert_eq!(
        image_key("https://mikanani.me/images/a.jpg?width=400&height=560"),
        image_key("https://mikanime.tv/images/a.jpg?width=400&height=560"),
    );
    assert_eq!(
        image_key("https://mikanani.me/images/a.jpg"),
        image_key("https://mikanime.tv/images/a.jpg"),
    );
    // the query changes what the server returns (size), so it counts
    assert_ne!(
        image_key("https://mikanani.me/images/a.jpg?width=400&height=400"),
        image_key("https://mikanani.me/images/a.jpg?width=400&height=560"),
    );
    // different paths differ
    assert_ne!(
        image_key("https://mikanani.me/images/a.jpg"),
        image_key("https://mikanani.me/images/b.jpg"),
    );
    // relative and host-less URLs are hashed as they are
    assert_eq!(image_key("/images/a.jpg"), image_key("/images/a.jpg"));
}

#[test]
fn hash_stable_and_distinct() {
    let a = url_hash("https://x/1.jpg");
    let b = url_hash("https://x/1.jpg");
    let c = url_hash("https://x/2.jpg");
    assert_eq!(a, b);
    assert_ne!(a, c);
    assert_eq!(a.len(), 64);
}

#[test]
fn url_hash_known_value() {
    assert_eq!(url_hash("abc"), "ba7816bf8f01cfea414140de5dae2223b00361a396177a9cb410ff61f20015ad");
    // the resource part of an image URL is what is hashed
    assert_eq!(image_key("https://h/images/a.jpg"), url_hash("/images/a.jpg"));
    assert_eq!(image_key("http://h"), url_hash("http://h"));
}

#[test]
fn cache_keys() {
    assert_eq!(detail_cache_key(3883), "detail/3883");
    assert_ne!(detail_cache_key(1), detail_cache_key(10));
    assert_eq!(detail_cache_key(0), "detail/0");
    assert_eq!(search_cache_key("q"), format!("search/{}", url_hash("q")));
    assert_eq!(json_file_name("list"), "list.json");
    assert!(is_fresh(Some(5), 10));
    assert!(!is_fresh(Some(10), 10));
    assert!(!is_fresh(None, 10));
}

#[test]
fn eviction_removes_oldest_until_target() {
    let mib = 1024 * 1024u64;
    let stamps = vec![30, 10, 20, 10];
    let sizes = vec![200 * mib, 200 * mib, 100 * mib, 100 * mib];
    let order = age_order(&stamps);
    assert_eq!(order, vec![1, 3, 2, 0]);
    let mut e = Eviction::start(&stamps, sizes).expect("over the cap");
    let mut removed = vec![];
    while let Some(k) = e.next_victim() {
        // the first removal fails: nothing is freed and the next file is tried
        let ok = !removed.is_empty() || k != 1;
        removed.push(k);
        e.record(ok);
    }
    assert_eq!(removed, vec![1, 3, 2]);
    assert_eq!(e.freed(), (200 * mib) as u128);
    assert!(600 * mib - e.freed() as u64 <= IMAGE_CACHE_TARGET);
    assert!(Eviction::start(&vec![1], vec![mib]).is_none());
}

#[test]
fn sanitize_rules() {
    assert_eq!(sanitize_file_name("a/b:c"), "a b c");
    assert_eq!(sanitize_file_name("  ..名 字..  "), "名 字");
    assert_eq!(sanitize_file_name("a \t\n b"), "a b");
    assert_eq!(sanitize_file_name("..."), "未命名");
    assert_eq!(sanitize_file_name(""), "未命名");
    assert_eq!(sanitize_file_name("x|y?*\"<>\\"), "x y");
    for name in ["a/b:c", "  ..名 字..  ", ". a .", "...", "", "x\u{3000}y", "a . b"] {
        let once = sanitize_file_name(name);
        assert_eq!(sanitize_file_name(&once), once, "{name:?}");
    }
}

#[test]
fn subgroup_dir() {
    assert_eq!(subgroup_download_dir("/home/u/Videos", "番/剧", "组:A"), "/home/u/Videos/番 剧 - 组 A");
    assert_eq!(subgroup_download_dir("/v/", "a", "b"), "/v/a - b");
    assert_eq!(subgroup_download_dir("", "", ""), "未命名 - 未命名");
}

#[test]
fn open_url_only_http() {
    assert_eq!(open_url("  HTTPS://bgm.tv/x "), Ok("HTTPS://bgm.tv/x".to_string()));
    assert_eq!(open_url("http://a"), Ok("http://a".to_string()));
    assert_eq!(open_url("file:///etc"), Err("仅支持 HTTP(S) URL".to_string()));
    assert_eq!(open_url("javascript:1"), Err("仅支持 HTTP(S) URL".to_string()));
}
