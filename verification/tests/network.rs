use mikanplus::network::{
    check_image_size, search_url, site_url, ImageRegistry, ImgStatus, NetState, MAX_IMAGE_BYTES,
};

#[test]
fn site_url_join() {
    assert_eq!(site_url("/Home/Bangumi"), "https://mikanani.me/Home/Bangumi");
    assert_eq!(site_url("https://other.com/x"), "https://other.com/x", "绝对地址原样返回");
}

#[test]
fn site_url_scheme_relative_and_case() {
    assert_eq!(site_url("//cdn.example.com/a.jpg"), "https://cdn.example.com/a.jpg");
    assert_eq!(site_url("  HTTPS://X.org/y  "), "HTTPS://X.org/y");
    // any other link stays a path on the site
    assert_eq!(site_url("file:///etc/passwd"), "https://mikanani.me/file:///etc/passwd");
    assert_eq!(site_url("Home/x"), "https://mikanani.me/Home/x");
    assert_eq!(site_url(""), "https://mikanani.me/");
}

#[test]
fn image_claim_dedup() {
    let mut images = ImageRegistry::new();
    let url = "https://example.com/a.jpg";
    assert!(images.claim_image(url, 0), "首次认领成功");
    assert!(!images.claim_image(url, 0), "第二次认领被拒绝(去重)");
    images.finish_image(url, true, 0);
    assert_eq!(images.image_status(url), ImgStatus::Loaded);
    assert!(!images.claim_image(url, 0), "已加载不再重复下载");
}

#[test]
fn failed_image_retries_after_cooldown() {
    let mut images = ImageRegistry::new();
    let url = "https://example.com/b.jpg";
    assert_eq!(images.image_status(url), ImgStatus::Pending);
    assert!(images.claim_image(url, 1_000));
    images.finish_image(url, false, 1_000);
    assert_eq!(images.image_status(url), ImgStatus::Error);
    assert_eq!(images.image_version(), 1);
    assert!(!images.claim_image(url, 60_999));
    assert!(images.claim_image(url, 61_000));
    assert_eq!(images.image_status(url), ImgStatus::Loading);
}

#[test]
fn backoff_blocks_then_resets() {
    let mut net = NetState::new();
    // one failure: the page enters its backoff window
    net.note_failure("https://example.com/page", 0);
    assert!(net.in_backoff("https://example.com/page", 0), "失败后应处于退避期");
    // the user retries: the backoff is cleared and the request goes through
    net.reset_backoff("https://example.com/page");
    assert!(!net.in_backoff("https://example.com/page", 0), "重置后不再退避");
    // other URLs are not affected
    assert!(!net.in_backoff("https://example.com/other", 0));
}

#[test]
fn backoff_grows_with_streak_and_expires() {
    let mut net = NetState::new();
    net.note_failure("u", 0); // 30 s
    assert!(net.in_backoff("u", 29_999));
    assert!(!net.in_backoff("u", 30_000));
    net.note_failure("u", 0); // 60 s
    assert!(net.in_backoff("u", 59_999));
    assert!(!net.in_backoff("u", 60_000));
    net.note_failure("u", 0); // 120 s
    net.note_failure("u", 0); // 240 s
    net.note_failure("u", 0); // 480 s
    assert!(net.in_backoff("u", 479_999));
    assert!(!net.in_backoff("u", 480_000));
    net.note_failure("u", 0); // stays at 480 s
    assert!(!net.in_backoff("u", 480_000));
    net.note_success();
    net.note_failure("u", 0); // streak back to 1: 30 s
    assert!(!net.in_backoff("u", 30_000));
    // a window that would pass the end of the clock ends there
    net.note_failure("v", u64::MAX - 1);
    assert!(net.in_backoff("v", u64::MAX - 1));
}

#[test]
fn slots_throttle_and_bound_concurrency() {
    let mut net = NetState::new();
    assert!(net.try_acquire_slot(1_000));
    assert!(!net.try_acquire_slot(1_299), "minimum interval");
    assert!(net.try_acquire_slot(1_300));
    assert!(!net.try_acquire_slot(5_000), "two in flight at most");
    net.release_slot();
    assert!(net.try_acquire_slot(5_000));
}

#[test]
fn fetch_gate_and_completion() {
    let mut net = NetState::new();
    assert!(net.begin_fetch("p", 0).is_ok());
    assert!(net.try_acquire_slot(0));
    let r: Result<u8, String> = net.complete_fetch("p", Err("boom".to_string()), 0);
    assert_eq!(r, Err("boom".to_string()));
    assert_eq!(net.begin_fetch("p", 10), Err("请求过于频繁,请稍后重试".to_string()));
    assert!(net.begin_fetch("p", 29_999).is_err());
    assert!(net.begin_fetch("p", 30_000).is_ok());
}

#[test]
fn image_size_limit() {
    assert_eq!(check_image_size(vec![1, 2, 3]), Ok(vec![1, 2, 3]));
    assert_eq!(check_image_size(vec![0; MAX_IMAGE_BYTES]).map(|v| v.len()), Ok(MAX_IMAGE_BYTES));
    assert_eq!(check_image_size(vec![0; MAX_IMAGE_BYTES + 1]), Err("图片超过 10MB 上限".to_string()));
}

#[test]
fn search_url_percent_encodes_utf8() {
    assert_eq!(search_url("a b"), "https://mikanani.me/Home/Search?searchstr=a%20b");
    assert_eq!(search_url("碧蓝"), "https://mikanani.me/Home/Search?searchstr=%E7%A2%A7%E8%93%9D");
    assert_eq!(search_url("A-z_0.~"), "https://mikanani.me/Home/Search?searchstr=A-z_0.~");
}

#[test]
fn search_query_is_canonically_encoded() {
    let url = search_url("葬送的芙莉莲 S01 [1080p] a+b/c?&=%");
    let q = url.strip_prefix("https://mikanani.me/Home/Search?searchstr=").unwrap();
    let b = q.as_bytes();
    let mut i = 0;
    while i < b.len() {
        if b[i] == b'%' {
            assert!(b[i + 1].is_ascii_digit() || (b'A'..=b'F').contains(&b[i + 1]));
            assert!(b[i + 2].is_ascii_digit() || (b'A'..=b'F').contains(&b[i + 2]));
            i += 3;
        } else {
            assert!(b[i].is_ascii_alphanumeric() || b"-_.~".contains(&b[i]));
            i += 1;
        }
    }
    assert!(url.ends_with("a%2Bb%2Fc%3F%26%3D%25"));
}
