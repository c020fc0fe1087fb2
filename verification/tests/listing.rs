use mikanplus::download::{TaskRecord, TaskState};
use mikanplus::listing::{
    active_tasks, control_for, filter_key, row_control, search_paging, subscribed_bangumi_count,
    title_passes, visible_episodes, RowControl, SearchPaging, SEARCH_PAGE_SIZE,
};
use mikanplus::model::{Episode, Subscription};

fn episode(title: &str) -> Episode {
    Episode {
        title: title.to_string(),
        magnet_link: None,
        size: None,
        publish_date: None,
    }
}

fn task(id: &str, state: TaskState) -> TaskRecord {
    TaskRecord {
        id: id.to_string(),
        title: "t".to_string(),
        downloaded: 0,
        total: 0,
        download_rate: 0,
        upload_rate: 0,
        state,
        peers: 0,
        output_file: None,
        output_dir: None,
    }
}

#[test]
fn title_filter_matches_substrings() {
    assert!(title_passes("[a] foo 01", "foo"));
    assert!(title_passes("abc", ""));
    assert!(!title_passes("abc", "x"));
    assert!(!title_passes("fo", "foo"));
}

#[test]
fn filter_key_is_trimmed_lower_case() {
    assert_eq!(filter_key("  FoO 1080P "), "foo 1080p");
    assert_eq!(filter_key("   "), "");
}

#[test]
fn keyword_filters_episodes_case_insensitively() {
    let eps = vec![episode("[A] Foo 01"), episode("[B] bar 02"), episode("FOO 03")];
    assert_eq!(visible_episodes(&eps, " foo "), vec![0, 2]);
    assert_eq!(visible_episodes(&eps, "BAR"), vec![1]);
    assert_eq!(visible_episodes(&eps, "zzz"), Vec::<usize>::new());
}

#[test]
fn blank_keyword_shows_every_episode() {
    let eps = vec![episode("a"), episode("b"), episode("c")];
    assert_eq!(visible_episodes(&eps, ""), vec![0, 1, 2]);
    assert_eq!(visible_episodes(&eps, " \t "), vec![0, 1, 2]);
}

#[test]
fn search_paging_of_no_results_is_one_empty_page() {
    assert_eq!(
        search_paging(0, 0),
        SearchPaging { page: 0, total_pages: 1, start: 0, end: 0, prev_enabled: false, next_enabled: false }
    );
    assert_eq!(search_paging(0, 7).page, 0);
}

#[test]
fn search_paging_middle_and_last_pages() {
    assert_eq!(SEARCH_PAGE_SIZE, 50);
    assert_eq!(
        search_paging(120, 1),
        SearchPaging { page: 1, total_pages: 3, start: 50, end: 100, prev_enabled: true, next_enabled: true }
    );
    assert_eq!(
        search_paging(120, 2),
        SearchPaging { page: 2, total_pages: 3, start: 100, end: 120, prev_enabled: true, next_enabled: false }
    );
    assert_eq!(
        search_paging(100, 1),
        SearchPaging { page: 1, total_pages: 2, start: 50, end: 100, prev_enabled: true, next_enabled: false }
    );
    assert_eq!(
        search_paging(50, 0),
        SearchPaging { page: 0, total_pages: 1, start: 0, end: 50, prev_enabled: false, next_enabled: false }
    );
}

#[test]
fn search_paging_clamps_a_page_past_the_end() {
    let p = search_paging(120, 9);
    assert_eq!((p.page, p.start, p.end, p.next_enabled), (2, 100, 120, false));
}

#[test]
fn search_pages_are_slices_of_the_rows() {
    for total in [0usize, 1, 49, 50, 51, 99, 100, 101, 250] {
        for page in 0..8usize {
            let p = search_paging(total, page);
            assert!(p.start <= p.end && p.end <= total);
            assert!(p.end - p.start <= SEARCH_PAGE_SIZE);
            assert_eq!(total > 0, p.start < p.end);
            assert_eq!(p.prev_enabled, p.start > 0);
            assert_eq!(p.next_enabled, p.end < total);
        }
    }
}

#[test]
fn control_follows_task_state() {
    assert_eq!(control_for(false, Some(&TaskState::Completed)), RowControl::Nothing);
    assert_eq!(control_for(true, None), RowControl::Download);
    assert_eq!(control_for(true, Some(&TaskState::Missing)), RowControl::Download);
    assert_eq!(control_for(true, Some(&TaskState::Completed)), RowControl::OpenAndMore);
    assert_eq!(control_for(true, Some(&TaskState::Initializing)), RowControl::ProgressAndCancel);
    assert_eq!(control_for(true, Some(&TaskState::Downloading)), RowControl::ProgressAndCancel);
    assert_eq!(
        control_for(true, Some(&TaskState::Error("x".to_string()))),
        RowControl::ErrorAndCancel
    );
}

#[test]
fn row_control_finds_the_task_by_info_hash() {
    let id = "0123456789abcdef0123456789abcdef01234567";
    let snapshot = vec![task("ffff", TaskState::Downloading), task(id, TaskState::Completed)];
    let magnet = "magnet:?xt=urn:btih:0123456789ABCDEF0123456789ABCDEF01234567&dn=x";
    assert_eq!(row_control(magnet, &snapshot), (RowControl::OpenAndMore, Some(1)));
    assert_eq!(row_control("", &snapshot), (RowControl::Nothing, None));
    let other = "magnet:?xt=urn:btih:1111111111111111111111111111111111111111";
    assert_eq!(row_control(other, &snapshot), (RowControl::Download, None));
}

fn subscription(bangumi_id: u32, subgroup_id: u32) -> Subscription {
    Subscription {
        bangumi_id,
        subgroup_id,
        bangumi_name: "b".to_string(),
        group_name: "g".to_string(),
        cover_url: None,
    }
}

#[test]
fn bangumi_count_counts_each_bangumi_once() {
    assert_eq!(subscribed_bangumi_count(&vec![]), 0);
    let subs = vec![subscription(1, 10), subscription(1, 11), subscription(2, 10), subscription(1, 12)];
    assert_eq!(subscribed_bangumi_count(&subs), 2);
}

#[test]
fn observer_lists_tasks_under_way() {
    let snapshot = vec![
        task("a", TaskState::Completed),
        task("b", TaskState::Initializing),
        task("c", TaskState::Error("e".to_string())),
        task("d", TaskState::Downloading),
        task("e", TaskState::Missing),
    ];
    assert_eq!(active_tasks(&snapshot), vec![1, 3]);
    assert_eq!(active_tasks(&vec![]), Vec::<usize>::new());
}
