use branch_review::branch::RawBranch;
use branch_review::collect::get_branches;

fn raw(name: &str, commit_id: &str, seconds: i64, offset_minutes: i32) -> RawBranch {
    RawBranch {
        name: name.to_string(),
        commit_id: commit_id.to_string(),
        seconds,
        offset_minutes,
    }
}

#[test]
fn scenario_two_features_ordered_by_commit_time() {
    let listing = vec![
        raw("feature-2", "bbbbbbbbbbbbbbbbbbbbbbbbbbbbbbbbbbbbbbbb", 2_000, 0),
        raw("feature-1", "aaaaaaaaaaaaaaaaaaaaaaaaaaaaaaaaaaaaaaaa", 1_000, 0),
        raw("main", "cccccccccccccccccccccccccccccccccccccccc", 3_000, 0),
    ];
    let head = "main".to_string();
    let list = get_branches(listing, &head);
    assert_eq!(list.len(), 2);
    assert_eq!(list[0].name, "feature-1");
    assert_eq!(list[1].name, "feature-2");
}

#[test]
fn master_and_head_are_never_listed() {
    let listing = vec![
        raw("master", "aaaaaaaaaaaaaaaaaaaaaaaaaaaaaaaaaaaaaaaa", 10, 0),
        raw("work", "bbbbbbbbbbbbbbbbbbbbbbbbbbbbbbbbbbbbbbbb", 20, 0),
        raw("topic", "cccccccccccccccccccccccccccccccccccccccc", 30, 0),
        raw("topic", "dddddddddddddddddddddddddddddddddddddddd", 40, 0),
    ];
    let head = "topic".to_string();
    let list = get_branches(listing, &head);
    assert_eq!(list.len(), 1);
    assert_eq!(list[0].name, "work");
    assert_eq!(list[0].handle, 1);
}

#[test]
fn equal_times_keep_listing_order() {
    let listing = vec![
        raw("one", "aaaaaaaaaaaaaaaaaaaaaaaaaaaaaaaaaaaaaaaa", 500, 0),
        raw("two", "bbbbbbbbbbbbbbbbbbbbbbbbbbbbbbbbbbbbbbbb", 500, 0),
        raw("three", "cccccccccccccccccccccccccccccccccccccccc", 500, 0),
    ];
    let head = "main".to_string();
    let list = get_branches(listing, &head);
    assert_eq!(list.len(), 3);
    assert_eq!(list[0].name, "one");
    assert_eq!(list[1].name, "two");
    assert_eq!(list[2].name, "three");
    assert!(list[0].handle < list[1].handle && list[1].handle < list[2].handle);
}

#[test]
fn mixed_times_sort_ascending_and_stay_stable() {
    let listing = vec![
        raw("late", "aaaaaaaaaaaaaaaaaaaaaaaaaaaaaaaaaaaaaaaa", 900, 0),
        raw("early", "bbbbbbbbbbbbbbbbbbbbbbbbbbbbbbbbbbbbbbbb", 100, 0),
        raw("middle-a", "cccccccccccccccccccccccccccccccccccccccc", 500, 0),
        raw("middle-b", "dddddddddddddddddddddddddddddddddddddddd", 500, 0),
    ];
    let head = "main".to_string();
    let list = get_branches(listing, &head);
    let names: Vec<&str> = list.iter().map(|b| b.name.as_str()).collect();
    assert_eq!(names, vec!["early", "middle-a", "middle-b", "late"]);
}

#[test]
fn time_is_timestamp_plus_offset_in_minutes() {
    let listing = vec![raw("work", "aaaaaaaaaaaaaaaaaaaaaaaaaaaaaaaaaaaaaaaa", 1_000, 90)];
    let head = "main".to_string();
    let list = get_branches(listing, &head);
    assert_eq!(list.len(), 1);
    assert_eq!(list[0].time, 1_090);
    assert_eq!(list[0].commit_id, "aaaaaaaaaaaaaaaaaaaaaaaaaaaaaaaaaaaaaaaa");
}

#[test]
fn only_master_and_head_leaves_nothing_to_review() {
    let listing = vec![
        raw("master", "aaaaaaaaaaaaaaaaaaaaaaaaaaaaaaaaaaaaaaaa", 10, 0),
        raw("main", "bbbbbbbbbbbbbbbbbbbbbbbbbbbbbbbbbbbbbbbb", 20, 0),
    ];
    let head = "main".to_string();
    let list = get_branches(listing, &head);
    assert!(list.is_empty());
}
