use grab::session::{Fetch, LocCounters};

#[test]
fn loc_info_adds_up_fetches_after_skeleton() {
    let mut c = LocCounters::new();
    c.record(Fetch::Skeleton, 1500);
    c.record(Fetch::File, 300);
    c.record(Fetch::Hash, 180);
    c.record(Fetch::File, 20);
    let info = c.info();
    assert_eq!(info.skeleton_loc, 1500);
    assert_eq!(info.file_loc, 320);
    assert_eq!(info.hash_loc, 180);
    assert_eq!(info.total_loc, 2000);
}

#[test]
fn skeleton_resets_the_counters() {
    let mut c = LocCounters::new();
    c.record(Fetch::Skeleton, 10);
    c.record(Fetch::File, 5);
    c.record(Fetch::Hash, 7);
    c.record(Fetch::Skeleton, 42);
    let info = c.info();
    assert_eq!((info.skeleton_loc, info.file_loc, info.hash_loc, info.total_loc), (42, 0, 0, 42));
}

#[test]
fn fetches_before_any_skeleton_still_count() {
    let mut c = LocCounters::new();
    c.record(Fetch::Hash, 3);
    let info = c.info();
    assert_eq!((info.skeleton_loc, info.file_loc, info.hash_loc, info.total_loc), (0, 0, 3, 3));
}

#[test]
fn counters_stop_at_the_largest_value() {
    let mut c = LocCounters::new();
    c.record(Fetch::File, usize::MAX);
    c.record(Fetch::File, 1);
    c.record(Fetch::Skeleton, 0);
    c.record(Fetch::Hash, usize::MAX - 1);
    c.record(Fetch::File, 5);
    let info = c.info();
    assert_eq!(info.hash_loc, usize::MAX - 1);
    assert_eq!(info.total_loc, usize::MAX);
}
