use zcode_cleaner::total::{
    invalidate_total, root_total, store_total, TotalAnswer, TotalCache,
};
use zcode_cleaner::tree::{dir_stats, measure, DirNode, Entry};

fn leaf(len: u64, mtime: u128) -> Entry {
    Entry::Leaf { len, mtime }
}

fn dir(mtime: u128, entries: Vec<Entry>) -> DirNode {
    DirNode { mtime, entries }
}

#[test]
fn stats_of_nested_directories() {
    let inner = dir(50, vec![leaf(7, 90), leaf(1, 20)]);
    let node = dir(10, vec![leaf(3, 30), Entry::Dir(inner), Entry::Unreadable, leaf(4, 5)]);
    assert_eq!(dir_stats(&node), (15, 90));
    assert_eq!(dir_stats(&dir(12, vec![])), (0, 12));
    assert_eq!(dir_stats(&dir(12, vec![Entry::Dir(dir(40, vec![]))])), (0, 40));
    assert_eq!(dir_stats(&dir(0, vec![])), (0, 0));
}

#[test]
fn order_of_entries_does_not_matter() {
    let a = dir(1, vec![leaf(3, 30), leaf(4, 5), Entry::Dir(dir(2, vec![leaf(1, 99)]))]);
    let b = dir(1, vec![Entry::Dir(dir(2, vec![leaf(1, 99)])), leaf(4, 5), leaf(3, 30)]);
    assert_eq!(dir_stats(&a), dir_stats(&b));
}

#[test]
fn sizes_beyond_counting_are_told() {
    let node = dir(1, vec![leaf(u64::MAX, 2), leaf(1, 3)]);
    assert_eq!(measure(&node), None);
    let nested = dir(1, vec![leaf(1, 3), Entry::Dir(dir(2, vec![leaf(u64::MAX, 2)]))]);
    assert_eq!(measure(&nested), None);
    assert_eq!(measure(&dir(1, vec![leaf(u64::MAX, 2)])), Some((u64::MAX, 2)));
}

#[test]
fn total_is_remembered_until_invalidated() {
    let mut cache = TotalCache::new();
    assert_eq!(root_total(&cache, false), TotalAnswer::Measure);
    let node = dir(1, vec![leaf(30, 2), leaf(12, 3)]);
    assert_eq!(store_total(&mut cache, &node), 42);
    assert_eq!(root_total(&cache, false), TotalAnswer::Known(42));
    assert_eq!(root_total(&cache, true), TotalAnswer::Measure);
    invalidate_total(&mut cache);
    assert_eq!(root_total(&cache, false), TotalAnswer::Measure);
    assert_eq!(cache.total, 42);
}
