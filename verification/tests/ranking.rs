use health_monitor::ranking::{rank_top, sort_descending};
use health_monitor::scan::CacheEntry;

fn items(sizes: &[u64]) -> Vec<CacheEntry> {
    sizes
        .iter()
        .enumerate()
        .map(|(index, size)| CacheEntry { path: format!("#{}", index), size_bytes: *size })
        .collect()
}

fn order(entries: &[CacheEntry]) -> Vec<(String, u64)> {
    entries.iter().map(|entry| (entry.path.clone(), entry.size_bytes)).collect()
}

fn pairs(entries: &[(&str, u64)]) -> Vec<(String, u64)> {
    entries.iter().map(|(path, size)| (path.to_string(), *size)).collect()
}

#[test]
fn sorting_nothing_gives_nothing() {
    assert!(sort_descending(Vec::<CacheEntry>::new()).is_empty());
    assert!(rank_top(Vec::<CacheEntry>::new(), 3).is_empty());
}

#[test]
fn sorting_puts_the_heaviest_first() {
    let sorted = sort_descending(items(&[3, 9, 1, 7, 5]));
    assert_eq!(order(&sorted), pairs(&[("#1", 9), ("#3", 7), ("#4", 5), ("#0", 3), ("#2", 1)]));
}

#[test]
fn sorting_keeps_sorted_input_as_it_is() {
    let sorted = sort_descending(items(&[9, 7, 5, 3, 1]));
    assert_eq!(order(&sorted), pairs(&[("#0", 9), ("#1", 7), ("#2", 5), ("#3", 3), ("#4", 1)]));
}

#[test]
fn sorting_reverses_ascending_input() {
    let sorted = sort_descending(items(&[1, 2, 3, 4]));
    assert_eq!(order(&sorted), pairs(&[("#3", 4), ("#2", 3), ("#1", 2), ("#0", 1)]));
}

#[test]
fn sorting_is_stable() {
    let sorted = sort_descending(items(&[5, 8, 5, 8, 5, 1, 8]));
    assert_eq!(
        order(&sorted),
        pairs(&[("#1", 8), ("#3", 8), ("#6", 8), ("#0", 5), ("#2", 5), ("#4", 5), ("#5", 1)])
    );
}

#[test]
fn sorting_keeps_every_item() {
    let sizes = [4u64, 4, 0, u64::MAX, 17, 4, 0, 23, 23, 1];
    let sorted = sort_descending(items(&sizes));
    assert_eq!(sorted.len(), sizes.len());
    let mut paths: Vec<String> = sorted.iter().map(|entry| entry.path.clone()).collect();
    paths.sort();
    let mut all: Vec<String> = (0..sizes.len()).map(|index| format!("#{}", index)).collect();
    all.sort();
    assert_eq!(paths, all);
    for entry in &sorted {
        let index: usize = entry.path[1..].parse().unwrap();
        assert_eq!(entry.size_bytes, sizes[index]);
    }
}

#[test]
fn short_list_is_the_start_of_the_sorted_order() {
    let top = rank_top(items(&[5, 8, 5, 8, 5, 1, 8]), 4);
    assert_eq!(order(&top), pairs(&[("#1", 8), ("#3", 8), ("#6", 8), ("#0", 5)]));
}

#[test]
fn short_list_of_limit_zero_is_empty() {
    assert!(rank_top(items(&[5, 8, 5]), 0).is_empty());
}

#[test]
fn short_list_holds_everything_where_the_limit_allows() {
    let top = rank_top(items(&[1, 3, 2]), 3);
    assert_eq!(order(&top), pairs(&[("#1", 3), ("#2", 2), ("#0", 1)]));
    let top = rank_top(items(&[1, 3, 2]), 100);
    assert_eq!(order(&top), pairs(&[("#1", 3), ("#2", 2), ("#0", 1)]));
    let top = rank_top(items(&[1, 3, 2]), usize::MAX);
    assert_eq!(top.len(), 3);
}
