use medianheap::{LeftHandedMedian, MedianHeap, MergeMedian, MidpointMedian};

fn lower_middle(values: &[i64]) -> i64 {
    let mut sorted = values.to_vec();
    sorted.sort();
    sorted[(sorted.len() - 1) / 2]
}

#[test]
fn median_follows_every_insertion() {
    let values: Vec<i64> = vec![5, -3, 9, 9, 0, 12, -7, 4, 4, 4, 100, -50, 8];
    let mut heap = MedianHeap::new(LeftHandedMedian);
    for i in 0..values.len() {
        heap.push(values[i]);
        assert_eq!(heap.len(), i + 1);
        assert_eq!(heap.get_median(), Some(lower_middle(&values[..i + 1])));
    }
}

#[test]
fn halves_stay_balanced_on_insertion() {
    let mut heap = MedianHeap::new(LeftHandedMedian);
    for v in [10, 9, 8, 7, 6, 5, 4, 3, 2, 1] {
        heap.push(v);
        let below = heap.peak_max().copied();
        let above = heap.peak_min().copied();
        if heap.len() % 2 == 0 {
            assert!(below.is_some() && above.is_some());
        } else {
            assert!(below.is_some());
        }
    }
    assert_eq!(heap.peak_max(), Some(&5));
    assert_eq!(heap.peak_min(), Some(&6));
}

#[test]
fn size_counts_inserts_and_removals() {
    let mut heap = MedianHeap::new(MidpointMedian);
    for v in [3, 1, 4, 1, 5] {
        heap.push(v);
    }
    assert_eq!(heap.len(), 5);
    assert_eq!(heap.pop(), Some(3));
    assert_eq!(heap.len(), 4);
    assert_eq!(heap.pop(), Some(2));
    assert_eq!(heap.len(), 2);
    heap.push(9);
    assert_eq!(heap.len(), 3);
}

#[test]
fn odd_count_midpoint_median() {
    let heap: MedianHeap<i32, MidpointMedian> =
        MedianHeap::from_values(MidpointMedian, &[1, 2, 3, 4, 6, 7, 8, 9, 0]);
    assert_eq!(heap.len(), 9);
    assert_eq!(heap.get_median(), Some(4));
}

#[test]
fn even_count_left_handed_median() {
    let mut heap = MedianHeap::new(LeftHandedMedian);
    heap.push(1);
    heap.push(2);
    assert_eq!(heap.get_median(), Some(1));
}

#[test]
fn midpoint_rounds_toward_zero() {
    assert_eq!(MidpointMedian.merge(&-3, &0), -1);
    assert_eq!(MidpointMedian.merge(&-4, &-1), -2);
    assert_eq!(MidpointMedian.merge(&2, &3), 2);
    assert_eq!(MidpointMedian.merge(&i64::MAX, &i64::MAX), i64::MAX);
    assert_eq!(MidpointMedian.merge(&i64::MIN, &i64::MIN), i64::MIN);
    assert_eq!(MidpointMedian.merge(&255u8, &253u8), 254u8);
    assert_eq!(MidpointMedian.merge(&u64::MAX, &(u64::MAX - 2)), u64::MAX - 1);
}

#[test]
fn left_handed_takes_smaller() {
    assert_eq!(LeftHandedMedian.merge(&7, &3), 3);
    assert_eq!(LeftHandedMedian.merge(&-1, &4), -1);
}

#[test]
fn empty_store_has_no_median() {
    let mut heap: MedianHeap<i32, MidpointMedian> = MedianHeap::new(MidpointMedian);
    assert_eq!(heap.get_median(), None);
    assert_eq!(heap.pop(), None);
    assert_eq!(heap.peak_max(), None);
    assert_eq!(heap.peak_min(), None);
    assert!(!heap.has(&0));
    heap.delete(&0);
    assert!(heap.is_empty());
}

#[test]
fn clear_twice_stays_empty() {
    let mut heap: MedianHeap<i32, LeftHandedMedian> = MedianHeap::new(LeftHandedMedian);
    heap.clear();
    assert_eq!(heap.len(), 0);
    assert!(heap.is_empty());
    heap.push(4);
    heap.clear();
    heap.clear();
    assert_eq!(heap.len(), 0);
    assert!(heap.is_empty());
    assert_eq!(heap.get_median(), None);
}

#[test]
fn clone_is_independent() {
    let mut heap = MedianHeap::new(MidpointMedian);
    for v in [1, 2, 3, 4, 5] {
        heap.push(v);
    }
    let mut copy = heap.clone();
    copy.push(100);
    copy.push(200);
    copy.pop();
    copy.delete(&1);
    assert_eq!(heap.get_median(), Some(3));
    assert_eq!(heap.len(), 5);
    assert!(copy.has(&200));
    assert!(!heap.has(&200));
    assert!(heap.has(&1));
    copy.clear();
    assert!(copy.is_empty());
    assert_eq!(heap.get_median(), Some(3));
    assert_eq!(heap.len(), 5);
}

#[test]
fn bulk_build_matches_repeated_push() {
    let values = vec![8, 1, 7, 7, 3, 9, 2, 2, 6, 5];
    let built: MedianHeap<i32, MidpointMedian> = MedianHeap::from_values(MidpointMedian, &values);
    let iterated: MedianHeap<i32, MidpointMedian> = MedianHeap::from_iter(values.clone().into_iter());
    let mut pushed = MedianHeap::new(MidpointMedian);
    for v in &values {
        pushed.push(*v);
    }
    assert_eq!(built.len(), pushed.len());
    assert_eq!(built.get_median(), pushed.get_median());
    assert_eq!(iterated.len(), pushed.len());
    assert_eq!(iterated.get_median(), pushed.get_median());
    assert_eq!(built.get_median(), Some(5));
}

#[test]
fn has_reports_merged_median() {
    let mut heap = MedianHeap::new(MidpointMedian);
    heap.push(2);
    heap.push(4);
    assert!(heap.has(&3));
    assert!(heap.has(&2));
    assert!(heap.has(&4));
    assert!(!heap.has(&1));
    assert!(!heap.has(&5));
}

#[test]
fn delete_removes_every_copy() {
    let mut heap = MedianHeap::new(LeftHandedMedian);
    for v in [1, 1, 2, 5, 5, 5, 9, 9] {
        heap.push(v);
    }
    // median is 5 (the two middle values are 5 and 5)
    assert_eq!(heap.get_median(), Some(5));
    heap.delete(&5);
    assert!(!heap.has(&5));
    assert_eq!(heap.len(), 5);
    heap.delete(&1);
    assert!(!heap.has(&1));
    assert_eq!(heap.len(), 3);
    heap.delete(&9);
    assert!(!heap.has(&9));
    assert_eq!(heap.len(), 1);
    assert_eq!(heap.get_median(), Some(2));
    heap.delete(&42);
    assert_eq!(heap.len(), 1);
}

#[test]
fn peaks_show_boundaries() {
    let mut heap = MedianHeap::new(MidpointMedian);
    heap.push(10);
    assert_eq!(heap.peak_max(), Some(&10));
    assert_eq!(heap.peak_min(), None);
    heap.push(20);
    assert_eq!(heap.peak_max(), Some(&10));
    assert_eq!(heap.peak_min(), Some(&20));
    heap.push(0);
    assert_eq!(heap.peak_max(), Some(&10));
    assert_eq!(heap.peak_min(), Some(&20));
    assert_eq!(heap.get_median(), Some(10));
}

#[test]
fn default_store_is_empty() {
    let heap: MedianHeap<u32, LeftHandedMedian> = Default::default();
    assert!(heap.is_empty());
    assert_eq!(heap.get_median(), None);
}
