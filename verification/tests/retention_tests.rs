use win_instant_replay::retention::{files_to_delete, keep_count_fits, keep_segment_count};

#[test]
fn keep_count_rounds_up_and_adds_small_safety_margin() {
    assert_eq!(keep_segment_count(300, 1), 302);
    assert_eq!(keep_segment_count(300, 2), 152);
    assert_eq!(keep_segment_count(301, 2), 153);
}

#[test]
fn deletes_oldest_entries_when_over_limit() {
    let doomed = files_to_delete(vec![5, 2, 9, 1, 3], 2);
    assert_eq!(doomed, vec![1, 2, 3]);
}

#[test]
fn keeps_everything_when_under_limit() {
    let doomed = files_to_delete(vec!["a", "b"], 5);
    assert!(doomed.is_empty());
}

use win_instant_replay::retention::SegmentDescriptor;

#[test]
fn keep_count_treats_zero_segments_as_one_second() {
    assert_eq!(keep_segment_count(300, 0), 302);
    assert_eq!(keep_segment_count(10, 3), 6);
    assert_eq!(keep_segment_count(0, 5), 2);
}

#[test]
fn deletes_oldest_names_and_descriptors() {
    let names = vec!["segment-3".to_string(), "segment-1".to_string(), "segment-2".to_string()];
    assert_eq!(files_to_delete(names, 1), vec!["segment-1".to_string(), "segment-2".to_string()]);
    let descriptors = vec![
        SegmentDescriptor { sort_key: "b".to_string() },
        SegmentDescriptor { sort_key: "ab".to_string() },
        SegmentDescriptor { sort_key: "a".to_string() },
    ];
    let doomed = files_to_delete(descriptors, 1);
    assert_eq!(
        doomed,
        vec![SegmentDescriptor { sort_key: "a".to_string() }, SegmentDescriptor { sort_key: "ab".to_string() }]
    );
    assert_eq!(files_to_delete(vec![3u64, 3, 1], 1), vec![1, 3]);
    assert!(files_to_delete(Vec::<u32>::new(), 0).is_empty());
}

#[test]
fn longer_windows_keep_at_least_as_many_segments() {
    let mut previous = 0;
    for max in [0u32, 1, 9, 10, 11, 299, 300, 301, 1000] {
        for seg in [0u32, 1, 2, 7] {
            let keep = keep_segment_count(max, seg);
            let seg1 = seg.max(1) as usize;
            assert!((keep - 2) * seg1 >= max as usize);
            assert!(keep < 3 || (keep - 3) * seg1 < max as usize);
        }
        let keep = keep_segment_count(max, 3);
        assert!(keep >= previous);
        previous = keep;
    }
}

#[test]
fn keep_count_fits_on_this_machine() {
    assert!(keep_count_fits(300, 1));
    assert!(keep_count_fits(u32::MAX, 0));
    assert!(keep_count_fits(0, 5));
}
