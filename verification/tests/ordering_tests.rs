use review_ui::ordering::{guide_counters, sort_by_key, GuideCounter};

#[test]
fn sorting_by_key_keeps_equal_keys_in_order() {
    let entries = vec![(0, 5), (1, 2), (2, 5), (3, 1), (4, 2)];
    assert_eq!(sort_by_key(&entries), vec![(3, 1), (1, 2), (4, 2), (0, 5), (2, 5)]);
    assert_eq!(sort_by_key(&Vec::new()), Vec::new());
}

#[test]
fn guide_items_are_numbered_by_row_within_each_file() {
    let batches = vec![vec![(0, 40), (2, 10)], vec![], vec![(1, 7)]];
    let counters = guide_counters(&batches, 4);
    assert_eq!(
        counters,
        vec![
            Some(GuideCounter { number: 2, total: 3 }),
            Some(GuideCounter { number: 3, total: 3 }),
            Some(GuideCounter { number: 1, total: 3 }),
            None,
        ]
    );
}
