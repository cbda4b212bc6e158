use review_ui::guide_layout::{
    guide_edge_columns, guide_rows, guide_rule, guide_target_position, positioned_guides,
    GuideItemPlacement, GuideRuleKind, GuideStatus, GuideTargetPosition, PlacedGuide,
};
use review_ui::ordering::GuideCounter;

fn text_of(cells: &[(usize, char)]) -> String {
    cells.iter().map(|(_, symbol)| *symbol).collect()
}

#[test]
fn top_rules_carry_the_counter() {
    let cells = guide_rule(GuideRuleKind::Top(GuideCounter { number: 1, total: 3 }), 20, 2);
    assert_eq!(text_of(&cells), "╭───────── 1/3 ╮");
    assert_eq!(cells[0].0, 4);
    assert_eq!(cells.last().unwrap().0, 19);
    assert_eq!(text_of(&guide_rule(GuideRuleKind::Middle, 10, 2)), "├────┤");
    assert_eq!(text_of(&guide_rule(GuideRuleKind::Bottom, 5, 2)), "╰");
    assert_eq!(
        text_of(&guide_rule(GuideRuleKind::Top(GuideCounter { number: 10, total: 12 }), 10, 2)),
        "╭"
    );
}

#[test]
fn guide_borders_sit_after_the_numbers_and_at_the_edge() {
    assert_eq!(guide_edge_columns(20, 2), vec![4, 19]);
    assert_eq!(guide_edge_columns(5, 2), vec![4]);
    assert_eq!(guide_edge_columns(4, 2), vec![3]);
    assert_eq!(guide_edge_columns(0, 2), Vec::<usize>::new());
}

#[test]
fn guides_start_enclose_and_end_on_their_rows() {
    let guides = vec![
        PlacedGuide { item: 4, first_row: 1, last_row: 2, file_target: false, status: GuideStatus::Stale, counter: GuideCounter { number: 1, total: 3 } },
        PlacedGuide { item: 2, first_row: 0, last_row: 0, file_target: true, status: GuideStatus::Matched, counter: GuideCounter { number: 2, total: 3 } },
        PlacedGuide { item: 7, first_row: 2, last_row: 3, file_target: false, status: GuideStatus::Matched, counter: GuideCounter { number: 2, total: 3 } },
    ];
    let rows = guide_rows(5, &guides);
    assert_eq!(rows.len(), 5);
    assert_eq!(rows[0].starts, vec![2]);
    assert_eq!(rows[0].ends, Vec::<usize>::new());
    assert_eq!(rows[0].enclosing, Some(GuideStatus::Matched));
    assert_eq!(rows[1].starts, vec![4]);
    assert_eq!(rows[2].starts, vec![7]);
    assert_eq!(rows[2].enclosing, Some(GuideStatus::Stale));
    assert_eq!(rows[2].ends, vec![4]);
    assert_eq!(rows[3].ends, vec![7]);
    assert_eq!(rows[4].enclosing, None);
}

#[test]
fn guide_targets_wait_for_their_diff() {
    assert_eq!(guide_target_position(false, None, 0), Some(GuideTargetPosition::Unloaded));
    assert_eq!(guide_target_position(true, Some((2, 4)), 5), Some(GuideTargetPosition::Rows { first: 2 }));
    assert_eq!(guide_target_position(true, Some((2, 5)), 5), None);
    assert_eq!(guide_target_position(true, None, 5), None);
}

#[test]
fn only_counted_guides_within_the_diff_are_placed() {
    let counter = GuideCounter { number: 1, total: 2 };
    let items = vec![
        GuideItemPlacement { rows: Some((0, 1)), counter: Some(counter), file_target: false, status: GuideStatus::Matched },
        GuideItemPlacement { rows: Some((3, 9)), counter: Some(counter), file_target: false, status: GuideStatus::Matched },
        GuideItemPlacement { rows: Some((2, 2)), counter: None, file_target: false, status: GuideStatus::Matched },
        GuideItemPlacement { rows: None, counter: Some(counter), file_target: true, status: GuideStatus::Stale },
        GuideItemPlacement { rows: Some((0, 0)), counter: Some(counter), file_target: true, status: GuideStatus::Stale },
    ];
    let placed = positioned_guides(false, &items, 5);
    assert_eq!(placed.iter().map(|guide| guide.item).collect::<Vec<_>>(), vec![0, 4]);
    assert_eq!(placed[1].first_row, 0);
    assert!(positioned_guides(true, &items, 5).is_empty());
}
