use open_tcg::card::CardInfo;
use open_tcg::editor::{CardView, CardViewType, DragInfo, DEFAULT_COL_COUNT, DEFAULT_ROW_COUNT};

fn card(name: &str) -> CardInfo {
    let mut c = CardInfo::new();
    c.name = name.to_string();
    c.set_code = format!("{}-001", name);
    c
}

#[test]
fn default_grid_is_five_by_four() {
    let view = CardView::new(CardViewType::SearchView);
    assert_eq!((view.get_row_count(), view.get_col_count()), (DEFAULT_ROW_COUNT, DEFAULT_COL_COUNT));
    assert_eq!((DEFAULT_ROW_COUNT, DEFAULT_COL_COUNT), (5, 4));
    assert_eq!(view.get_view_type(), CardViewType::SearchView);
    assert_eq!(view.get_dragged_text(), None);
}

#[test]
fn slots_fill_row_by_row_and_stop_at_grid_end() {
    let mut view = CardView::new_with_size(CardViewType::EditorView, 1, 2);
    view.set_cards(vec![card("A"), card("B"), card("C")]);
    assert_eq!(view.slot_card(0).unwrap().name, "A");
    assert_eq!(view.slot_card(1).unwrap().name, "B");
    assert!(view.slot_card(2).is_none());
    let empty = CardView::new_with_size(CardViewType::EditorView, 3, 0);
    assert!(empty.slot_card(0).is_none());
}

#[test]
fn remove_takes_first_card_of_name() {
    let mut view = CardView::new(CardViewType::EditorView);
    view.add_card(card("A"));
    view.add_card(card("B"));
    view.add_card(card("A"));
    view.remove_card("A");
    let names: Vec<&str> = view.cards.iter().map(|c| c.name.as_str()).collect();
    assert_eq!(names, vec!["B", "A"]);
    view.remove_card("Z");
    assert_eq!(view.cards.len(), 2);
}

#[test]
fn drag_records_card_of_slot() {
    let mut view = CardView::new(CardViewType::SearchView);
    view.add_card(card("Jinzo"));
    assert!(!view.drag_card(5));
    assert_eq!(view.drag_info(), None);
    assert!(view.drag_card(0));
    assert_eq!(view.get_dragged_text(), Some("Jinzo".to_string()));
    assert_eq!(
        view.drag_info(),
        Some(DragInfo { source_type: CardViewType::SearchView, source_data: "Jinzo".to_string() })
    );
}
