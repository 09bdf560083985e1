use open_tcg::editor::{drop_on_section, CardViewType, DragInfo, DropOutcome};
use open_tcg::tcg::TCG;

fn ruleset() -> TCG {
    let mut tcg = TCG::new_from_file(
        "<TCG><CardLimit>2</CardLimit><Deck><Subsection><Name>Main</Name></Subsection><Subsection><Name>Side</Name></Subsection></Deck></TCG>",
    )
    .unwrap();
    tcg.cards = TCG::read_cards(&vec![vec!["<Card><Name>Jinzo</Name><SetCode>PSV-000</SetCode></Card>".to_string()]]).unwrap();
    tcg
}

fn drag(source_type: CardViewType, card: &str) -> Option<DragInfo> {
    Some(DragInfo { source_type, source_data: card.to_string() })
}

#[test]
fn drop_from_search_adds_up_to_limit() {
    let tcg = ruleset();
    let mut deck = tcg.new_deck();
    let d = drag(CardViewType::SearchView, "Jinzo");
    assert_eq!(drop_on_section(&tcg, &mut deck, 0, &d), DropOutcome::Added);
    assert_eq!(drop_on_section(&tcg, &mut deck, 0, &d), DropOutcome::Added);
    assert_eq!(drop_on_section(&tcg, &mut deck, 0, &d), DropOutcome::AtLimit);
    assert_eq!(deck.sections[0].cards.get("Jinzo"), Some(&2));
    assert_eq!(deck.sections[1].cards.len(), 0);
}

#[test]
fn drop_of_unknown_card_changes_nothing() {
    let tcg = ruleset();
    let mut deck = tcg.new_deck();
    assert_eq!(drop_on_section(&tcg, &mut deck, 1, &drag(CardViewType::SearchView, "Exodia")), DropOutcome::NotFound);
    assert_eq!(deck.sections[1].cards.len(), 0);
}

#[test]
fn drop_from_editor_or_nothing_is_ignored() {
    let tcg = ruleset();
    let mut deck = tcg.new_deck();
    assert_eq!(drop_on_section(&tcg, &mut deck, 0, &drag(CardViewType::EditorView, "Jinzo")), DropOutcome::Ignored);
    assert_eq!(drop_on_section(&tcg, &mut deck, 0, &None), DropOutcome::Ignored);
    assert_eq!(deck.sections[0].cards.len(), 0);
}
