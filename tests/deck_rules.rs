use open_tcg::deck::{Deck, DeckSection, DeckSectionInfo};

fn copies(section: &DeckSection, card: &str) -> Option<u32> {
    section.cards.get(card).copied()
}

#[test]
fn new_card_comes_in_with_one_copy() {
    let mut section = DeckSection::new();
    assert!(section.add_card("Dark Magician", 3));
    assert_eq!(copies(&section, "Dark Magician"), Some(1));
    assert_eq!(section.cards.len(), 1);
}

#[test]
fn new_card_comes_in_even_with_zero_limit() {
    let mut section = DeckSection::new();
    assert!(section.add_card("Kuriboh", 0));
    assert_eq!(copies(&section, "Kuriboh"), Some(1));
}

#[test]
fn card_below_limit_gains_exactly_one() {
    let mut section = DeckSection::new();
    section.add_card("Kuriboh", 3);
    section.add_card("Mirror Force", 3);
    assert!(section.add_card("Kuriboh", 3));
    assert_eq!(copies(&section, "Kuriboh"), Some(2));
    assert_eq!(copies(&section, "Mirror Force"), Some(1));
}

#[test]
fn card_at_limit_stays() {
    let mut section = DeckSection::new();
    section.add_card("Pot of Greed", 1);
    assert!(!section.add_card("Pot of Greed", 1));
    assert_eq!(copies(&section, "Pot of Greed"), Some(1));
    assert!(!section.add_card("Pot of Greed", 1));
    assert_eq!(copies(&section, "Pot of Greed"), Some(1));
}

#[test]
fn three_copies_then_ceiling() {
    let mut section = DeckSection::new();
    for _ in 0..3 {
        assert!(section.add_card("Blue-Eyes White Dragon", 3));
    }
    assert_eq!(copies(&section, "Blue-Eyes White Dragon"), Some(3));
    assert!(!section.add_card("Blue-Eyes White Dragon", 3));
    assert_eq!(copies(&section, "Blue-Eyes White Dragon"), Some(3));
}

#[test]
fn deck_adds_to_one_section_only() {
    let mut main = DeckSection::new();
    main.info.name = "Main".to_string();
    let mut side = DeckSection::new();
    side.info.name = "Side".to_string();
    let mut deck = Deck { sections: vec![main, side], name: String::new() };
    assert!(deck.add_card_to_section(1, "Jinzo", 3));
    assert_eq!(copies(&deck.sections[1], "Jinzo"), Some(1));
    assert_eq!(copies(&deck.sections[0], "Jinzo"), None);
    assert_eq!(deck.sections[1].info.name, "Side");
}

#[test]
fn section_info_starts_blank() {
    let info = DeckSectionInfo::new();
    assert_eq!(info.name, "");
    assert_eq!((info.group, info.min_size, info.max_size, info.rows, info.columns), (0, 0, 0, 0, 0));
    let copy = info.duplicate();
    assert_eq!(copy, info);
}
