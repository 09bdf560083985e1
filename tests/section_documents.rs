use open_tcg::deck::DeckSection;
use open_tcg::xml::{LoadError, XmlNode};

fn section_with(name: &str, cards: &[(&str, u32)]) -> DeckSection {
    let mut section = DeckSection::new();
    section.info.name = name.to_string();
    for (card, count) in cards {
        section.cards.insert(card.to_string(), *count);
    }
    section
}

fn text_of(node: &XmlNode) -> &str {
    match node {
        XmlNode::Element(e) => match &e.children[0] {
            XmlNode::Text(t) => t.as_str(),
            _ => panic!("no text"),
        },
        _ => panic!("no element"),
    }
}

#[test]
fn element_form_lists_every_card() {
    let section = section_with("Main", &[("A", 2), ("B", 1)]);
    let element = section.to_element();
    assert_eq!(element.name, "Section");
    assert_eq!(text_of(&element.children[0]), "Main");
    let list = match &element.children[1] {
        XmlNode::Element(e) => e,
        _ => panic!("no card list"),
    };
    assert_eq!(list.name, "Cards");
    assert_eq!(list.children.len(), 2);
    let first = match &list.children[0] {
        XmlNode::Element(e) => e,
        _ => panic!("no card"),
    };
    assert_eq!(first.name, "Card");
    assert_eq!(text_of(&first.children[0]), "A");
    assert_eq!(text_of(&first.children[1]), "2");
}

#[test]
fn section_round_trip_through_text() {
    let section = section_with("Main", &[("A", 2), ("B", 1)]);
    let text = section.document_text().expect("writer failed");
    assert!(text.contains("<Section>"));
    let back = DeckSection::new_from_file(&text).expect("read failed");
    assert_eq!(back.info.name, "Main");
    assert_eq!(back.cards.len(), 2);
    assert_eq!(back.cards.get("A"), Some(&2));
    assert_eq!(back.cards.get("B"), Some(&1));
}

#[test]
fn section_round_trip_ignores_card_order() {
    let one = section_with("Main", &[("A", 2), ("B", 1)]);
    let other = section_with("Main", &[("B", 1), ("A", 2)]);
    let a = DeckSection::new_from_file(&one.document_text().unwrap()).unwrap();
    let b = DeckSection::new_from_file(&other.document_text().unwrap()).unwrap();
    assert_eq!(a.cards.get("A"), b.cards.get("A"));
    assert_eq!(a.cards.get("B"), b.cards.get("B"));
    assert_eq!(a.cards.len(), b.cards.len());
}

#[test]
fn section_round_trip_of_large_count() {
    let section = section_with("Side", &[("Z", 4294967295)]);
    let back = DeckSection::from_element(&section.to_element()).unwrap();
    assert_eq!(back.cards.get("Z"), Some(&4294967295));
}

#[test]
fn section_name_is_read_as_it_stands() {
    let text = "<Section><Name>  Extra \n</Name><Cards/></Section>";
    let back = DeckSection::new_from_file(text).unwrap();
    assert_eq!(back.info.name, "  Extra \n");
    assert_eq!(back.cards.len(), 0);
}

#[test]
fn section_round_trip_keeps_white_space() {
    let section = section_with(" M", &[("A ", 2), (" B\t", 1)]);
    let back = DeckSection::new_from_file(&section.document_text().unwrap()).unwrap();
    assert_eq!(back.info.name, " M");
    assert_eq!(back.cards.len(), 2);
    assert_eq!(back.cards.get("A "), Some(&2));
    assert_eq!(back.cards.get(" B\t"), Some(&1));
    assert_eq!(back.cards.get("A"), None);
    let tree = DeckSection::from_element(&section.to_element()).unwrap();
    assert_eq!(tree.info.name, " M");
    assert_eq!(tree.cards.get("A "), Some(&2));
}

#[test]
fn section_with_bad_count_is_refused() {
    let text = "<Section><Name>Main</Name><Cards><Card><Name>A</Name><NumCopies>two</NumCopies></Card></Cards></Section>";
    assert_eq!(DeckSection::new_from_file(text).unwrap_err(), LoadError::BadNumber);
}

#[test]
fn section_with_empty_name_field_is_refused() {
    let text = "<Section><Name/><Cards/></Section>";
    assert_eq!(DeckSection::new_from_file(text).unwrap_err(), LoadError::EmptyField);
}

#[test]
fn other_root_gives_empty_section() {
    let back = DeckSection::new_from_file("<Deck><Name>Main</Name></Deck>").unwrap();
    assert_eq!(back.info.name, "");
    assert_eq!(back.cards.len(), 0);
}

#[test]
fn malformed_section_is_refused() {
    match DeckSection::new_from_file("<Section><Name>Main</Section>") {
        Err(LoadError::Malformed(_)) => {}
        other => panic!("unexpected {:?}", other),
    }
}

#[test]
fn later_card_entry_replaces_earlier() {
    let text = "<Section><Cards><Card><Name>A</Name><NumCopies>1</NumCopies></Card><Card><Name>A</Name><NumCopies>3</NumCopies></Card></Cards></Section>";
    let back = DeckSection::new_from_file(text).unwrap();
    assert_eq!(back.cards.len(), 1);
    assert_eq!(back.cards.get("A"), Some(&3));
}

#[test]
fn section_text_is_the_writers_output() {
    let section = section_with("Main", &[("A", 2)]);
    assert_eq!(
        section.document_text().unwrap(),
        "<?xml version='1.0'?><Section><Name>Main</Name><Cards><Card><Name>A</Name><NumCopies>2</NumCopies></Card></Cards></Section>"
    );
}

#[test]
fn escaped_names_read_back_up_to_first_reference() {
    // The parser splits text at each escaped character, and a field is read from
    // its first text node only.
    let section = section_with("Side & <Extra>", &[("A&B", 1)]);
    let text = section.document_text().unwrap();
    assert!(text.contains("<Name>Side &amp; &lt;Extra&gt;</Name>"));
    let back = DeckSection::new_from_file(&text).unwrap();
    assert_eq!(back.info.name, "Side ");
    assert_eq!(back.cards.get("A"), Some(&1));
    assert_eq!(back.cards.len(), 1);
}

#[test]
fn empty_section_name_does_not_survive_text() {
    let section = section_with("", &[]);
    let text = section.document_text().unwrap();
    assert_eq!(DeckSection::new_from_file(&text).unwrap_err(), LoadError::EmptyField);
}
