use open_tcg::card::{CardInfo, CardType};
use open_tcg::xml::{read_num_from_element, read_text_from_element, LoadError, XmlElement, XmlNode};

fn leaf(name: &str, text: &str) -> XmlElement {
    XmlElement { name: name.to_string(), children: vec![XmlNode::Text(text.to_string())] }
}

#[test]
fn text_is_trimmed() {
    assert_eq!(read_text_from_element(&leaf("Name", "  Dark Magician\t\n")), "Dark Magician");
    assert_eq!(read_text_from_element(&leaf("Name", "\u{3000}Kuriboh\u{a0}")), "Kuriboh");
}

#[test]
fn text_of_element_without_text_is_empty() {
    let e = XmlElement { name: "Name".to_string(), children: vec![XmlNode::Element(leaf("Inner", "x"))] };
    assert_eq!(read_text_from_element(&e), "");
}

#[test]
fn numbers_are_read() {
    assert_eq!(read_num_from_element(&leaf("CardLimit", "3")), Some(3));
    assert_eq!(read_num_from_element(&leaf("CardLimit", "+42")), Some(42));
    assert_eq!(read_num_from_element(&leaf("CardLimit", "4294967295")), Some(4294967295));
    assert_eq!(read_num_from_element(&leaf("CardLimit", "4294967296")), None);
    assert_eq!(read_num_from_element(&leaf("CardLimit", " 3")), None);
    assert_eq!(read_num_from_element(&leaf("CardLimit", "-1")), None);
    assert_eq!(read_num_from_element(&leaf("CardLimit", "")), None);
    let e = XmlElement { name: "CardLimit".to_string(), children: vec![XmlNode::Comment("c".to_string())] };
    assert_eq!(read_num_from_element(&e), Some(0));
}

#[test]
fn card_is_read_from_its_document() {
    let text = "<Card>\n  <Name> Blue-Eyes White Dragon </Name>\n  <SetCode>LOB-001</SetCode>\n  <SetName>Legend of Blue Eyes</SetName>\n  <Attack>3000</Attack>\n</Card>";
    let card = CardInfo::new_from_file(text).unwrap();
    assert_eq!(card.name, "Blue-Eyes White Dragon");
    assert_eq!(card.set_code, "LOB-001");
    assert_eq!(card.set_name, "Legend of Blue Eyes");
    assert_eq!(card.card_type.name, "");
    assert_eq!(card.param_values.len(), 0);
}

#[test]
fn card_last_field_wins() {
    let text = "<Card><Name>A</Name><Name>B</Name></Card>";
    assert_eq!(CardInfo::new_from_file(text).unwrap().name, "B");
}

#[test]
fn card_with_empty_field_is_refused() {
    let text = "<Card><Name>A</Name><SetCode></SetCode></Card>";
    assert_eq!(CardInfo::new_from_file(text).unwrap_err(), LoadError::EmptyField);
}

#[test]
fn card_document_with_leading_comment_gives_blank_card() {
    let card = CardInfo::new_from_file("<!-- note --><Card><Name>A</Name></Card>").unwrap();
    assert_eq!(card.name, "");
}

#[test]
fn malformed_card_is_refused() {
    assert!(matches!(CardInfo::new_from_file("<Card><Name>A</Card>"), Err(LoadError::Malformed(_))));
}

#[test]
fn card_type_is_read_from_its_document() {
    let text = "<CardType>\n <Name>Monster</Name>\n <Parameters>\n  <Param>Attack</Param>\n  <Param>Defense</Param>\n </Parameters>\n <Parameters><Param>Level</Param></Parameters>\n</CardType>";
    let t = CardType::new_from_file(text).unwrap();
    assert_eq!(t.name, "Monster");
    assert_eq!(t.param_names, vec!["Attack".to_string(), "Defense".to_string(), "Level".to_string()]);
}

#[test]
fn other_root_gives_blank_card_type() {
    let t = CardType::new_from_file("<Type><Name>Monster</Name></Type>").unwrap();
    assert_eq!(t, CardType::new());
}

#[test]
fn card_type_with_empty_parameter_is_refused() {
    let text = "<CardType><Name>Spell</Name><Parameters><Param/></Parameters></CardType>";
    assert_eq!(CardType::new_from_file(text).unwrap_err(), LoadError::EmptyField);
}
