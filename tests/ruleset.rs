use open_tcg::tcg::TCG;
use open_tcg::xml::LoadError;

const RULESET: &str = "<?xml version=\"1.0\"?>
<TCG>
  <Name>Duel Monsters</Name>
  <CardLimit>3</CardLimit>
  <SetFile>sets.txt</SetFile>
  <TypeDirectory>types</TypeDirectory>
  <Deck>
    <Subsection>
      <Name>Main Deck</Name>
      <Group>0</Group>
      <MinSize>40</MinSize>
      <MaxSize>60</MaxSize>
      <Rows>4</Rows>
      <Columns>15</Columns>
    </Subsection>
    <Subsection>
      <Name>Side Deck</Name>
      <Group>1</Group>
      <MaxSize>15</MaxSize>
      <Rows>1</Rows>
      <Columns>15</Columns>
    </Subsection>
  </Deck>
</TCG>";

fn card(name: &str, code: &str) -> String {
    format!("<Card><Name>{}</Name><SetCode>{}</SetCode><SetName>Set {}</SetName></Card>", name, code, code)
}

#[test]
fn ruleset_is_read_from_its_document() {
    let tcg = TCG::new_from_file(RULESET).unwrap();
    assert_eq!(tcg.name, "Duel Monsters");
    assert_eq!(tcg.card_limit, 3);
    assert_eq!(tcg.set_file, "sets.txt");
    assert_eq!(tcg.type_directory, "types");
    assert_eq!(tcg.sections.len(), 2);
    let main = &tcg.sections[0];
    assert_eq!(main.name, "Main Deck");
    assert_eq!((main.group, main.min_size, main.max_size, main.rows, main.columns), (0, 40, 60, 4, 15));
    let side = &tcg.sections[1];
    assert_eq!(side.name, "Side Deck");
    assert_eq!((side.group, side.min_size, side.max_size, side.rows, side.columns), (1, 0, 15, 1, 15));
    assert_eq!(tcg.cards.len(), 0);
    assert_eq!(tcg.card_types.len(), 0);
}

#[test]
fn new_deck_follows_section_order() {
    let tcg = TCG::new_from_file(RULESET).unwrap();
    let deck = tcg.new_deck();
    assert_eq!(deck.name, "");
    assert_eq!(deck.sections.len(), 2);
    assert_eq!(deck.sections[0].info, tcg.sections[0]);
    assert_eq!(deck.sections[1].info, tcg.sections[1]);
    assert_eq!(deck.sections[1].cards.len(), 0);
}

#[test]
fn other_root_gives_blank_ruleset() {
    let tcg = TCG::new_from_file("<Game><Name>X</Name></Game>").unwrap();
    assert_eq!(tcg.name, "");
    assert_eq!(tcg.card_limit, 0);
    assert_eq!(tcg.sections.len(), 0);
}

#[test]
fn bad_card_limit_is_refused() {
    let text = "<TCG><Name>X</Name><CardLimit>three</CardLimit></TCG>";
    assert_eq!(TCG::new_from_file(text).unwrap_err(), LoadError::BadNumber);
}

#[test]
fn first_error_in_document_order_is_given() {
    let text = "<TCG><SetFile/><CardLimit>x</CardLimit></TCG>";
    assert_eq!(TCG::new_from_file(text).unwrap_err(), LoadError::EmptyField);
    let text = "<TCG><Deck><Subsection><Rows>-2</Rows></Subsection></Deck><Name/></TCG>";
    assert_eq!(TCG::new_from_file(text).unwrap_err(), LoadError::BadNumber);
}

#[test]
fn malformed_ruleset_is_refused() {
    assert!(matches!(TCG::new_from_file("<TCG>"), Err(LoadError::Malformed(_))));
}

#[test]
fn set_directories_are_trimmed_lines() {
    let lines = vec!["  sets/lob \r".to_string(), "sets/mrd".to_string(), "".to_string()];
    assert_eq!(TCG::set_directories(&lines), vec!["sets/lob".to_string(), "sets/mrd".to_string(), "".to_string()]);
}

#[test]
fn card_in_two_sets_keeps_the_later_one() {
    let first = vec![card("X", "LOB-001"), card("Y", "LOB-002")];
    let second = vec![card("X", "MRD-001")];
    let cards = TCG::read_cards(&vec![first, second]).unwrap();
    assert_eq!(cards.len(), 2);
    assert_eq!(cards.get("X").unwrap().set_code, "MRD-001");
    assert_eq!(cards.get("Y").unwrap().set_code, "LOB-002");
}

#[test]
fn read_set_adds_to_existing_cards() {
    let mut tcg = TCG::new();
    TCG::read_set(&vec![card("A", "S-1")], &mut tcg.cards).unwrap();
    TCG::read_set(&vec![card("B", "S-2"), card("A", "S-3")], &mut tcg.cards).unwrap();
    assert_eq!(tcg.cards.len(), 2);
    assert_eq!(tcg.cards.get("A").unwrap().set_code, "S-3");
    assert_eq!(tcg.cards.name_at(0), "A");
    assert_eq!(tcg.cards.name_at(1), "B");
}

#[test]
fn bad_card_file_stops_reading() {
    let sets = vec![vec![card("A", "S-1")], vec!["<Card><Name></Name></Card>".to_string(), "<Card".to_string()]];
    assert_eq!(TCG::read_cards(&sets).unwrap_err(), LoadError::EmptyField);
}

#[test]
fn card_types_are_read_by_name() {
    let files = vec![
        "<CardType><Name>Monster</Name><Parameters><P>Attack</P></Parameters></CardType>".to_string(),
        "<CardType><Name>Spell</Name></CardType>".to_string(),
    ];
    let types = TCG::read_card_types(&files).unwrap();
    assert_eq!(types.len(), 2);
    assert_eq!(types.get("Monster").unwrap().param_names, vec!["Attack".to_string()]);
    assert!(types.get("Trap").is_none());
}

#[test]
fn card_in_several_sets_keeps_the_last_defining_one() {
    let first = vec![card("X", "LOB-001"), card("Y", "LOB-002"), card("X", "LOB-003")];
    let second = vec![card("Z", "MRD-001"), card("X", "MRD-002"), card("W", "MRD-003")];
    let third = vec![card("Y", "PSV-001"), card("V", "PSV-002")];
    let cards = TCG::read_cards(&vec![first, second, third]).unwrap();
    assert_eq!(cards.len(), 5);
    assert_eq!(cards.get("X").unwrap().set_code, "MRD-002");
    assert_eq!(cards.get("X").unwrap().name, "X");
    assert_eq!(cards.get("Y").unwrap().set_code, "PSV-001");
    assert_eq!(cards.get("Z").unwrap().set_code, "MRD-001");
}
