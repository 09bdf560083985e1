//! A ruleset: its name, the copy limit, where its sets and card types are listed,
//! the sections of a deck, and the card types and cards that were loaded for it.

use crate::card::{
    card_file_error, card_file_gives, card_file_name, card_type_file_error, card_type_file_gives,
    card_type_file_name, string_views, CardInfo, CardType,
};
use crate::deck::{Deck, DeckSection, DeckSectionInfo, SectionView};
use crate::names::NameMap;
use crate::xml::{
    document_root, element_number, element_text, has_name, parse_xml, parsed_document,
    read_num_from_element, read_text_from_element, root_element, trim, trimmed, LoadError,
    XmlElement, XmlNode,
};
use vstd::prelude::*;

verus! {

/// A ruleset for one card game.
#[derive(Debug, PartialEq, Eq)]
pub struct TCG {
    pub name: String,
    /// The most copies of one card that a deck section may hold.
    pub card_limit: u32,
    /// The file that lists the directories of the card sets, one per line.
    pub set_file: String,
    /// The directory that holds one document per card type.
    pub type_directory: String,
    /// The sections of a deck, in display order.
    pub sections: Vec<DeckSectionInfo>,
    /// The cards of all sets, by name.
    pub cards: NameMap<CardInfo>,
    /// The card types, by name.
    pub card_types: NameMap<CardType>,
}

/// The description of a section with no name and all numbers zero.
pub open spec fn blank_section() -> SectionView {
    SectionView { name: Seq::empty(), group: 0, min_size: 0, max_size: 0, rows: 0, columns: 0 }
}

/// The text of a text field, or the error that reading it gives.
pub open spec fn text_field_read(e: XmlElement) -> Result<Seq<char>, LoadError> {
    if e.children@.len() == 0 {
        Err(LoadError::EmptyField)
    } else {
        Ok(element_text(e))
    }
}

/// The number in a numeric field, or the error that reading it gives.
pub open spec fn number_field_read(e: XmlElement) -> Result<u32, LoadError> {
    if e.children@.len() == 0 {
        Err(LoadError::EmptyField)
    } else {
        match element_number(e) {
            Some(n) => Ok(n),
            None => Err(LoadError::BadNumber),
        }
    }
}

/// One field of a `Subsection` element read into `s`.
pub open spec fn subsection_field_read(s: SectionView, node: XmlNode) -> Result<SectionView, LoadError> {
    match node {
        XmlNode::Element(e) => if e.name@ == "Name"@ {
            match text_field_read(e) {
                Ok(t) => Ok(SectionView { name: t, ..s }),
                Err(x) => Err(x),
            }
        } else if e.name@ == "Group"@ {
            match number_field_read(e) {
                Ok(n) => Ok(SectionView { group: n, ..s }),
                Err(x) => Err(x),
            }
        } else if e.name@ == "MinSize"@ {
            match number_field_read(e) {
                Ok(n) => Ok(SectionView { min_size: n, ..s }),
                Err(x) => Err(x),
            }
        } else if e.name@ == "MaxSize"@ {
            match number_field_read(e) {
                Ok(n) => Ok(SectionView { max_size: n, ..s }),
                Err(x) => Err(x),
            }
        } else if e.name@ == "Rows"@ {
            match number_field_read(e) {
                Ok(n) => Ok(SectionView { rows: n, ..s }),
                Err(x) => Err(x),
            }
        } else if e.name@ == "Columns"@ {
            match number_field_read(e) {
                Ok(n) => Ok(SectionView { columns: n, ..s }),
                Err(x) => Err(x),
            }
        } else {
            Ok(s)
        },
        _ => Ok(s),
    }
}

/// The section description that the children of a `Subsection` element give: each field
/// from its last element, or the first field that cannot be read.
pub open spec fn subsection_read(nodes: Seq<XmlNode>) -> Result<SectionView, LoadError>
    decreases nodes.len(),
{
    if nodes.len() == 0 {
        Ok(blank_section())
    } else {
        match subsection_read(nodes.drop_last()) {
            Ok(s) => subsection_field_read(s, nodes.last()),
            Err(x) => Err(x),
        }
    }
}

/// The section descriptions that the children of a `Deck` element give, one per
/// `Subsection` in document order, or the first error.
pub open spec fn deck_read(nodes: Seq<XmlNode>) -> Result<Seq<SectionView>, LoadError>
    decreases nodes.len(),
{
    if nodes.len() == 0 {
        Ok(Seq::empty())
    } else {
        match deck_read(nodes.drop_last()) {
            Ok(sections) => match nodes.last() {
                XmlNode::Element(e) => if e.name@ == "Subsection"@ {
                    match subsection_read(e.children@) {
                        Ok(s) => Ok(sections.push(s)),
                        Err(x) => Err(x),
                    }
                } else {
                    Ok(sections)
                },
                _ => Ok(sections),
            },
            Err(x) => Err(x),
        }
    }
}

/// The views of a list of section descriptions.
pub open spec fn section_views(v: Seq<DeckSectionInfo>) -> Seq<SectionView> {
    v.map_values(|s: DeckSectionInfo| s@)
}

proof fn lemma_section_tags_differ()
    ensures
        "Name"@ != "Group"@,
        "Name"@ != "MinSize"@,
        "Name"@ != "MaxSize"@,
        "Name"@ != "Rows"@,
        "Name"@ != "Columns"@,
        "Group"@ != "MinSize"@,
        "Group"@ != "MaxSize"@,
        "Group"@ != "Rows"@,
        "Group"@ != "Columns"@,
        "MinSize"@ != "MaxSize"@,
        "MinSize"@ != "Rows"@,
        "MinSize"@ != "Columns"@,
        "MaxSize"@ != "Rows"@,
        "MaxSize"@ != "Columns"@,
        "Rows"@ != "Columns"@,
{
    reveal_strlit("Name");
    reveal_strlit("Group");
    reveal_strlit("MinSize");
    reveal_strlit("MaxSize");
    reveal_strlit("Rows");
    reveal_strlit("Columns");
    assert("Name"@.len() == 4);
    assert("Group"@.len() == 5);
    assert("MinSize"@.len() == 7);
    assert("MaxSize"@.len() == 7);
    assert("Rows"@.len() == 4);
    assert("Columns"@.len() == 7);
    assert("Name"@[0] != "Rows"@[0]);
    assert("MinSize"@[1] != "MaxSize"@[1]);
    assert("MinSize"@[0] != "Columns"@[0]);
    assert("MaxSize"@[0] != "Columns"@[0]);
}

proof fn lemma_subsection_stops(nodes: Seq<XmlNode>, k: int)
    requires
        0 <= k <= nodes.len(),
        subsection_read(nodes.take(k)) is Err,
    ensures
        subsection_read(nodes) == subsection_read(nodes.take(k)),
    decreases nodes.len() - k,
{
    if k == nodes.len() {
        assert(nodes.take(k) =~= nodes);
    } else {
        assert(nodes.take(k + 1).drop_last() =~= nodes.take(k));
        lemma_subsection_stops(nodes, k + 1);
    }
}

proof fn lemma_deck_stops(nodes: Seq<XmlNode>, k: int)
    requires
        0 <= k <= nodes.len(),
        deck_read(nodes.take(k)) is Err,
    ensures
        deck_read(nodes) == deck_read(nodes.take(k)),
    decreases nodes.len() - k,
{
    if k == nodes.len() {
        assert(nodes.take(k) =~= nodes);
    } else {
        assert(nodes.take(k + 1).drop_last() =~= nodes.take(k));
        lemma_deck_stops(nodes, k + 1);
    }
}

/// Reads a numeric field, with the error it gives.
fn read_number_field(e: &XmlElement) -> (r: Result<u32, LoadError>)
    ensures
        r == number_field_read(*e),
{
    if e.children.len() == 0 {
        return Err(LoadError::EmptyField);
    }
    match read_num_from_element(e) {
        Some(n) => Ok(n),
        None => Err(LoadError::BadNumber),
    }
}

/// Reads a text field, with the error it gives.
fn read_text_field(e: &XmlElement) -> (r: Result<String, LoadError>)
    ensures
        match text_field_read(*e) {
            Ok(t) => r matches Ok(s) && s@ == t,
            Err(x) => r == Err::<String, LoadError>(x),
        },
{
    if e.children.len() == 0 {
        return Err(LoadError::EmptyField);
    }
    Ok(read_text_from_element(e))
}

/// Reads one `Subsection` element.
fn read_subsection(element: &XmlElement) -> (r: Result<DeckSectionInfo, LoadError>)
    ensures
        match subsection_read(element.children@) {
            Ok(s) => r matches Ok(info) && info@ == s,
            Err(x) => r == Err::<DeckSectionInfo, LoadError>(x),
        },
{
    proof { lemma_section_tags_differ(); }
    let ghost nodes = element.children@;
    let mut section = DeckSectionInfo::new();
    let mut i: usize = 0;
    while i < element.children.len()
        invariant
            i <= nodes.len(),
            nodes == element.children@,
            subsection_read(nodes.take(i as int)) == Ok::<SectionView, LoadError>(section@),
        decreases nodes.len() - i,
    {
        assert(nodes.take(i + 1).drop_last() =~= nodes.take(i as int));
        assert(nodes.take(i + 1).last() == nodes[i as int]);
        if let XmlNode::Element(field) = &element.children[i] {
            if has_name(field, "Name") {
                if field.children.len() == 0 {
                    proof { lemma_subsection_stops(nodes, i + 1); }
                    return Err(LoadError::EmptyField);
                }
                section.name = read_text_from_element(field);
            } else {
                let is_group = has_name(field, "Group");
                let is_min = has_name(field, "MinSize");
                let is_max = has_name(field, "MaxSize");
                let is_rows = has_name(field, "Rows");
                let is_columns = has_name(field, "Columns");
                if is_group || is_min || is_max || is_rows || is_columns {
                    match read_number_field(field) {
                        Ok(n) => {
                            if is_group {
                                section.group = n;
                            } else if is_min {
                                section.min_size = n;
                            } else if is_max {
                                section.max_size = n;
                            } else if is_rows {
                                section.rows = n;
                            } else {
                                section.columns = n;
                            }
                        },
                        Err(x) => {
                            proof { lemma_subsection_stops(nodes, i + 1); }
                            return Err(x);
                        },
                    }
                }
            }
        }
        i = i + 1;
    }
    assert(nodes.take(i as int) =~= nodes);
    Ok(section)
}

impl TCG {
    /// What this ruleset's own document says, as plain values.
    pub open spec fn header(&self) -> RulesetView {
        RulesetView {
            name: self.name@,
            card_limit: self.card_limit,
            set_file: self.set_file@,
            type_directory: self.type_directory@,
            sections: section_views(self.sections@),
        }
    }

    /// A ruleset with no name, no limit, no files, no sections, no cards and no types.
    pub fn new() -> (r: TCG)
        ensures
            r.header() == blank_ruleset(),
            r.cards@ == Map::<Seq<char>, CardInfo>::empty(),
            r.card_types@ == Map::<Seq<char>, CardType>::empty(),
    {
        let r = TCG {
            name: String::new(),
            card_limit: 0,
            set_file: String::new(),
            type_directory: String::new(),
            sections: Vec::new(),
            cards: NameMap::new(),
            card_types: NameMap::new(),
        };
        assert(section_views(r.sections@) =~= Seq::<SectionView>::empty());
        r
    }

    /// Reads a ruleset from the root element of its document: the name, card limit, set
    /// file, card-type directory and deck sections. Cards and card types are left empty:
    /// they come from the files that the set file and the type directory name.
    pub fn from_element(root: &XmlElement) -> (r: Result<TCG, LoadError>)
        ensures
            match ruleset_read_from(*root) {
                Ok(v) => r matches Ok(t) && t.header() == v && t.cards@ == Map::<Seq<char>, CardInfo>::empty()
                    && t.card_types@ == Map::<Seq<char>, CardType>::empty(),
                Err(x) => r == Err::<TCG, LoadError>(x),
            },
    {
        let mut result = TCG::new();
        if !has_name(root, "TCG") {
            return Ok(result);
        }
        let ghost nodes = root.children@;
        let mut i: usize = 0;
        while i < root.children.len()
            invariant
                i <= nodes.len(),
                nodes == root.children@,
                root.name@ == "TCG"@,
                ruleset_read(nodes.take(i as int)) == Ok::<RulesetView, LoadError>(result.header()),
                result.cards@ == Map::<Seq<char>, CardInfo>::empty(),
                result.card_types@ == Map::<Seq<char>, CardType>::empty(),
            decreases nodes.len() - i,
        {
            proof { lemma_ruleset_tags_differ(); }
            assert(nodes.take(i + 1).drop_last() =~= nodes.take(i as int));
            assert(nodes.take(i + 1).last() == nodes[i as int]);
            if let XmlNode::Element(field) = &root.children[i] {
                if has_name(field, "Name") {
                    match read_text_field(field) {
                        Ok(text) => result.name = text,
                        Err(x) => {
                            proof { lemma_ruleset_stops(nodes, i + 1); }
                            return Err(x);
                        },
                    }
                } else if has_name(field, "SetFile") {
                    match read_text_field(field) {
                        Ok(text) => result.set_file = text,
                        Err(x) => {
                            proof { lemma_ruleset_stops(nodes, i + 1); }
                            return Err(x);
                        },
                    }
                } else if has_name(field, "TypeDirectory") {
                    match read_text_field(field) {
                        Ok(text) => result.type_directory = text,
                        Err(x) => {
                            proof { lemma_ruleset_stops(nodes, i + 1); }
                            return Err(x);
                        },
                    }
                } else if has_name(field, "CardLimit") {
                    match read_number_field(field) {
                        Ok(n) => result.card_limit = n,
                        Err(x) => {
                            proof { lemma_ruleset_stops(nodes, i + 1); }
                            return Err(x);
                        },
                    }
                } else if has_name(field, "Deck") {
                    match TCG::read_deck(field) {
                        Ok(sections) => result.sections = sections,
                        Err(x) => {
                            proof { lemma_ruleset_stops(nodes, i + 1); }
                            return Err(x);
                        },
                    }
                }
            }
            i = i + 1;
        }
        assert(nodes.take(i as int) =~= nodes);
        Ok(result)
    }

    /// Reads a ruleset from the text of its document, as `from_element` does; a document
    /// whose first node is no element gives the empty ruleset.
    pub fn new_from_file(contents: &str) -> (r: Result<TCG, LoadError>)
        ensures
            match ruleset_file_read(contents@) {
                Ok(v) => r matches Ok(t) && t.header() == v && t.cards@ == Map::<Seq<char>, CardInfo>::empty()
                    && t.card_types@ == Map::<Seq<char>, CardType>::empty(),
                Err(x) => r == Err::<TCG, LoadError>(x),
            },
    {
        match parse_xml(contents) {
            Err(e) => Err(LoadError::Malformed(e)),
            Ok(document) => match root_element(&document) {
                Some(root) => TCG::from_element(root),
                None => Ok(TCG::new()),
            },
        }
    }

    /// The directories that the lines of a set file name: each line without its
    /// surrounding white space.
    pub fn set_directories(lines: &Vec<String>) -> (r: Vec<String>)
        ensures
            r@.len() == lines@.len(),
            forall|i: int| 0 <= i < lines@.len() ==> (#[trigger] r@[i])@ == trimmed(lines@[i]@),
    {
        let mut r: Vec<String> = Vec::new();
        let mut i: usize = 0;
        while i < lines.len()
            invariant
                i <= lines@.len(),
                r@.len() == i,
                forall|j: int| 0 <= j < i ==> (#[trigger] r@[j])@ == trimmed(lines@[j]@),
            decreases lines@.len() - i,
        {
            r.push(trim(lines[i].as_str()));
            i = i + 1;
        }
        r
    }

    /// Puts into `cards` the cards that the documents of one set describe, in the
    /// order given; a card replaces one of the same name read before it.
    pub fn read_set(set_files: &Vec<String>, cards: &mut NameMap<CardInfo>) -> (r: Result<(), LoadError>)
        ensures
            match first_file_error(string_views(set_files@), card_errors()) {
                Some(e) => r == Err::<(), LoadError>(e),
                None => r is Ok && files_loaded(
                    old(cards)@,
                    string_views(set_files@),
                    final(cards)@,
                    card_naming(),
                    card_reading(),
                ),
            },
    {
        let ghost files = string_views(set_files@);
        let ghost start = cards@;
        assert(files.take(0) =~= Seq::<Seq<char>>::empty());
        let mut i: usize = 0;
        while i < set_files.len()
            invariant
                i <= set_files@.len(),
                files == string_views(set_files@),
                start == old(cards)@,
                first_file_error(files.take(i as int), card_errors()) is None,
                files_loaded(start, files.take(i as int), cards@, card_naming(), card_reading()),
            decreases set_files@.len() - i,
        {
            assert(files.take(i + 1).drop_last() =~= files.take(i as int));
            assert(files.take(i + 1).last() == files[i as int]);
            match CardInfo::new_from_file(set_files[i].as_str()) {
                Ok(card) => {
                    let name = card.name.clone();
                    proof {
                        lemma_loaded_step(start, files, i as int, cards@, card, card_naming(), card_reading());
                    }
                    cards.insert(name, card);
                },
                Err(e) => {
                    proof { lemma_first_error_stops(files, i + 1, card_errors()); }
                    return Err(e);
                },
            }
            i = i + 1;
        }
        assert(files.take(i as int) =~= files);
        Ok(())
    }

    /// The cards of all sets, read set after set; a card replaces one of the same name
    /// read before it.
    pub fn read_cards(sets: &Vec<Vec<String>>) -> (r: Result<NameMap<CardInfo>, LoadError>)
        ensures
            match first_file_error(all_set_files(sets@), card_errors()) {
                Some(e) => r matches Err(x) && x == e,
                None => r matches Ok(m) && files_loaded(
                    Map::empty(),
                    all_set_files(sets@),
                    m@,
                    card_naming(),
                    card_reading(),
                ),
            },
    {
        let mut cards = NameMap::new();
        let mut i: usize = 0;
        while i < sets.len()
            invariant
                i <= sets@.len(),
                first_file_error(all_set_files(sets@.take(i as int)), card_errors()) is None,
                files_loaded(Map::empty(), all_set_files(sets@.take(i as int)), cards@, card_naming(), card_reading()),
            decreases sets@.len() - i,
        {
            assert(sets@.take(i + 1).drop_last() =~= sets@.take(i as int));
            assert(sets@.take(i + 1).last() == sets@[i as int]);
            let ghost before = all_set_files(sets@.take(i as int));
            let ghost mid = cards@;
            let ghost set = string_views(sets@[i as int]@);
            proof {
                lemma_first_error_concat(before, set, card_errors());
            }
            match TCG::read_set(&sets[i], &mut cards) {
                Ok(()) => {
                    proof {
                        lemma_loaded_concat(Map::empty(), before, mid, set, cards@, card_naming(), card_reading());
                    }
                },
                Err(e) => {
                    proof { lemma_set_error_stops(sets@, i + 1); }
                    return Err(e);
                },
            }
            i = i + 1;
        }
        assert(sets@.take(i as int) =~= sets@);
        Ok(cards)
    }

    /// The card types that the documents of the type directory describe, in the order
    /// given; a type replaces one of the same name read before it.
    pub fn read_card_types(type_files: &Vec<String>) -> (r: Result<NameMap<CardType>, LoadError>)
        ensures
            match first_file_error(string_views(type_files@), type_errors()) {
                Some(e) => r matches Err(x) && x == e,
                None => r matches Ok(m) && files_loaded(
                    Map::empty(),
                    string_views(type_files@),
                    m@,
                    type_naming(),
                    type_reading(),
                ),
            },
    {
        let ghost files = string_views(type_files@);
        let mut types = NameMap::new();
        assert(files.take(0) =~= Seq::<Seq<char>>::empty());
        let mut i: usize = 0;
        while i < type_files.len()
            invariant
                i <= type_files@.len(),
                files == string_views(type_files@),
                first_file_error(files.take(i as int), type_errors()) is None,
                files_loaded(Map::empty(), files.take(i as int), types@, type_naming(), type_reading()),
            decreases type_files@.len() - i,
        {
            assert(files.take(i + 1).drop_last() =~= files.take(i as int));
            assert(files.take(i + 1).last() == files[i as int]);
            match CardType::new_from_file(type_files[i].as_str()) {
                Ok(card_type) => {
                    let name = card_type.name.clone();
                    proof {
                        lemma_loaded_step(Map::empty(), files, i as int, types@, card_type, type_naming(), type_reading());
                    }
                    types.insert(name, card_type);
                },
                Err(e) => {
                    proof { lemma_first_error_stops(files, i + 1, type_errors()); }
                    return Err(e);
                },
            }
            i = i + 1;
        }
        assert(files.take(i as int) =~= files);
        Ok(types)
    }

    /// A new, unnamed deck with one empty section per section of this ruleset, in the
    /// same order.
    pub fn new_deck(&self) -> (r: Deck)
        ensures
            r.name@ == Seq::<char>::empty(),
            r.sections@.len() == self.sections@.len(),
            forall|i: int|
                0 <= i < self.sections@.len() ==> (#[trigger] r.sections@[i]).info == self.sections@[i]
                    && r.sections@[i].cards@ == Map::<Seq<char>, u32>::empty(),
    {
        let mut sections: Vec<DeckSection> = Vec::new();
        let mut i: usize = 0;
        while i < self.sections.len()
            invariant
                i <= self.sections@.len(),
                sections@.len() == i,
                forall|j: int|
                    0 <= j < i ==> (#[trigger] sections@[j]).info == self.sections@[j]
                        && sections@[j].cards@ == Map::<Seq<char>, u32>::empty(),
            decreases self.sections@.len() - i,
        {
            let mut section = DeckSection::new();
            section.info = self.sections[i].duplicate();
            sections.push(section);
            i = i + 1;
        }
        Deck { sections, name: String::new() }
    }

    /// Reads the section descriptions of a `Deck` element: one per `Subsection`, in
    /// document order, each field from its last element.
    pub fn read_deck(deck_element: &XmlElement) -> (r: Result<Vec<DeckSectionInfo>, LoadError>)
        ensures
            match deck_read(deck_element.children@) {
                Ok(sections) => r matches Ok(v) && section_views(v@) == sections,
                Err(x) => r == Err::<Vec<DeckSectionInfo>, LoadError>(x),
            },
    {
        proof {
            reveal_strlit("Subsection");
        }
        let ghost nodes = deck_element.children@;
        let mut sections: Vec<DeckSectionInfo> = Vec::new();
        assert(section_views(sections@) =~= Seq::<SectionView>::empty());
        assert(nodes.take(0) =~= Seq::<XmlNode>::empty());
        let mut i: usize = 0;
        while i < deck_element.children.len()
            invariant
                i <= nodes.len(),
                nodes == deck_element.children@,
                deck_read(nodes.take(i as int)) == Ok::<Seq<SectionView>, LoadError>(section_views(sections@)),
            decreases nodes.len() - i,
        {
            assert(nodes.take(i + 1).drop_last() =~= nodes.take(i as int));
            assert(nodes.take(i + 1).last() == nodes[i as int]);
            if let XmlNode::Element(element) = &deck_element.children[i] {
                if has_name(element, "Subsection") {
                    match read_subsection(element) {
                        Ok(section) => {
                            let ghost before = sections@;
                            sections.push(section);
                            assert(section_views(sections@) =~= section_views(before).push(section@));
                        },
                        Err(x) => {
                            proof { lemma_deck_stops(nodes, i + 1); }
                            return Err(x);
                        },
                    }
                }
            }
            i = i + 1;
        }
        assert(nodes.take(i as int) =~= nodes);
        Ok(sections)
    }
}

/// What a ruleset document says, as plain values.
pub struct RulesetView {
    pub name: Seq<char>,
    pub card_limit: u32,
    pub set_file: Seq<char>,
    pub type_directory: Seq<char>,
    pub sections: Seq<SectionView>,
}

/// The ruleset with no name, no limit, no files and no sections.
pub open spec fn blank_ruleset() -> RulesetView {
    RulesetView {
        name: Seq::empty(),
        card_limit: 0,
        set_file: Seq::empty(),
        type_directory: Seq::empty(),
        sections: Seq::empty(),
    }
}

/// One field of a `TCG` element read into `v`.
pub open spec fn ruleset_field_read(v: RulesetView, node: XmlNode) -> Result<RulesetView, LoadError> {
    match node {
        XmlNode::Element(e) => if e.name@ == "Name"@ {
            match text_field_read(e) {
                Ok(t) => Ok(RulesetView { name: t, ..v }),
                Err(x) => Err(x),
            }
        } else if e.name@ == "CardLimit"@ {
            match number_field_read(e) {
                Ok(n) => Ok(RulesetView { card_limit: n, ..v }),
                Err(x) => Err(x),
            }
        } else if e.name@ == "SetFile"@ {
            match text_field_read(e) {
                Ok(t) => Ok(RulesetView { set_file: t, ..v }),
                Err(x) => Err(x),
            }
        } else if e.name@ == "TypeDirectory"@ {
            match text_field_read(e) {
                Ok(t) => Ok(RulesetView { type_directory: t, ..v }),
                Err(x) => Err(x),
            }
        } else if e.name@ == "Deck"@ {
            match deck_read(e.children@) {
                Ok(sections) => Ok(RulesetView { sections, ..v }),
                Err(x) => Err(x),
            }
        } else {
            Ok(v)
        },
        _ => Ok(v),
    }
}

/// What the children of a `TCG` element say: each field from its last element, or the
/// first field that cannot be read.
pub open spec fn ruleset_read(nodes: Seq<XmlNode>) -> Result<RulesetView, LoadError>
    decreases nodes.len(),
{
    if nodes.len() == 0 {
        Ok(blank_ruleset())
    } else {
        match ruleset_read(nodes.drop_last()) {
            Ok(v) => ruleset_field_read(v, nodes.last()),
            Err(x) => Err(x),
        }
    }
}

/// What a ruleset's root element says: nothing where it is not called `TCG`.
pub open spec fn ruleset_read_from(root: XmlElement) -> Result<RulesetView, LoadError> {
    if root.name@ == "TCG"@ {
        ruleset_read(root.children@)
    } else {
        Ok(blank_ruleset())
    }
}

/// What the text of a ruleset document says: nothing where its first node is no element.
pub open spec fn ruleset_file_read(text: Seq<char>) -> Result<RulesetView, LoadError> {
    match parsed_document(text) {
        Err(e) => Err(LoadError::Malformed(e)),
        Ok(d) => match document_root(d) {
            Some(root) => ruleset_read_from(root),
            None => Ok(blank_ruleset()),
        },
    }
}

proof fn lemma_ruleset_tags_differ()
    ensures
        "Name"@ != "CardLimit"@,
        "Name"@ != "SetFile"@,
        "Name"@ != "TypeDirectory"@,
        "Name"@ != "Deck"@,
        "CardLimit"@ != "SetFile"@,
        "CardLimit"@ != "TypeDirectory"@,
        "CardLimit"@ != "Deck"@,
        "SetFile"@ != "TypeDirectory"@,
        "SetFile"@ != "Deck"@,
        "TypeDirectory"@ != "Deck"@,
{
    reveal_strlit("Name");
    reveal_strlit("CardLimit");
    reveal_strlit("SetFile");
    reveal_strlit("TypeDirectory");
    reveal_strlit("Deck");
    assert("Name"@.len() == 4);
    assert("CardLimit"@.len() == 9);
    assert("SetFile"@.len() == 7);
    assert("TypeDirectory"@.len() == 13);
    assert("Deck"@.len() == 4);
    assert("Name"@[0] != "Deck"@[0]);
}

proof fn lemma_ruleset_stops(nodes: Seq<XmlNode>, k: int)
    requires
        0 <= k <= nodes.len(),
        ruleset_read(nodes.take(k)) is Err,
    ensures
        ruleset_read(nodes) == ruleset_read(nodes.take(k)),
    decreases nodes.len() - k,
{
    if k == nodes.len() {
        assert(nodes.take(k) =~= nodes);
    } else {
        assert(nodes.take(k + 1).drop_last() =~= nodes.take(k));
        lemma_ruleset_stops(nodes, k + 1);
    }
}

/// Where among `files` the last one stands whose item is called `name`.
pub open spec fn last_file_named(
    files: Seq<Seq<char>>,
    name: Seq<char>,
    name_of: spec_fn(Seq<char>) -> Seq<char>,
) -> Option<int>
    decreases files.len(),
{
    if files.len() == 0 {
        None
    } else if name_of(files.last()) == name {
        Some(files.len() - 1)
    } else {
        last_file_named(files.drop_last(), name, name_of)
    }
}

/// The error of the first of `files` that cannot be read, if any.
pub open spec fn first_file_error(
    files: Seq<Seq<char>>,
    error_of: spec_fn(Seq<char>) -> Option<LoadError>,
) -> Option<LoadError>
    decreases files.len(),
{
    if files.len() == 0 {
        None
    } else {
        match first_file_error(files.drop_last(), error_of) {
            Some(e) => Some(e),
            None => error_of(files.last()),
        }
    }
}

/// Whether `after` is `before` with the items read from `files` put in by name: a name
/// that some file gives holds what the last such file gives, other names keep their
/// values.
pub open spec fn files_loaded<V>(
    before: Map<Seq<char>, V>,
    files: Seq<Seq<char>>,
    after: Map<Seq<char>, V>,
    name_of: spec_fn(Seq<char>) -> Seq<char>,
    gives: spec_fn(Seq<char>, V) -> bool,
) -> bool {
    &&& forall|k: Seq<char>|
        #[trigger] after.dom().contains(k) <==> (before.dom().contains(k) || last_file_named(files, k, name_of) is Some)
    &&& forall|k: Seq<char>|
        #[trigger] after.dom().contains(k) ==> match last_file_named(files, k, name_of) {
            Some(i) => gives(files[i], after[k]),
            None => after[k] == before[k],
        }
}

/// The name of the card in a card document.
pub open spec fn card_naming() -> spec_fn(Seq<char>) -> Seq<char> {
    |t: Seq<char>| card_file_name(t)
}

/// The error that reading a card document gives.
pub open spec fn card_errors() -> spec_fn(Seq<char>) -> Option<LoadError> {
    |t: Seq<char>| card_file_error(t)
}

/// Whether a card is what a card document gives.
pub open spec fn card_reading() -> spec_fn(Seq<char>, CardInfo) -> bool {
    |t: Seq<char>, c: CardInfo| card_file_gives(t, c)
}

/// The name of the card type in a card-type document.
pub open spec fn type_naming() -> spec_fn(Seq<char>) -> Seq<char> {
    |t: Seq<char>| card_type_file_name(t)
}

/// The error that reading a card-type document gives.
pub open spec fn type_errors() -> spec_fn(Seq<char>) -> Option<LoadError> {
    |t: Seq<char>| card_type_file_error(t)
}

/// Whether a card type is what a card-type document gives.
pub open spec fn type_reading() -> spec_fn(Seq<char>, CardType) -> bool {
    |t: Seq<char>, c: CardType| card_type_file_gives(t, c)
}

/// The texts of the files of all sets, set after set.
pub open spec fn all_set_files(sets: Seq<Vec<String>>) -> Seq<Seq<char>>
    decreases sets.len(),
{
    if sets.len() == 0 {
        Seq::empty()
    } else {
        all_set_files(sets.drop_last()) + string_views(sets.last()@)
    }
}

proof fn lemma_last_file_concat(
    a: Seq<Seq<char>>,
    b: Seq<Seq<char>>,
    k: Seq<char>,
    name_of: spec_fn(Seq<char>) -> Seq<char>,
)
    ensures
        last_file_named(a + b, k, name_of) == match last_file_named(b, k, name_of) {
            Some(j) => Some(a.len() + j),
            None => last_file_named(a, k, name_of),
        },
    decreases b.len(),
{
    if b.len() == 0 {
        assert(a + b =~= a);
    } else {
        assert((a + b).drop_last() =~= a + b.drop_last());
        assert((a + b).last() == b.last());
        lemma_last_file_concat(a, b.drop_last(), k, name_of);
    }
}

proof fn lemma_last_file_bounds(files: Seq<Seq<char>>, k: Seq<char>, name_of: spec_fn(Seq<char>) -> Seq<char>)
    ensures
        last_file_named(files, k, name_of) matches Some(i) ==> 0 <= i < files.len() && name_of(files[i]) == k,
    decreases files.len(),
{
    if files.len() > 0 {
        lemma_last_file_bounds(files.drop_last(), k, name_of);
    }
}

proof fn lemma_first_error_concat(
    a: Seq<Seq<char>>,
    b: Seq<Seq<char>>,
    error_of: spec_fn(Seq<char>) -> Option<LoadError>,
)
    ensures
        first_file_error(a + b, error_of) == match first_file_error(a, error_of) {
            Some(e) => Some(e),
            None => first_file_error(b, error_of),
        },
    decreases b.len(),
{
    if b.len() == 0 {
        assert(a + b =~= a);
    } else {
        assert((a + b).drop_last() =~= a + b.drop_last());
        assert((a + b).last() == b.last());
        lemma_first_error_concat(a, b.drop_last(), error_of);
    }
}

proof fn lemma_first_error_stops(files: Seq<Seq<char>>, k: int, error_of: spec_fn(Seq<char>) -> Option<LoadError>)
    requires
        0 <= k <= files.len(),
        first_file_error(files.take(k), error_of) is Some,
    ensures
        first_file_error(files, error_of) == first_file_error(files.take(k), error_of),
    decreases files.len() - k,
{
    if k == files.len() {
        assert(files.take(k) =~= files);
    } else {
        assert(files.take(k + 1).drop_last() =~= files.take(k));
        lemma_first_error_stops(files, k + 1, error_of);
    }
}

proof fn lemma_set_error_stops(sets: Seq<Vec<String>>, k: int)
    requires
        0 <= k <= sets.len(),
        first_file_error(all_set_files(sets.take(k)), card_errors()) is Some,
    ensures
        first_file_error(all_set_files(sets), card_errors()) == first_file_error(all_set_files(sets.take(k)), card_errors()),
    decreases sets.len() - k,
{
    if k == sets.len() {
        assert(sets.take(k) =~= sets);
    } else {
        assert(sets.take(k + 1).drop_last() =~= sets.take(k));
        assert(sets.take(k + 1).last() == sets[k]);
        lemma_first_error_concat(all_set_files(sets.take(k)), string_views(sets[k]@), card_errors());
        lemma_set_error_stops(sets, k + 1);
    }
}

proof fn lemma_loaded_step<V>(
    before: Map<Seq<char>, V>,
    files: Seq<Seq<char>>,
    i: int,
    m: Map<Seq<char>, V>,
    value: V,
    name_of: spec_fn(Seq<char>) -> Seq<char>,
    gives: spec_fn(Seq<char>, V) -> bool,
)
    requires
        0 <= i < files.len(),
        files_loaded(before, files.take(i), m, name_of, gives),
        gives(files[i], value),
    ensures
        files_loaded(before, files.take(i + 1), m.insert(name_of(files[i]), value), name_of, gives),
{
    let after = m.insert(name_of(files[i]), value);
    assert(files.take(i + 1).drop_last() =~= files.take(i));
    assert(files.take(i + 1).last() == files[i]);
    assert forall|k: Seq<char>| #[trigger] after.dom().contains(k) implies match last_file_named(files.take(i + 1), k, name_of) {
        Some(j) => gives(files.take(i + 1)[j], after[k]),
        None => after[k] == before[k],
    } by {
        if k != name_of(files[i]) {
            assert(m.dom().contains(k));
            lemma_last_file_bounds(files.take(i), k, name_of);
            if let Some(j) = last_file_named(files.take(i), k, name_of) {
                assert(files.take(i + 1)[j] == files.take(i)[j]);
            }
        }
    }
}

proof fn lemma_loaded_concat<V>(
    before: Map<Seq<char>, V>,
    a: Seq<Seq<char>>,
    mid: Map<Seq<char>, V>,
    b: Seq<Seq<char>>,
    after: Map<Seq<char>, V>,
    name_of: spec_fn(Seq<char>) -> Seq<char>,
    gives: spec_fn(Seq<char>, V) -> bool,
)
    requires
        files_loaded(before, a, mid, name_of, gives),
        files_loaded(mid, b, after, name_of, gives),
    ensures
        files_loaded(before, a + b, after, name_of, gives),
{
    assert forall|k: Seq<char>|
        #[trigger] after.dom().contains(k) <==> (before.dom().contains(k) || last_file_named(a + b, k, name_of) is Some) by {
        lemma_last_file_concat(a, b, k, name_of);
    }
    assert forall|k: Seq<char>| #[trigger] after.dom().contains(k) implies match last_file_named(a + b, k, name_of) {
        Some(i) => gives((a + b)[i], after[k]),
        None => after[k] == before[k],
    } by {
        lemma_last_file_concat(a, b, k, name_of);
        lemma_last_file_bounds(b, k, name_of);
        lemma_last_file_bounds(a, k, name_of);
        if last_file_named(b, k, name_of) is None {
            assert(mid.dom().contains(k));
        }
    }
}

proof fn lemma_set_file_position(sets: Seq<Vec<String>>, j: int, name: Seq<char>)
    requires
        0 <= j < sets.len(),
        last_file_named(string_views(sets[j]@), name, card_naming()) is Some,
        forall|k: int|
            j < k < sets.len() ==> last_file_named(string_views(#[trigger] sets[k]@), name, card_naming()) is None,
    ensures
        ({
            let p = last_file_named(string_views(sets[j]@), name, card_naming())->0;
            let at = all_set_files(sets.take(j)).len() + p;
            &&& last_file_named(all_set_files(sets), name, card_naming()) == Some(at)
            &&& all_set_files(sets)[at] == string_views(sets[j]@)[p]
        }),
    decreases sets.len(),
{
    let rest = sets.drop_last();
    let a = all_set_files(rest);
    let b = string_views(sets.last()@);
    assert(all_set_files(sets) == a + b);
    lemma_last_file_concat(a, b, name, card_naming());
    lemma_last_file_bounds(string_views(sets[j]@), name, card_naming());
    if j == sets.len() - 1 {
        assert(sets.take(j) =~= rest);
    } else {
        assert(sets[sets.len() - 1] == sets.last());
        assert forall|k: int| j < k < rest.len() implies last_file_named(
            string_views(#[trigger] rest[k]@),
            name,
            card_naming(),
        ) is None by {
            assert(rest[k] == sets[k]);
        }
        assert(rest[j] == sets[j]);
        lemma_set_file_position(rest, j, name);
        assert(rest.take(j) =~= sets.take(j));
        lemma_last_file_bounds(a, name, card_naming());
    }
}

/// Whatever the sets and however many card documents each holds, loading them in order
/// leaves one entry for a card name: the card of the last set that defines that name,
/// read from the last of its documents that does.
pub proof fn lemma_last_defining_set_wins(
    sets: Seq<Vec<String>>,
    after: Map<Seq<char>, CardInfo>,
    name: Seq<char>,
    j: int,
)
    requires
        files_loaded(Map::empty(), all_set_files(sets), after, card_naming(), card_reading()),
        0 <= j < sets.len(),
        last_file_named(string_views(sets[j]@), name, card_naming()) is Some,
        forall|k: int|
            j < k < sets.len() ==> last_file_named(string_views(#[trigger] sets[k]@), name, card_naming()) is None,
    ensures
        after.dom().contains(name),
        card_file_gives(
            string_views(sets[j]@)[last_file_named(string_views(sets[j]@), name, card_naming())->0],
            after[name],
        ),
{
    lemma_set_file_position(sets, j, name);
    let files = all_set_files(sets);
    let p = last_file_named(string_views(sets[j]@), name, card_naming())->0;
    let at = all_set_files(sets.take(j)).len() + p;
    assert(after.dom().contains(name));
    assert((card_reading())(files[at], after[name]));
    assert(files[at] == string_views(sets[j]@)[p]);
}

/// Where two sets both hold a card of some name, loading the first set and then the
/// second leaves one entry for that name: the card of the second set.
pub proof fn lemma_later_set_wins(
    before: Map<Seq<char>, CardInfo>,
    first: Seq<Seq<char>>,
    second: Seq<Seq<char>>,
    after: Map<Seq<char>, CardInfo>,
    name: Seq<char>,
)
    requires
        files_loaded(before, first + second, after, card_naming(), card_reading()),
        last_file_named(first, name, card_naming()) is Some,
        last_file_named(second, name, card_naming()) is Some,
    ensures
        after.dom().contains(name),
        card_file_gives(second[last_file_named(second, name, card_naming())->0], after[name]),
{
    lemma_last_file_concat(first, second, name, card_naming());
    lemma_last_file_bounds(second, name, card_naming());
    let j = last_file_named(second, name, card_naming())->0;
    assert((first + second)[first.len() + j] == second[j]);
}

} // verus!
