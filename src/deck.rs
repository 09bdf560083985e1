//! Decks: sections laid down by a ruleset, each a count of copies per card name,
//! with the rule that bounds those counts and the document form of a section.

use crate::names::NameMap;
use crate::xml::{
    lemma_decimal_round_trip, decimal_text, element_number, format_xml, formatted_document, has_name,
    parse_xml, parsed_document, read_num_from_element, read_raw_text_from_element, root_element,
    document_root, element_raw_text, u32_text, LoadError, XmlElement, XmlNode,
};
use vstd::prelude::*;

verus! {

/// What a ruleset says of one section of a deck (main, side, extra, ...): its name, its
/// group, the bounds on its size, and the grid in which the editor shows it.
#[derive(Clone, Debug, PartialEq, Eq)]
pub struct DeckSectionInfo {
    pub name: String,
    pub group: u32,
    /// The least number of cards in this section.
    pub min_size: u32,
    /// The greatest number of cards in this section.
    pub max_size: u32,
    /// The rows of the editor's grid for this section.
    pub rows: u32,
    /// The columns of the editor's grid for this section.
    pub columns: u32,
}

/// What a section description says, as plain values.
pub struct SectionView {
    pub name: Seq<char>,
    pub group: u32,
    pub min_size: u32,
    pub max_size: u32,
    pub rows: u32,
    pub columns: u32,
}

impl View for DeckSectionInfo {
    type V = SectionView;

    open spec fn view(&self) -> SectionView {
        SectionView {
            name: self.name@,
            group: self.group,
            min_size: self.min_size,
            max_size: self.max_size,
            rows: self.rows,
            columns: self.columns,
        }
    }
}

/// Whether `info` has no name and all numbers zero.
pub open spec fn is_blank_info(info: DeckSectionInfo) -> bool {
    &&& info.name@ == Seq::<char>::empty()
    &&& info.group == 0 && info.min_size == 0 && info.max_size == 0
    &&& info.rows == 0 && info.columns == 0
}

impl DeckSectionInfo {
    /// A section with no name and all numbers zero.
    pub fn new() -> (r: DeckSectionInfo)
        ensures
            is_blank_info(r),
    {
        DeckSectionInfo { name: String::new(), group: 0, min_size: 0, max_size: 0, rows: 0, columns: 0 }
    }

    /// An equal copy.
    pub fn duplicate(&self) -> (r: DeckSectionInfo)
        ensures
            r == *self,
    {
        DeckSectionInfo {
            name: self.name.clone(),
            group: self.group,
            min_size: self.min_size,
            max_size: self.max_size,
            rows: self.rows,
            columns: self.columns,
        }
    }
}

/// One section of a deck: what the ruleset says of it, and how many copies of each card
/// it holds.
#[derive(Debug, PartialEq, Eq)]
pub struct DeckSection {
    pub info: DeckSectionInfo,
    /// Copies held, by card name.
    pub cards: NameMap<u32>,
}

/// How the copy counts change when one copy of `card` is added under `card_limit`: a new
/// card comes in with one copy, a card below the limit gains one, a card at the limit
/// stays as it is.
pub open spec fn added_copy(cards: Map<Seq<char>, u32>, card: Seq<char>, card_limit: u32) -> Map<
    Seq<char>,
    u32,
> {
    if !cards.dom().contains(card) {
        cards.insert(card, 1)
    } else if cards[card] < card_limit {
        cards.insert(card, (cards[card] + 1) as u32)
    } else {
        cards
    }
}

/// Whether adding a copy of `card` under `card_limit` changes anything.
pub open spec fn copy_fits(cards: Map<Seq<char>, u32>, card: Seq<char>, card_limit: u32) -> bool {
    !cards.dom().contains(card) || cards[card] < card_limit
}

impl DeckSection {
    /// An empty section with an unnamed description.
    pub fn new() -> (r: DeckSection)
        ensures
            is_blank_info(r.info),
            r.cards@ == Map::<Seq<char>, u32>::empty(),
    {
        DeckSection { info: DeckSectionInfo::new(), cards: NameMap::new() }
    }

    /// Adds one copy of the card called `card` while the section holds fewer than
    /// `card_limit` copies of it; a card not yet held comes in with one copy. Tells
    /// whether a copy was added.
    pub fn add_card(&mut self, card: &str, card_limit: u32) -> (r: bool)
        ensures
            r == copy_fits(old(self).cards@, card@, card_limit),
            final(self).cards@ == added_copy(old(self).cards@, card@, card_limit),
            final(self).info == old(self).info,
    {
        match self.cards.get(card) {
            Some(copies) => {
                let copies = *copies;
                if copies < card_limit {
                    self.cards.insert(card.to_owned(), copies + 1);
                    true
                } else {
                    false
                }
            },
            None => {
                self.cards.insert(card.to_owned(), 1);
                true
            },
        }
    }
}

/// Whether `node` is an element called `tag` whose one child is the text `text`.
pub open spec fn is_text_field(node: XmlNode, tag: Seq<char>, text: Seq<char>) -> bool {
    &&& node matches XmlNode::Element(e)
    &&& e.name@ == tag
    &&& e.children@.len() == 1
    &&& e.children@[0] matches XmlNode::Text(t)
    &&& t@ == text
}

/// Whether `node` is the `Card` element for `copies` copies of the card called `card`:
/// its `Name` and then its `NumCopies` in decimal.
pub open spec fn is_card_entry(node: XmlNode, card: Seq<char>, copies: u32) -> bool {
    &&& node matches XmlNode::Element(e)
    &&& e.name@ == "Card"@
    &&& e.children@.len() == 2
    &&& is_text_field(e.children@[0], "Name"@, card)
    &&& is_text_field(e.children@[1], "NumCopies"@, decimal_text(copies as nat))
}

/// Whether `element` is the document form of a section called `name` holding `cards`: a
/// `Section` with its `Name`, then a `Cards` element with one `Card` per card name, in the
/// order of the names.
pub open spec fn is_section_element(element: XmlElement, name: Seq<char>, cards: NameMap<u32>) -> bool {
    &&& element.name@ == "Section"@
    &&& element.children@.len() == 2
    &&& is_text_field(element.children@[0], "Name"@, name)
    &&& element.children@[1] matches XmlNode::Element(list)
    &&& list.name@ == "Cards"@
    &&& list.children@.len() == cards.names().len()
    &&& forall|i: int|
        0 <= i < cards.names().len() ==> is_card_entry(
            #[trigger] list.children@[i],
            cards.names()[i],
            cards@[cards.names()[i]],
        )
}

/// An element called `tag` holding the text `text`.
fn text_field(tag: &str, text: String) -> (r: XmlNode)
    ensures
        is_text_field(r, tag@, text@),
{
    let mut children = Vec::new();
    children.push(XmlNode::Text(text));
    XmlNode::Element(XmlElement { name: tag.to_owned(), children })
}

impl DeckSection {
    /// The document form of this section: its name and, per card, the name and the
    /// number of copies.
    pub fn to_element(&self) -> (r: XmlElement)
        ensures
            is_section_element(r, self.info.name@, self.cards),
    {
        let count = self.cards.len();
        let mut entries: Vec<XmlNode> = Vec::new();
        let mut i: usize = 0;
        while i < count
            invariant
                count == self.cards.names().len(),
                i <= count,
                entries@.len() == i,
                forall|j: int|
                    0 <= j < i ==> is_card_entry(
                        #[trigger] entries@[j],
                        self.cards.names()[j],
                        self.cards@[self.cards.names()[j]],
                    ),
            decreases count - i,
        {
            let copies = *self.cards.value_at(i);
            let mut fields = Vec::new();
            fields.push(text_field("Name", self.cards.name_at(i).clone()));
            fields.push(text_field("NumCopies", u32_text(copies)));
            entries.push(XmlNode::Element(XmlElement { name: "Card".to_owned(), children: fields }));
            i = i + 1;
        }
        let mut children = Vec::new();
        children.push(text_field("Name", self.info.name.clone()));
        children.push(XmlNode::Element(XmlElement { name: "Cards".to_owned(), children: entries }));
        XmlElement { name: "Section".to_owned(), children }
    }

    /// The text of this section's document, as sxd_document writes it; `None` where the
    /// writer reports an error.
    pub fn document_text(&self) -> (r: Option<String>)
        ensures
            exists|e: XmlElement|
                is_section_element(e, self.info.name@, self.cards) && match r {
                    Some(s) => formatted_document(e) == Some(s@),
                    None => formatted_document(e) is None,
                },
    {
        let element = self.to_element();
        format_xml(&element)
    }
}

/// One field of a `Card` element read into `entry`, the name and copies so far.
pub open spec fn card_field_read(entry: (Seq<char>, u32), node: XmlNode) -> Result<(Seq<char>, u32), LoadError> {
    match node {
        XmlNode::Element(e) => if e.name@ == "Name"@ {
            if e.children@.len() == 0 {
                Err(LoadError::EmptyField)
            } else {
                Ok((element_raw_text(e), entry.1))
            }
        } else if e.name@ == "NumCopies"@ {
            if e.children@.len() == 0 {
                Err(LoadError::EmptyField)
            } else {
                match element_number(e) {
                    Some(n) => Ok((entry.0, n)),
                    None => Err(LoadError::BadNumber),
                }
            }
        } else {
            Ok(entry)
        },
        _ => Ok(entry),
    }
}

/// The card name and copies that the children of a `Card` element give: those of its
/// last `Name` (as it stands) and `NumCopies` fields (nothing and zero where there is none), or the
/// first field that cannot be read.
pub open spec fn card_entry_read(nodes: Seq<XmlNode>) -> Result<(Seq<char>, u32), LoadError>
    decreases nodes.len(),
{
    if nodes.len() == 0 {
        Ok((Seq::empty(), 0))
    } else {
        match card_entry_read(nodes.drop_last()) {
            Ok(entry) => card_field_read(entry, nodes.last()),
            Err(e) => Err(e),
        }
    }
}

/// The copy counts that the children of a `Cards` element give on top of `cards`: each
/// `Card` in turn sets the count of its card, or the first error.
pub open spec fn card_list_read(nodes: Seq<XmlNode>, cards: Map<Seq<char>, u32>) -> Result<
    Map<Seq<char>, u32>,
    LoadError,
>
    decreases nodes.len(),
{
    if nodes.len() == 0 {
        Ok(cards)
    } else {
        match card_list_read(nodes.drop_last(), cards) {
            Ok(m) => match nodes.last() {
                XmlNode::Element(e) => if e.name@ == "Card"@ {
                    match card_entry_read(e.children@) {
                        Ok(entry) => Ok(m.insert(entry.0, entry.1)),
                        Err(x) => Err(x),
                    }
                } else {
                    Ok(m)
                },
                _ => Ok(m),
            },
            Err(x) => Err(x),
        }
    }
}

/// The name and copy counts that the children of a `Section` element give: the text of
/// the last `Name` as it stands, and the cards of every `Cards` element in turn; or the first error.
pub open spec fn section_read(nodes: Seq<XmlNode>) -> Result<(Seq<char>, Map<Seq<char>, u32>), LoadError>
    decreases nodes.len(),
{
    if nodes.len() == 0 {
        Ok((Seq::empty(), Map::empty()))
    } else {
        match section_read(nodes.drop_last()) {
            Ok(acc) => match nodes.last() {
                XmlNode::Element(e) => if e.name@ == "Name"@ {
                    if e.children@.len() == 0 {
                        Err(LoadError::EmptyField)
                    } else {
                        Ok((element_raw_text(e), acc.1))
                    }
                } else if e.name@ == "Cards"@ {
                    match card_list_read(e.children@, acc.1) {
                        Ok(m) => Ok((acc.0, m)),
                        Err(x) => Err(x),
                    }
                } else {
                    Ok(acc)
                },
                _ => Ok(acc),
            },
            Err(x) => Err(x),
        }
    }
}

/// Whether `section` is what reading `root` gives: an element not called `Section` gives
/// an empty section, and otherwise its name and copy counts are those of `section_read`.
pub open spec fn section_read_from(section: DeckSection, root: XmlElement) -> bool {
    &&& section.info.group == 0 && section.info.min_size == 0 && section.info.max_size == 0
    &&& section.info.rows == 0 && section.info.columns == 0
    &&& if root.name@ == "Section"@ {
        section_read(root.children@) == Ok::<(Seq<char>, Map<Seq<char>, u32>), LoadError>(
            (section.info.name@, section.cards@),
        )
    } else {
        section.info.name@ == Seq::<char>::empty() && section.cards@ == Map::<Seq<char>, u32>::empty()
    }
}

proof fn lemma_tags_differ()
    ensures
        "Name"@ != "NumCopies"@,
        "Name"@ != "Cards"@,
        "Name"@ != "Card"@,
        "Card"@ != "Cards"@,
{
    reveal_strlit("Name");
    reveal_strlit("NumCopies");
    reveal_strlit("Cards");
    reveal_strlit("Card");
    assert("Name"@.len() == 4);
    assert("NumCopies"@.len() == 9);
    assert("Cards"@.len() == 5);
    assert("Card"@.len() == 4);
    assert("Name"@[0] != "Card"@[0]);
}

proof fn lemma_card_entry_stops(nodes: Seq<XmlNode>, k: int)
    requires
        0 <= k <= nodes.len(),
        card_entry_read(nodes.take(k)) is Err,
    ensures
        card_entry_read(nodes) == card_entry_read(nodes.take(k)),
    decreases nodes.len() - k,
{
    if k == nodes.len() {
        assert(nodes.take(k) =~= nodes);
    } else {
        assert(nodes.take(k + 1).drop_last() =~= nodes.take(k));
        lemma_card_entry_stops(nodes, k + 1);
    }
}

proof fn lemma_card_list_stops(nodes: Seq<XmlNode>, cards: Map<Seq<char>, u32>, k: int)
    requires
        0 <= k <= nodes.len(),
        card_list_read(nodes.take(k), cards) is Err,
    ensures
        card_list_read(nodes, cards) == card_list_read(nodes.take(k), cards),
    decreases nodes.len() - k,
{
    if k == nodes.len() {
        assert(nodes.take(k) =~= nodes);
    } else {
        assert(nodes.take(k + 1).drop_last() =~= nodes.take(k));
        lemma_card_list_stops(nodes, cards, k + 1);
    }
}

proof fn lemma_section_stops(nodes: Seq<XmlNode>, k: int)
    requires
        0 <= k <= nodes.len(),
        section_read(nodes.take(k)) is Err,
    ensures
        section_read(nodes) == section_read(nodes.take(k)),
    decreases nodes.len() - k,
{
    if k == nodes.len() {
        assert(nodes.take(k) =~= nodes);
    } else {
        assert(nodes.take(k + 1).drop_last() =~= nodes.take(k));
        lemma_section_stops(nodes, k + 1);
    }
}

/// Reads the name and copies of one `Card` element.
fn read_card_entry(card: &XmlElement) -> (r: Result<(String, u32), LoadError>)
    ensures
        match card_entry_read(card.children@) {
            Ok(entry) => r matches Ok(got) && got.0@ == entry.0 && got.1 == entry.1,
            Err(e) => r == Err::<(String, u32), LoadError>(e),
        },
{
    proof { lemma_tags_differ(); }
    let ghost nodes = card.children@;
    let mut name = String::new();
    let mut copies: u32 = 0;
    let mut i: usize = 0;
    while i < card.children.len()
        invariant
            i <= nodes.len(),
            nodes == card.children@,
            card_entry_read(nodes.take(i as int)) == Ok::<(Seq<char>, u32), LoadError>((name@, copies)),
        decreases nodes.len() - i,
    {
        assert(nodes.take(i + 1).drop_last() =~= nodes.take(i as int));
        assert(nodes.take(i + 1).last() == nodes[i as int]);
        if let XmlNode::Element(field) = &card.children[i] {
            if has_name(field, "Name") {
                if field.children.len() == 0 {
                    proof { lemma_card_entry_stops(nodes, i + 1); }
                    return Err(LoadError::EmptyField);
                }
                name = read_raw_text_from_element(field);
            } else if has_name(field, "NumCopies") {
                if field.children.len() == 0 {
                    proof { lemma_card_entry_stops(nodes, i + 1); }
                    return Err(LoadError::EmptyField);
                }
                match read_num_from_element(field) {
                    Some(n) => copies = n,
                    None => {
                        proof { lemma_card_entry_stops(nodes, i + 1); }
                        return Err(LoadError::BadNumber);
                    },
                }
            }
        }
        i = i + 1;
    }
    assert(nodes.take(i as int) =~= nodes);
    Ok((name, copies))
}

/// Reads the `Card` elements of a `Cards` element into `cards`.
fn read_card_list(list: &XmlElement, cards: &mut NameMap<u32>) -> (r: Result<(), LoadError>)
    ensures
        match card_list_read(list.children@, old(cards)@) {
            Ok(m) => r is Ok && final(cards)@ == m,
            Err(e) => r == Err::<(), LoadError>(e),
        },
{
    proof { lemma_tags_differ(); }
    let ghost nodes = list.children@;
    let ghost start = cards@;
    let mut i: usize = 0;
    while i < list.children.len()
        invariant
            i <= nodes.len(),
            nodes == list.children@,
            start == old(cards)@,
            card_list_read(nodes.take(i as int), start) == Ok::<Map<Seq<char>, u32>, LoadError>(cards@),
        decreases nodes.len() - i,
    {
        assert(nodes.take(i + 1).drop_last() =~= nodes.take(i as int));
        assert(nodes.take(i + 1).last() == nodes[i as int]);
        if let XmlNode::Element(card) = &list.children[i] {
            if has_name(card, "Card") {
                match read_card_entry(card) {
                    Ok(entry) => cards.insert(entry.0, entry.1),
                    Err(e) => {
                        proof { lemma_card_list_stops(nodes, start, i + 1); }
                        return Err(e);
                    },
                }
            }
        }
        i = i + 1;
    }
    assert(nodes.take(i as int) =~= nodes);
    Ok(())
}

impl DeckSection {
    /// Reads a section back from its document form. An element not called `Section`
    /// gives an empty section.
    pub fn from_element(root: &XmlElement) -> (r: Result<DeckSection, LoadError>)
        ensures
            match r {
                Ok(section) => section_read_from(section, *root),
                Err(e) => root.name@ == "Section"@ && section_read(root.children@) == Err::<
                    (Seq<char>, Map<Seq<char>, u32>),
                    LoadError,
                >(e),
            },
    {
        let mut result = DeckSection::new();
        if !has_name(root, "Section") {
            return Ok(result);
        }
        proof { lemma_tags_differ(); }
        let ghost nodes = root.children@;
        let mut i: usize = 0;
        while i < root.children.len()
            invariant
                i <= nodes.len(),
                nodes == root.children@,
                root.name@ == "Section"@,
                result.info.group == 0 && result.info.min_size == 0 && result.info.max_size == 0,
                result.info.rows == 0 && result.info.columns == 0,
                section_read(nodes.take(i as int)) == Ok::<(Seq<char>, Map<Seq<char>, u32>), LoadError>(
                    (result.info.name@, result.cards@),
                ),
            decreases nodes.len() - i,
        {
            assert(nodes.take(i + 1).drop_last() =~= nodes.take(i as int));
            assert(nodes.take(i + 1).last() == nodes[i as int]);
            if let XmlNode::Element(field) = &root.children[i] {
                if has_name(field, "Name") {
                    if field.children.len() == 0 {
                        proof { lemma_section_stops(nodes, i + 1); }
                        return Err(LoadError::EmptyField);
                    }
                    result.info.name = read_raw_text_from_element(field);
                } else if has_name(field, "Cards") {
                    match read_card_list(field, &mut result.cards) {
                        Ok(()) => {},
                        Err(e) => {
                            proof { lemma_section_stops(nodes, i + 1); }
                            return Err(e);
                        },
                    }
                }
            }
            i = i + 1;
        }
        assert(nodes.take(i as int) =~= nodes);
        Ok(result)
    }

    /// Reads a section from the text of its document. A document whose first node is no
    /// element gives an empty section.
    pub fn new_from_file(contents: &str) -> (r: Result<DeckSection, LoadError>)
        ensures
            match parsed_document(contents@) {
                Err(e) => r == Err::<DeckSection, LoadError>(LoadError::Malformed(e)),
                Ok(d) => match document_root(d) {
                    Some(root) => match r {
                        Ok(section) => section_read_from(section, root),
                        Err(e) => root.name@ == "Section"@ && section_read(root.children@) == Err::<
                            (Seq<char>, Map<Seq<char>, u32>),
                            LoadError,
                        >(e),
                    },
                    None => r matches Ok(section) && is_blank_info(section.info) && section.cards@
                        == Map::<Seq<char>, u32>::empty(),
                },
            },
    {
        match parse_xml(contents) {
            Err(e) => Err(LoadError::Malformed(e)),
            Ok(document) => match root_element(&document) {
                Some(root) => DeckSection::from_element(root),
                None => Ok(DeckSection::new()),
            },
        }
    }
}

/// Adding a card that a section does not hold yet puts it in with one copy.
pub proof fn lemma_add_new_card(cards: Map<Seq<char>, u32>, card: Seq<char>, card_limit: u32)
    requires
        !cards.dom().contains(card),
    ensures
        copy_fits(cards, card, card_limit),
        added_copy(cards, card, card_limit) == cards.insert(card, 1),
        added_copy(cards, card, card_limit)[card] == 1,
{
}

/// Adding a card held below the limit raises its count by exactly one and changes
/// nothing else.
pub proof fn lemma_add_below_limit(cards: Map<Seq<char>, u32>, card: Seq<char>, card_limit: u32)
    requires
        cards.dom().contains(card),
        cards[card] < card_limit,
    ensures
        copy_fits(cards, card, card_limit),
        added_copy(cards, card, card_limit)[card] == cards[card] + 1,
        added_copy(cards, card, card_limit).dom() == cards.dom(),
        forall|other: Seq<char>|
            other != card && cards.dom().contains(other) ==> #[trigger] added_copy(cards, card, card_limit)[other]
                == cards[other],
{
    assert(cards.insert(card, (cards[card] + 1) as u32).dom() =~= cards.dom());
}

/// Adding a card already held at the limit leaves the counts as they are.
pub proof fn lemma_add_at_limit(cards: Map<Seq<char>, u32>, card: Seq<char>, card_limit: u32)
    requires
        cards.dom().contains(card),
        cards[card] == card_limit,
    ensures
        !copy_fits(cards, card, card_limit),
        added_copy(cards, card, card_limit) == cards,
{
}

/// With a limit of at least one, adding a copy keeps every count within the limit.
pub proof fn lemma_add_keeps_limit(cards: Map<Seq<char>, u32>, card: Seq<char>, card_limit: u32)
    requires
        card_limit >= 1,
        forall|k: Seq<char>| #[trigger] cards.dom().contains(k) ==> cards[k] <= card_limit,
    ensures
        forall|k: Seq<char>|
            #[trigger] added_copy(cards, card, card_limit).dom().contains(k) ==> added_copy(cards, card, card_limit)[k]
                <= card_limit,
{
}

proof fn lemma_card_entry_of(e: XmlElement, card: Seq<char>, copies: u32)
    requires
        is_card_entry(XmlNode::Element(e), card, copies),
    ensures
        card_entry_read(e.children@) == Ok::<(Seq<char>, u32), LoadError>((card, copies)),
{
    lemma_tags_differ();
    lemma_decimal_round_trip(copies);
    let nodes = e.children@;
    assert(nodes.drop_last().drop_last() =~= Seq::<XmlNode>::empty());
    assert(nodes.drop_last().last() == nodes[0]);
    assert(card_entry_read(nodes.drop_last().drop_last()) == Ok::<(Seq<char>, u32), LoadError>((Seq::empty(), 0)));
    if let XmlNode::Element(name_field) = nodes[0] {
        assert(element_raw_text(name_field) == card);
    }
    if let XmlNode::Element(copies_field) = nodes[1] {
        assert(element_number(copies_field) == Some(copies));
    }
    assert(card_entry_read(nodes.drop_last()) == Ok::<(Seq<char>, u32), LoadError>((card, 0)));
}

proof fn lemma_card_list_of(nodes: Seq<XmlNode>, names: Seq<Seq<char>>, counts: Map<Seq<char>, u32>, k: int)
    requires
        nodes.len() == names.len(),
        0 <= k <= nodes.len(),
        forall|i: int| 0 <= i < nodes.len() ==> is_card_entry(#[trigger] nodes[i], names[i], counts[names[i]]),
    ensures
        card_list_read(nodes.take(k), Map::empty()) == Ok::<Map<Seq<char>, u32>, LoadError>(
            Map::new(|key: Seq<char>| names.take(k).contains(key), |key: Seq<char>| counts[key]),
        ),
    decreases k,
{
    lemma_tags_differ();
    if k == 0 {
        assert(Map::new(|key: Seq<char>| names.take(0).contains(key), |key: Seq<char>| counts[key])
            =~= Map::<Seq<char>, u32>::empty());
    } else {
        lemma_card_list_of(nodes, names, counts, k - 1);
        assert(nodes.take(k).drop_last() =~= nodes.take(k - 1));
        assert(nodes.take(k).last() == nodes[k - 1]);
        let node = nodes[k - 1];
        assert(is_card_entry(node, names[k - 1], counts[names[k - 1]]));
        if let XmlNode::Element(e) = node {
            lemma_card_entry_of(e, names[k - 1], counts[names[k - 1]]);
        }
        assert(names.take(k) =~= names.take(k - 1).push(names[k - 1]));
        assert forall|key: Seq<char>|
            names.take(k).contains(key) <==> (names.take(k - 1).contains(key) || key == names[k - 1]) by {
            if names.take(k).contains(key) {
                let j = choose|j: int| 0 <= j < k && #[trigger] names.take(k)[j] == key;
                if j < k - 1 {
                    assert(names.take(k - 1)[j] == key);
                }
            }
            if names.take(k - 1).contains(key) {
                let j = choose|j: int| 0 <= j < k - 1 && #[trigger] names.take(k - 1)[j] == key;
                assert(names.take(k)[j] == key);
            }
            if key == names[k - 1] {
                assert(names.take(k)[k - 1] == key);
            }
        }
        let before = Map::new(|key: Seq<char>| names.take(k - 1).contains(key), |key: Seq<char>| counts[key]);
        let after = Map::new(|key: Seq<char>| names.take(k).contains(key), |key: Seq<char>| counts[key]);
        assert(before.insert(names[k - 1], counts[names[k - 1]]) =~= after);
    }
}

/// Reading back the document form of a section gives its name and the same copy count
/// for each card, whatever order the cards stand in.
pub proof fn lemma_section_round_trip(element: XmlElement, section: DeckSection)
    requires
        section.cards.names_cover(),
        is_section_element(element, section.info.name@, section.cards),
    ensures
        section_read(element.children@) == Ok::<(Seq<char>, Map<Seq<char>, u32>), LoadError>(
            (section.info.name@, section.cards@),
        ),
{
    lemma_tags_differ();
    let nodes = element.children@;
    let names = section.cards.names();
    let counts = section.cards@;
    if let XmlNode::Element(list) = nodes[1] {
        lemma_card_list_of(list.children@, names, counts, names.len() as int);
        assert(list.children@.take(names.len() as int) =~= list.children@);
        assert(names.take(names.len() as int) =~= names);
        assert(Map::new(|key: Seq<char>| names.contains(key), |key: Seq<char>| counts[key]) =~= counts);
    }
    assert(nodes.drop_last().drop_last() =~= Seq::<XmlNode>::empty());
    assert(nodes.drop_last().last() == nodes[0]);
    assert(section_read(nodes.drop_last().drop_last()) == Ok::<(Seq<char>, Map<Seq<char>, u32>), LoadError>(
        (Seq::empty(), Map::empty()),
    ));
    if let XmlNode::Element(name_field) = nodes[0] {
        assert(element_raw_text(name_field) == section.info.name@);
    }
    assert(section_read(nodes.drop_last()) == Ok::<(Seq<char>, Map<Seq<char>, u32>), LoadError>(
        (section.info.name@, Map::empty()),
    ));
}

/// A deck: its name and its sections, in the order that the ruleset gives them.
#[derive(Debug, PartialEq, Eq)]
pub struct Deck {
    pub sections: Vec<DeckSection>,
    pub name: String,
}

impl Deck {
    /// Adds one copy of `card` to the section at `index`, under `card_limit`, as
    /// `DeckSection::add_card` does; the other sections stay as they are.
    pub fn add_card_to_section(&mut self, index: usize, card: &str, card_limit: u32) -> (r: bool)
        requires
            index < old(self).sections@.len(),
        ensures
            r == copy_fits(old(self).sections@[index as int].cards@, card@, card_limit),
            final(self).sections@.len() == old(self).sections@.len(),
            final(self).sections@[index as int].cards@ == added_copy(
                old(self).sections@[index as int].cards@,
                card@,
                card_limit,
            ),
            final(self).sections@[index as int].info == old(self).sections@[index as int].info,
            forall|j: int|
                0 <= j < old(self).sections@.len() && j != index ==> final(self).sections@[j]
                    == old(self).sections@[j],
            final(self).name == old(self).name,
    {
        let mut section = self.sections.remove(index);
        let r = section.add_card(card, card_limit);
        self.sections.insert(index, section);
        r
    }
}

} // verus!
