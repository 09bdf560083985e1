//! Card types and cards, each read from a document of its own.

use crate::names::NameMap;
use crate::xml::{
    field_text, has_name, is_empty_field, parse_xml, parsed_document, read_text_from_element,
    root_element, document_root, element_text, LoadError, XmlElement, XmlNode,
};
use vstd::prelude::*;

verus! {

/// The schema of a kind of card: its name and the names of its numeric parameters.
#[derive(Debug, PartialEq, Eq)]
pub struct CardType {
    pub name: String,
    pub param_names: Vec<String>,
}

/// The texts of the elements among `nodes`, in order.
pub open spec fn element_texts(nodes: Seq<XmlNode>) -> Seq<Seq<char>>
    decreases nodes.len(),
{
    if nodes.len() == 0 {
        Seq::empty()
    } else {
        let rest = element_texts(nodes.drop_last());
        match nodes.last() {
            XmlNode::Element(e) => rest.push(element_text(e)),
            _ => rest,
        }
    }
}

/// The parameter names that the `Parameters` elements among `nodes` list, in order.
pub open spec fn listed_params(nodes: Seq<XmlNode>) -> Seq<Seq<char>>
    decreases nodes.len(),
{
    if nodes.len() == 0 {
        Seq::empty()
    } else {
        let rest = listed_params(nodes.drop_last());
        match nodes.last() {
            XmlNode::Element(e) => if e.name@ == "Parameters"@ {
                rest + element_texts(e.children@)
            } else {
                rest
            },
            _ => rest,
        }
    }
}

/// Whether `node` is an element with nothing inside.
pub open spec fn is_empty_element(node: XmlNode) -> bool {
    node matches XmlNode::Element(p) && p.children@.len() == 0
}

/// Whether `node` is a `Parameters` element that holds an empty element.
pub open spec fn has_empty_param(node: XmlNode) -> bool {
    node matches XmlNode::Element(e) && e.name@ == "Parameters"@ && exists|j: int|
        0 <= j < e.children@.len() && is_empty_element(#[trigger] e.children@[j])
}

/// Whether a card-type element cannot be read: a field in it is an empty element.
pub open spec fn card_type_unreadable(root: XmlElement) -> bool {
    root.name@ == "CardType"@ && exists|i: int|
        0 <= i < root.children@.len() && (is_empty_field(#[trigger] root.children@[i], "Name"@)
            || has_empty_param(root.children@[i]))
}

/// The views of a list of strings.
pub open spec fn string_views(v: Seq<String>) -> Seq<Seq<char>> {
    v.map_values(|s: String| s@)
}

/// Whether `t` is what reading the card-type element `root` gives.
pub open spec fn card_type_read_from(t: CardType, root: XmlElement) -> bool {
    if root.name@ == "CardType"@ {
        &&& t.name@ == field_text(root.children@, "Name"@)
        &&& string_views(t.param_names@) == listed_params(root.children@)
    } else {
        t.name@ == Seq::<char>::empty() && t.param_names@.len() == 0
    }
}

/// The error that reading a card-type document from `text` gives, if any.
pub open spec fn card_type_file_error(text: Seq<char>) -> Option<LoadError> {
    match parsed_document(text) {
        Err(e) => Some(LoadError::Malformed(e)),
        Ok(d) => match document_root(d) {
            Some(root) => if card_type_unreadable(root) {
                Some(LoadError::EmptyField)
            } else {
                None
            },
            None => None,
        },
    }
}

/// Whether `t` is what reading a card-type document from `text` gives.
pub open spec fn card_type_file_gives(text: Seq<char>, t: CardType) -> bool {
    match parsed_document(text) {
        Err(_) => false,
        Ok(d) => match document_root(d) {
            Some(root) => card_type_read_from(t, root),
            None => t.name@ == Seq::<char>::empty() && t.param_names@.len() == 0,
        },
    }
}

/// The name of the card type that a document with this text describes.
pub open spec fn card_type_file_name(text: Seq<char>) -> Seq<char> {
    match parsed_document(text) {
        Ok(d) => match document_root(d) {
            Some(root) => if root.name@ == "CardType"@ {
                field_text(root.children@, "Name"@)
            } else {
                Seq::empty()
            },
            None => Seq::empty(),
        },
        Err(_) => Seq::empty(),
    }
}

impl CardType {
    /// A card type with no name and no parameters.
    pub fn new() -> (r: CardType)
        ensures
            r.name@ == Seq::<char>::empty(),
            r.param_names@.len() == 0,
    {
        CardType { name: String::new(), param_names: Vec::new() }
    }

    /// Reads a card type from the root element of its document. An element not called
    /// `CardType` gives the empty card type; otherwise the name is the text of the last
    /// `Name` element, and the parameters are the texts of the elements inside each
    /// `Parameters` element, in document order.
    #[verifier::loop_isolation(false)]
    pub fn from_element(root: &XmlElement) -> (r: Result<CardType, LoadError>)
        ensures
            card_type_unreadable(*root) <==> r is Err,
            r matches Err(e) ==> e == LoadError::EmptyField,
            r matches Ok(t) ==> card_type_read_from(t, *root),
    {
        let mut result = CardType::new();
        if !has_name(root, "CardType") {
            return Ok(result);
        }
        let ghost nodes = root.children@;
        proof {
            reveal_strlit("Name");
            reveal_strlit("Parameters");
            assert("Name"@.len() == 4);
            assert("Parameters"@.len() == 10);
        }
        let mut i: usize = 0;
        while i < root.children.len()
            invariant
                i <= nodes.len(),
                nodes == root.children@,
                root.name@ == "CardType"@,
                result.name@ == field_text(nodes.take(i as int), "Name"@),
                string_views(result.param_names@) == listed_params(nodes.take(i as int)),
                forall|k: int|
                    0 <= k < i ==> !is_empty_field(#[trigger] nodes[k], "Name"@) && !has_empty_param(nodes[k]),
            decreases nodes.len() - i,
        {
            assert(nodes.take(i + 1).drop_last() =~= nodes.take(i as int));
            assert(nodes.take(i + 1).last() == nodes[i as int]);
            if let XmlNode::Element(element) = &root.children[i] {
                if has_name(element, "Name") {
                    if element.children.len() == 0 {
                        return Err(LoadError::EmptyField);
                    }
                    result.name = read_text_from_element(element);
                } else if has_name(element, "Parameters") {
                    let ghost before = result.param_names@;
                    let mut j: usize = 0;
                    while j < element.children.len()
                        invariant
                            j <= element.children@.len(),
                            result.name@ == field_text(nodes.take(i as int), "Name"@),
                            string_views(result.param_names@) == string_views(before) + element_texts(element.children@.take(j as int)),
                            forall|k: int| 0 <= k < j ==> !is_empty_element(#[trigger] element.children@[k]),
                        decreases element.children@.len() - j,
                    {
                        assert(element.children@.take(j + 1).drop_last() =~= element.children@.take(j as int));
                        assert(element.children@.take(j + 1).last() == element.children@[j as int]);
                        if let XmlNode::Element(param) = &element.children[j] {
                            if param.children.len() == 0 {
                                assert(is_empty_element(element.children@[j as int]));
                                assert(has_empty_param(nodes[i as int]));
                                return Err(LoadError::EmptyField);
                            }
                            let text = read_text_from_element(param);
                            let ghost mid = result.param_names@;
                            result.param_names.push(text);
                            assert(string_views(result.param_names@) =~= string_views(mid).push(text@));
                        }
                        j = j + 1;
                    }
                    assert(element.children@.take(j as int) =~= element.children@);
                    assert(string_views(result.param_names@) == string_views(before) + element_texts(element.children@));
                    assert(!has_empty_param(nodes[i as int]));
                }
            }
            assert(!is_empty_field(nodes[i as int], "Name"@) && !has_empty_param(nodes[i as int]));
            i = i + 1;
        }
        assert(nodes.take(i as int) =~= nodes);
        Ok(result)
    }

    /// Reads a card type from the text of its document.
    pub fn new_from_file(contents: &str) -> (r: Result<CardType, LoadError>)
        ensures
            match r {
                Ok(t) => card_type_file_error(contents@) is None && card_type_file_gives(contents@, t),
                Err(e) => card_type_file_error(contents@) == Some(e),
            },
    {
        match parse_xml(contents) {
            Err(e) => Err(LoadError::Malformed(e)),
            Ok(document) => match root_element(&document) {
                Some(root) => CardType::from_element(root),
                None => Ok(CardType::new()),
            },
        }
    }
}

/// The information on a card that deck editing needs: its name, type, parameter values,
/// and the set it comes from. The set code also names the card's image.
#[derive(Debug, PartialEq, Eq)]
pub struct CardInfo {
    pub name: String,
    pub card_type: CardType,
    pub param_values: NameMap<i32>,
    pub set_name: String,
    pub set_code: String,
}

/// Whether a card element cannot be read: one of its fields is an empty element.
pub open spec fn card_unreadable(root: XmlElement) -> bool {
    exists|i: int|
        0 <= i < root.children@.len() && (is_empty_field(#[trigger] root.children@[i], "Name"@)
            || is_empty_field(root.children@[i], "SetCode"@) || is_empty_field(
            root.children@[i],
            "SetName"@,
        ))
}

/// What a card read from `root` holds: the texts of its last `Name`, `SetCode` and
/// `SetName` elements, with an empty type and no parameter values.
pub open spec fn card_read_from(card: CardInfo, root: XmlElement) -> bool {
    &&& card.name@ == field_text(root.children@, "Name"@)
    &&& card.set_code@ == field_text(root.children@, "SetCode"@)
    &&& card.set_name@ == field_text(root.children@, "SetName"@)
    &&& card.card_type.name@ == Seq::<char>::empty()
    &&& card.card_type.param_names@.len() == 0
    &&& card.param_values@ == Map::<Seq<char>, i32>::empty()
}

/// Whether `card` is the empty card of `CardInfo::new`.
pub open spec fn is_blank_card(card: CardInfo) -> bool {
    &&& card.name@ == Seq::<char>::empty()
    &&& card.set_code@ == Seq::<char>::empty()
    &&& card.set_name@ == Seq::<char>::empty()
    &&& card.card_type.name@ == Seq::<char>::empty()
    &&& card.card_type.param_names@.len() == 0
    &&& card.param_values@ == Map::<Seq<char>, i32>::empty()
}

/// The error that reading a card document from `text` gives, if any.
pub open spec fn card_file_error(text: Seq<char>) -> Option<LoadError> {
    match parsed_document(text) {
        Err(e) => Some(LoadError::Malformed(e)),
        Ok(d) => match document_root(d) {
            Some(root) => if card_unreadable(root) {
                Some(LoadError::EmptyField)
            } else {
                None
            },
            None => None,
        },
    }
}

/// Whether `card` is what reading a card document from `text` gives.
pub open spec fn card_file_gives(text: Seq<char>, card: CardInfo) -> bool {
    match parsed_document(text) {
        Err(_) => false,
        Ok(d) => match document_root(d) {
            Some(root) => card_read_from(card, root),
            None => is_blank_card(card),
        },
    }
}

/// The name of the card that a document with this text describes.
pub open spec fn card_file_name(text: Seq<char>) -> Seq<char> {
    match parsed_document(text) {
        Ok(d) => match document_root(d) {
            Some(root) => field_text(root.children@, "Name"@),
            None => Seq::empty(),
        },
        Err(_) => Seq::empty(),
    }
}

impl CardInfo {
    /// A card with no name, type, parameters or set.
    pub fn new() -> (r: CardInfo)
        ensures
            is_blank_card(r),
    {
        CardInfo {
            name: String::new(),
            card_type: CardType::new(),
            param_values: NameMap::new(),
            set_name: String::new(),
            set_code: String::new(),
        }
    }

    /// Reads a card from the root element of its document: the name, set code and set
    /// name are the texts of the last `Name`, `SetCode` and `SetName` elements.
    #[verifier::loop_isolation(false)]
    pub fn from_element(root: &XmlElement) -> (r: Result<CardInfo, LoadError>)
        ensures
            card_unreadable(*root) <==> r is Err,
            r matches Err(e) ==> e == LoadError::EmptyField,
            r matches Ok(card) ==> card_read_from(card, *root),
    {
        let mut result = CardInfo::new();
        let ghost nodes = root.children@;
        proof {
            reveal_strlit("Name");
            reveal_strlit("SetCode");
            reveal_strlit("SetName");
            assert("Name"@.len() == 4);
            assert("SetCode"@.len() == 7);
            assert("SetName"@.len() == 7);
            assert("SetCode"@[4] != "SetName"@[4]);
        }
        let mut i: usize = 0;
        while i < root.children.len()
            invariant
                i <= nodes.len(),
                nodes == root.children@,
                result.name@ == field_text(nodes.take(i as int), "Name"@),
                result.set_code@ == field_text(nodes.take(i as int), "SetCode"@),
                result.set_name@ == field_text(nodes.take(i as int), "SetName"@),
                result.card_type.name@ == Seq::<char>::empty(),
                result.card_type.param_names@.len() == 0,
                result.param_values@ == Map::<Seq<char>, i32>::empty(),
                forall|k: int|
                    0 <= k < i ==> !is_empty_field(#[trigger] nodes[k], "Name"@)
                        && !is_empty_field(nodes[k], "SetCode"@) && !is_empty_field(nodes[k], "SetName"@),
            decreases nodes.len() - i,
        {
            assert(nodes.take(i + 1).drop_last() =~= nodes.take(i as int));
            assert(nodes.take(i + 1).last() == nodes[i as int]);
            if let XmlNode::Element(element) = &root.children[i] {
                if has_name(element, "Name") {
                    if element.children.len() == 0 {
                        return Err(LoadError::EmptyField);
                    }
                    result.name = read_text_from_element(element);
                } else if has_name(element, "SetCode") {
                    if element.children.len() == 0 {
                        return Err(LoadError::EmptyField);
                    }
                    result.set_code = read_text_from_element(element);
                } else if has_name(element, "SetName") {
                    if element.children.len() == 0 {
                        return Err(LoadError::EmptyField);
                    }
                    result.set_name = read_text_from_element(element);
                }
            }
            i = i + 1;
        }
        assert(nodes.take(i as int) =~= nodes);
        Ok(result)
    }

    /// Reads a card from the text of its document. A document whose first node is no
    /// element gives the empty card.
    pub fn new_from_file(contents: &str) -> (r: Result<CardInfo, LoadError>)
        ensures
            match r {
                Ok(card) => card_file_error(contents@) is None && card_file_gives(contents@, card),
                Err(e) => card_file_error(contents@) == Some(e),
            },
    {
        match parse_xml(contents) {
            Err(e) => Err(LoadError::Malformed(e)),
            Ok(document) => match root_element(&document) {
                Some(root) => CardInfo::from_element(root),
                None => Ok(CardInfo::new()),
            },
        }
    }
}

} // verus!
