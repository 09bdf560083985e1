//! A small XML tree owned by this library, and the text helpers that the
//! document loaders use to read fields out of it.

use sxd_document::dom::ChildOfElement;
use vstd::prelude::*;

verus! {

/// One node below an element or below the document root.
#[derive(Debug, PartialEq, Eq)]
pub enum XmlNode {
    Element(XmlElement),
    Text(String),
    Comment(String),
    Instruction(String, Option<String>),
}

/// An element: its local name and its children in document order.
#[derive(Debug, PartialEq, Eq)]
pub struct XmlElement {
    pub name: String,
    pub children: Vec<XmlNode>,
}

/// A whole document: the nodes directly below its root, in document order.
#[derive(Debug, PartialEq, Eq)]
pub struct XmlDocument {
    pub children: Vec<XmlNode>,
}

/// Whether `element` is called `tag`.
pub fn has_name(element: &XmlElement, tag: &str) -> (r: bool)
    ensures
        r == (element.name@ == tag@),
{
    element.name == tag.to_owned()
}

/// Where sxd_document's parser stopped on text that is not a well-formed document:
/// a byte offset into that text.
#[derive(Clone, Copy, Debug, PartialEq, Eq)]
pub struct XmlParseError {
    pub location: usize,
}

/// The outcome of reading `text` as an XML document with sxd_document's parser.
pub uninterp spec fn parsed_document(text: Seq<char>) -> Result<XmlDocument, XmlParseError>;

/// The text that sxd_document's writer gives for a document whose root is `root`,
/// or `None` where it reports an error.
pub uninterp spec fn formatted_document(root: XmlElement) -> Option<Seq<char>>;

#[verifier::external_type_specification]
#[verifier::external_body]
pub struct ExDocument<'d>(sxd_document::dom::Document<'d>);

#[verifier::external_type_specification]
#[verifier::external_body]
pub struct ExElement<'d>(sxd_document::dom::Element<'d>);

#[verifier::external_type_specification]
#[verifier::external_body]
pub struct ExChildOfElement<'d>(sxd_document::dom::ChildOfElement<'d>);

/// Converts a node of sxd_document's tree, and everything below it, node for node.
/// Relies on the accessors of sxd_document's node types (`Element::name`,
/// `Element::children`, `Text::text`, ...); used by `parse_xml` only.
#[verifier::external_body]
fn from_sxd_node(node: ChildOfElement) -> XmlNode {
    match node {
        ChildOfElement::Element(e) => XmlNode::Element(XmlElement {
            name: e.name().local_part().to_string(),
            children: e.children().into_iter().map(from_sxd_node).collect(),
        }),
        ChildOfElement::Text(t) => XmlNode::Text(t.text().to_string()),
        ChildOfElement::Comment(c) => XmlNode::Comment(c.text().to_string()),
        ChildOfElement::ProcessingInstruction(p) =>
            XmlNode::Instruction(p.target().to_string(), p.value().map(|v| v.to_string())),
    }
}

/// Relies on sxd_document::parser::parse: the document it reads depends on the text alone.
#[verifier::external_body]
pub(crate) fn parse_xml(text: &str) -> (r: Result<XmlDocument, XmlParseError>)
    ensures
        r == parsed_document(text@),
{
    let package = sxd_document::parser::parse(text).map_err(|e| XmlParseError { location: e.location() })?;
    let root = package.as_document().root();
    Ok(XmlDocument { children: root.children().into_iter().map(|c| from_sxd_node(c.into())).collect() })
}

/// Builds `element`, and everything below it, in sxd_document's tree, node for node.
/// Relies on sxd_document's `Document::create_*` and `Element::append_child`; used by
/// `format_xml` only.
#[verifier::external_body]
fn to_sxd_element<'d>(document: sxd_document::dom::Document<'d>, element: &XmlElement) -> sxd_document::dom::Element<'d> {
    let built = document.create_element(element.name.as_str());
    for child in element.children.iter() {
        match child {
            XmlNode::Element(e) => built.append_child(to_sxd_element(document, e)),
            XmlNode::Text(t) => built.append_child(document.create_text(t)),
            XmlNode::Comment(c) => built.append_child(document.create_comment(c)),
            XmlNode::Instruction(t, v) => built.append_child(document.create_processing_instruction(t, v.as_deref())),
        }
    }
    built
}

/// Relies on sxd_document::writer::format_document: the text it writes for a document
/// depends on the document alone.
#[verifier::external_body]
pub(crate) fn format_xml(root: &XmlElement) -> (r: Option<String>)
    ensures
        r matches Some(s) ==> formatted_document(*root) == Some(s@),
        r is None ==> formatted_document(*root) is None,
{
    let package = sxd_document::Package::new();
    let document = package.as_document();
    document.root().append_child(to_sxd_element(document, root));
    let mut bytes: Vec<u8> = Vec::new();
    sxd_document::writer::format_document(&document, &mut bytes).ok()?;
    String::from_utf8(bytes).ok()
}

/// Unicode's White_Space property, which `str::trim` goes by.
pub open spec fn is_white_space(c: char) -> bool {
    let u = c as u32;
    ||| 0x09 <= u <= 0x0d
    ||| u == 0x20 || u == 0x85 || u == 0xa0 || u == 0x1680
    ||| 0x2000 <= u <= 0x200a
    ||| u == 0x2028 || u == 0x2029 || u == 0x202f || u == 0x205f || u == 0x3000
}

/// How many white-space characters `s` starts with.
pub open spec fn leading_white(s: Seq<char>) -> nat
    decreases s.len(),
{
    if s.len() > 0 && is_white_space(s[0]) {
        1 + leading_white(s.drop_first())
    } else {
        0
    }
}

/// How many white-space characters `s` ends with.
pub open spec fn trailing_white(s: Seq<char>) -> nat
    decreases s.len(),
{
    if s.len() > 0 && is_white_space(s.last()) {
        1 + trailing_white(s.drop_last())
    } else {
        0
    }
}

/// `s` without its leading and trailing white space.
pub open spec fn trimmed(s: Seq<char>) -> Seq<char> {
    let rest = s.skip(leading_white(s) as int);
    rest.take(rest.len() - trailing_white(rest))
}

/// Relies on str::trim: removes leading and trailing White_Space characters.
#[verifier::external_body]
pub(crate) fn trim(s: &str) -> (r: String)
    ensures
        r@ == trimmed(s@),
{
    s.trim().to_string()
}

/// Whether `c` is one of the ASCII digits `0` to `9`.
pub open spec fn is_digit(c: char) -> bool {
    '0' <= c <= '9'
}

/// The value of a string of decimal digits.
pub open spec fn digits_value(s: Seq<char>) -> nat
    decreases s.len(),
{
    if s.len() == 0 {
        0
    } else {
        digits_value(s.drop_last()) * 10 + (s.last() as nat - '0' as nat) as nat
    }
}

/// What `str::parse::<u32>` accepts: an optional `+` and then one or more ASCII digits
/// whose value fits in a `u32`.
pub open spec fn decimal_u32(s: Seq<char>) -> Option<u32> {
    let digits = if s.len() > 0 && s[0] == '+' { s.drop_first() } else { s };
    if digits.len() > 0 && (forall|i: int| 0 <= i < digits.len() ==> is_digit(#[trigger] digits[i]))
        && digits_value(digits) <= u32::MAX {
        Some(digits_value(digits) as u32)
    } else {
        None
    }
}

/// Relies on `u32`'s `FromStr`: an optional `+` followed by decimal digits, and no overflow.
#[verifier::external_body]
fn parse_u32(s: &str) -> (r: Option<u32>)
    ensures
        r == decimal_u32(s@),
{
    s.parse::<u32>().ok()
}

/// The decimal digit for `d`, below ten.
pub open spec fn digit_char(d: nat) -> char {
    if d == 0 {
        '0'
    } else if d == 1 {
        '1'
    } else if d == 2 {
        '2'
    } else if d == 3 {
        '3'
    } else if d == 4 {
        '4'
    } else if d == 5 {
        '5'
    } else if d == 6 {
        '6'
    } else if d == 7 {
        '7'
    } else if d == 8 {
        '8'
    } else {
        '9'
    }
}

/// The decimal digits of `n`, without leading zeros.
pub open spec fn decimal_text(n: nat) -> Seq<char>
    decreases n,
{
    if n < 10 {
        seq![digit_char(n)]
    } else {
        decimal_text(n / 10).push(digit_char(n % 10))
    }
}

proof fn lemma_digits_of(n: nat)
    ensures
        decimal_text(n).len() > 0,
        forall|i: int| 0 <= i < decimal_text(n).len() ==> is_digit(#[trigger] decimal_text(n)[i]),
        digits_value(decimal_text(n)) == n,
    decreases n,
{
    if n >= 10 {
        lemma_digits_of(n / 10);
        let s = decimal_text(n);
        assert(s.drop_last() =~= decimal_text(n / 10));
        assert forall|i: int| 0 <= i < s.len() implies is_digit(#[trigger] s[i]) by {
            if i < s.len() - 1 {
                assert(s[i] == decimal_text(n / 10)[i]);
            }
        }
        assert(n == (n / 10) * 10 + n % 10) by (nonlinear_arith);
        assert(s.last() == digit_char(n % 10));
        assert(digit_char(n % 10) as nat - '0' as nat == n % 10);
        assert(digits_value(s) == digits_value(decimal_text(n / 10)) * 10 + n % 10);
        let q = n / 10;
        assert(digits_value(decimal_text(q)) == q);
        assert(digits_value(s) == q * 10 + n % 10);
        assert(digits_value(s) == n);
    } else {
        assert(digit_char(n) as nat - '0' as nat == n);
        let s = decimal_text(n);
        assert(s == seq![digit_char(n)]);
        assert(s.drop_last() =~= Seq::<char>::empty());
        assert(s.last() == digit_char(n));
        assert(digits_value(s.drop_last()) == 0);
    }
}

/// Reading the decimal text of a `u32` gives the number back.
pub proof fn lemma_decimal_round_trip(n: u32)
    ensures
        decimal_u32(decimal_text(n as nat)) == Some(n),
{
    lemma_digits_of(n as nat);
    assert(is_digit(decimal_text(n as nat)[0]));
}

/// Relies on the `Display` of `u32`: its decimal digits, without sign or leading zeros.
#[verifier::external_body]
pub(crate) fn u32_text(n: u32) -> (r: String)
    ensures
        r@ == decimal_text(n as nat),
{
    n.to_string()
}

/// The text that `read_text_from_element` reads: the first child's text without
/// surrounding white space, or nothing where the first child is no text.
pub open spec fn element_text(element: XmlElement) -> Seq<char> {
    match element.children@[0] {
        XmlNode::Text(t) => trimmed(t@),
        _ => Seq::empty(),
    }
}

/// The number that `read_num_from_element` reads: that of the first child's text, or
/// zero where the first child is no text; `None` where the text is no `u32`.
pub open spec fn element_number(element: XmlElement) -> Option<u32> {
    match element.children@[0] {
        XmlNode::Text(t) => decimal_u32(t@),
        _ => Some(0),
    }
}

/// Reads the text of a leaf element such as `<Name> Dark Magician </Name>`.
pub fn read_text_from_element(element: &XmlElement) -> (r: String)
    requires
        element.children@.len() > 0,
    ensures
        r@ == element_text(*element),
{
    match &element.children[0] {
        XmlNode::Text(t) => trim(t.as_str()),
        _ => String::new(),
    }
}

/// The text of the first child as it stands, or nothing where the first child is no text.
pub open spec fn element_raw_text(element: XmlElement) -> Seq<char> {
    match element.children@[0] {
        XmlNode::Text(t) => t@,
        _ => Seq::empty(),
    }
}

/// Reads the text of a leaf element as it stands, white space included.
pub fn read_raw_text_from_element(element: &XmlElement) -> (r: String)
    requires
        element.children@.len() > 0,
    ensures
        r@ == element_raw_text(*element),
{
    match &element.children[0] {
        XmlNode::Text(t) => t.clone(),
        _ => String::new(),
    }
}

/// Reads the number held by a leaf element such as `<CardLimit>3</CardLimit>`.
pub fn read_num_from_element(element: &XmlElement) -> (r: Option<u32>)
    requires
        element.children@.len() > 0,
    ensures
        r == element_number(*element),
{
    match &element.children[0] {
        XmlNode::Text(t) => parse_u32(t.as_str()),
        _ => Some(0),
    }
}

/// The last element among `nodes` called `tag`.
pub open spec fn last_field(nodes: Seq<XmlNode>, tag: Seq<char>) -> Option<XmlElement>
    decreases nodes.len(),
{
    if nodes.len() == 0 {
        None
    } else {
        match nodes.last() {
            XmlNode::Element(e) => if e.name@ == tag {
                Some(e)
            } else {
                last_field(nodes.drop_last(), tag)
            },
            _ => last_field(nodes.drop_last(), tag),
        }
    }
}

/// The text of the last element among `nodes` called `tag`, or nothing where there is none.
pub open spec fn field_text(nodes: Seq<XmlNode>, tag: Seq<char>) -> Seq<char> {
    match last_field(nodes, tag) {
        Some(e) => element_text(e),
        None => Seq::empty(),
    }
}

/// Whether `node` is an element called `tag` with nothing inside.
pub open spec fn is_empty_field(node: XmlNode, tag: Seq<char>) -> bool {
    node matches XmlNode::Element(e) && e.name@ == tag && e.children@.len() == 0
}

/// The element that stands first below the root of `document`, where the first node
/// there is an element.
pub open spec fn document_root(document: XmlDocument) -> Option<XmlElement> {
    if document.children@.len() > 0 {
        match document.children@[0] {
            XmlNode::Element(e) => Some(e),
            _ => None,
        }
    } else {
        None
    }
}

/// The first node below the root, where it is an element.
pub fn root_element(document: &XmlDocument) -> (r: Option<&XmlElement>)
    ensures
        match r {
            Some(e) => document_root(*document) == Some(*e),
            None => document_root(*document) is None,
        },
{
    if document.children.len() == 0 {
        return None;
    }
    match &document.children[0] {
        XmlNode::Element(e) => Some(e),
        _ => None,
    }
}

/// Why a document could not be loaded.
#[derive(Clone, Copy, Debug, PartialEq, Eq)]
pub enum LoadError {
    /// The text is not a well-formed XML document.
    Malformed(XmlParseError),
    /// A field that must hold a value is an empty element.
    EmptyField,
    /// A numeric field holds text that is no unsigned 32-bit number.
    BadNumber,
}

} // verus!
