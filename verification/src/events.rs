//! Structural events: the flat, ordered stream the parser consumes, and the
//! qualified names and attributes those events carry.

use vstd::prelude::*;

verus! {

/// A namespace-qualified name: an optional namespace prefix plus a local
/// name. Matching requires both to align; absence of a prefix matches only
/// specifications with no prefix.
pub struct QName {
    pub prefix: Option<String>,
    pub local: String,
}

/// Mathematical value of a [`QName`].
pub struct QNameView {
    pub prefix: Option<Seq<char>>,
    pub local: Seq<char>,
}

impl View for QName {
    type V = QNameView;

    open spec fn view(&self) -> QNameView {
        QNameView {
            prefix: match self.prefix {
                Some(p) => Some(p@),
                None => None,
            },
            local: self.local@,
        }
    }
}

/// One attribute of an element-opening event: a qualified name and a value.
pub struct Attribute {
    pub name: QName,
    pub value: String,
}

/// Mathematical value of an [`Attribute`].
pub struct AttributeView {
    pub name: QNameView,
    pub value: Seq<char>,
}

impl View for Attribute {
    type V = AttributeView;

    open spec fn view(&self) -> AttributeView {
        AttributeView { name: self.name@, value: self.value@ }
    }
}

/// One structural event of the flat input stream, in document order.
pub enum Event {
    /// An element opens, carrying its attribute list.
    Open { name: QName, attributes: Vec<Attribute> },
    /// An element closes.
    Close { name: QName },
    /// A textual fragment.
    Characters(String),
    /// A raw-data fragment.
    CData(String),
    /// A whitespace fragment.
    Whitespace(String),
}

/// Mathematical value of an [`Event`].
pub enum EventView {
    Open { name: QNameView, attributes: Seq<AttributeView> },
    Close { name: QNameView },
    Characters(Seq<char>),
    CData(Seq<char>),
    Whitespace(Seq<char>),
}

impl View for Event {
    type V = EventView;

    open spec fn view(&self) -> EventView {
        match self {
            Event::Open { name, attributes } => EventView::Open {
                name: name@,
                attributes: attributes@.map_values(|a: Attribute| a@),
            },
            Event::Close { name } => EventView::Close { name: name@ },
            Event::Characters(s) => EventView::Characters(s@),
            Event::CData(s) => EventView::CData(s@),
            Event::Whitespace(s) => EventView::Whitespace(s@),
        }
    }
}

/// The whole stream as a sequence of mathematical event values.
pub open spec fn stream_view(events: &Vec<Event>) -> Seq<EventView> {
    events@.map_values(|e: Event| e@)
}

/// Mathematical value of an optional string slice.
pub open spec fn opt_str_view(s: Option<&str>) -> Option<Seq<char>> {
    match s {
        Some(p) => Some(p@),
        None => None,
    }
}

/// Whether a qualified name matches a grammar tag specification: the prefix
/// (or its absence) and the local name must both match exactly.
pub open spec fn qname_matches(n: QNameView, prefix: Option<Seq<char>>, local: Seq<char>) -> bool {
    n.prefix == prefix && n.local == local
}

/// String equality by character content.
pub fn str_equal(a: &str, b: &str) -> (r: bool)
    ensures
        r == (a@ == b@),
{
    let owned_a: String = a.to_owned();
    let owned_b: String = b.to_owned();
    owned_a == owned_b
}

impl QName {
    /// Whether this name matches the given grammar tag specification.
    /// No wildcard and no case-insensitive matching.
    pub fn is_tag(&self, prefix: Option<&str>, local: &str) -> (r: bool)
        ensures
            r == qname_matches(self@, opt_str_view(prefix), local@),
    {
        let prefix_matches = match (&self.prefix, prefix) {
            (Some(own), Some(want)) => str_equal(own.as_str(), want),
            (None, None) => true,
            _ => false,
        };
        prefix_matches && str_equal(self.local.as_str(), local)
    }
}

/// The value of the first attribute from `i` on whose name matches the key,
/// or the empty string if none does.
pub open spec fn attr_value_from(
    attrs: Seq<AttributeView>,
    i: int,
    prefix: Option<Seq<char>>,
    local: Seq<char>,
) -> Seq<char>
    decreases attrs.len() - i,
{
    if i < 0 || i >= attrs.len() {
        Seq::empty()
    } else if qname_matches(attrs[i].name, prefix, local) {
        attrs[i].value
    } else {
        attr_value_from(attrs, i + 1, prefix, local)
    }
}

/// The value of the first attribute whose name matches the key, or the empty
/// string if none does.
pub open spec fn attr_value_spec(
    attrs: Seq<AttributeView>,
    prefix: Option<Seq<char>>,
    local: Seq<char>,
) -> Seq<char> {
    attr_value_from(attrs, 0, prefix, local)
}

/// The attribute list as a sequence of mathematical attribute values.
pub open spec fn attrs_view(attrs: &Vec<Attribute>) -> Seq<AttributeView> {
    attrs@.map_values(|a: Attribute| a@)
}

/// Looks a named attribute's value up in an event's attribute list. A missing
/// attribute is not an error: it yields the empty string.
pub fn attr_value(attrs: &Vec<Attribute>, prefix: Option<&str>, local: &str) -> (r: String)
    ensures
        r@ == attr_value_spec(attrs_view(attrs), opt_str_view(prefix), local@),
{
    let mut i: usize = 0;
    while i < attrs.len()
        invariant
            i <= attrs.len(),
            attr_value_from(attrs_view(attrs), 0, opt_str_view(prefix), local@)
                == attr_value_from(attrs_view(attrs), i as int, opt_str_view(prefix), local@),
        decreases attrs.len() - i,
    {
        if attrs[i].name.is_tag(prefix, local) {
            return attrs[i].value.clone();
        }
        i = i + 1;
    }
    String::new()
}

} // verus!
