//! The mathematical model of the structural grammar: what one pass over the
//! flat event stream accumulates, consumes and emits for each kind of unit.
//!
//! Each model function takes the event sequence and the index the unit's body
//! starts at (just past the unit's opening event) and yields the unit's
//! completed state, the index just past the last event the unit consumed, and
//! the structural error, if one aborts the unit. The executable parser is
//! verified against these functions.

use vstd::prelude::*;

use crate::callbacks::CallbackView;
use crate::callbacks::ParseError;
use crate::events::attr_value_spec;
use crate::events::qname_matches;
use crate::events::EventView;
use crate::events::QNameView;

verus! {

/// Whether a name is the given tag of the word-processing namespace.
pub open spec fn is_w_tag(n: QNameView, local: Seq<char>) -> bool {
    qname_matches(n, Some("w"@), local)
}

/// The paragraph-like unit's tag. A table cell is grammar-equivalent to a
/// paragraph and shares it.
pub open spec fn is_paragraph_tag(n: QNameView) -> bool {
    is_w_tag(n, "p"@)
}

/// The style-reference unit's tag.
pub open spec fn is_style_tag(n: QNameView) -> bool {
    is_w_tag(n, "pStyle"@)
}

/// The text-run unit's tag.
pub open spec fn is_text_tag(n: QNameView) -> bool {
    is_w_tag(n, "t"@)
}

/// The table unit's tag.
pub open spec fn is_table_tag(n: QNameView) -> bool {
    is_w_tag(n, "tbl"@)
}

/// The table-row unit's tag.
pub open spec fn is_row_tag(n: QNameView) -> bool {
    is_w_tag(n, "tr"@)
}

/// The row's optional header-marker tag.
pub open spec fn is_header_tag(n: QNameView) -> bool {
    is_w_tag(n, "tblHeader"@)
}

/// The attribute key that carries a style identifier or a header flag.
pub open spec fn val_key_prefix() -> Option<Seq<char>> {
    Some("w"@)
}

/// The local name of that attribute key.
pub open spec fn val_key_local() -> Seq<char> {
    "val"@
}

/// What parsing one text run yields: the accumulated content, the index just
/// past the last consumed event, and the error if the run aborted.
pub struct TextOutcome {
    pub content: Seq<char>,
    pub next: int,
    pub err: Option<ParseError>,
}

/// What parsing one style reference yields.
pub struct StyleOutcome {
    pub name: Seq<char>,
    pub next: int,
    pub err: Option<ParseError>,
}

/// What parsing one paragraph-like unit (a paragraph or a cell) yields.
pub struct CellOutcome {
    pub style: Seq<char>,
    pub text: Seq<char>,
    pub next: int,
    pub err: Option<ParseError>,
}

/// What forwarding one emitting unit (row, table, or the document root)
/// yields: the callbacks emitted, in order, up to completion or abort.
pub struct EmitOutcome {
    pub cbs: Seq<CallbackView>,
    pub next: int,
    pub err: Option<ParseError>,
}

/// One text run, starting with `content` already accumulated: every
/// text, raw-data and whitespace fragment is appended in order, exactly as it
/// stands; a nested text-run opening is fatal; the run ends at its own close
/// or at stream exhaustion (implicit completion).
pub open spec fn text_run_model(events: Seq<EventView>, i: int, content: Seq<char>) -> TextOutcome
    decreases events.len() - i,
{
    if i < 0 || i >= events.len() {
        TextOutcome { content, next: i, err: None }
    } else {
        match events[i] {
            EventView::Open { name, attributes } => {
                if is_text_tag(name) {
                    TextOutcome { content, next: i + 1, err: Some(ParseError::NestedText) }
                } else {
                    text_run_model(events, i + 1, content)
                }
            },
            EventView::Close { name } => {
                if is_text_tag(name) {
                    TextOutcome { content, next: i + 1, err: None }
                } else {
                    text_run_model(events, i + 1, content)
                }
            },
            EventView::Characters(s) => text_run_model(events, i + 1, content + s),
            EventView::CData(s) => text_run_model(events, i + 1, content + s),
            EventView::Whitespace(s) => text_run_model(events, i + 1, content + s),
        }
    }
}

/// A text run consumes events and never steps backwards or past the end.
pub proof fn lemma_text_run_bounds(events: Seq<EventView>, i: int, content: Seq<char>)
    requires
        0 <= i <= events.len(),
    ensures
        i <= text_run_model(events, i, content).next <= events.len(),
    decreases events.len() - i,
{
    if i < events.len() {
        match events[i] {
            EventView::Open { name, attributes } => {
                if !is_text_tag(name) {
                    lemma_text_run_bounds(events, i + 1, content);
                }
            },
            EventView::Close { name } => {
                if !is_text_tag(name) {
                    lemma_text_run_bounds(events, i + 1, content);
                }
            },
            EventView::Characters(s) => lemma_text_run_bounds(events, i + 1, content + s),
            EventView::CData(s) => lemma_text_run_bounds(events, i + 1, content + s),
            EventView::Whitespace(s) => lemma_text_run_bounds(events, i + 1, content + s),
        }
    }
}

/// One style reference: the identifier is read from the opening event's
/// attributes (it lives on the opening tag, not in the body); the body is
/// consumed and discarded until the unit's own close; a nested style-reference
/// opening is fatal.
pub open spec fn style_ref_model(
    events: Seq<EventView>,
    i: int,
    attrs: Seq<crate::events::AttributeView>,
) -> StyleOutcome
    decreases events.len() - i,
{
    let name = attr_value_spec(attrs, val_key_prefix(), val_key_local());
    if i < 0 || i >= events.len() {
        StyleOutcome { name, next: i, err: None }
    } else {
        match events[i] {
            EventView::Open { name: n, attributes } => {
                if is_style_tag(n) {
                    StyleOutcome { name, next: i + 1, err: Some(ParseError::NestedStyle) }
                } else {
                    style_ref_model(events, i + 1, attrs)
                }
            },
            EventView::Close { name: n } => {
                if is_style_tag(n) {
                    StyleOutcome { name, next: i + 1, err: None }
                } else {
                    style_ref_model(events, i + 1, attrs)
                }
            },
            EventView::Characters(s) => style_ref_model(events, i + 1, attrs),
            EventView::CData(s) => style_ref_model(events, i + 1, attrs),
            EventView::Whitespace(s) => style_ref_model(events, i + 1, attrs),
        }
    }
}

/// A style reference consumes events and never steps backwards or past the
/// end, and its identifier is exactly the one read from the opening
/// attributes, whatever its body holds.
pub proof fn lemma_style_ref_bounds(
    events: Seq<EventView>,
    i: int,
    attrs: Seq<crate::events::AttributeView>,
)
    requires
        0 <= i <= events.len(),
    ensures
        i <= style_ref_model(events, i, attrs).next <= events.len(),
        style_ref_model(events, i, attrs).name == attr_value_spec(
            attrs,
            val_key_prefix(),
            val_key_local(),
        ),
    decreases events.len() - i,
{
    if i < events.len() {
        match events[i] {
            EventView::Open { name: n, attributes } => {
                if !is_style_tag(n) {
                    lemma_style_ref_bounds(events, i + 1, attrs);
                }
            },
            EventView::Close { name: n } => {
                if !is_style_tag(n) {
                    lemma_style_ref_bounds(events, i + 1, attrs);
                }
            },
            EventView::Characters(s) => lemma_style_ref_bounds(events, i + 1, attrs),
            EventView::CData(s) => lemma_style_ref_bounds(events, i + 1, attrs),
            EventView::Whitespace(s) => lemma_style_ref_bounds(events, i + 1, attrs),
        }
    }
}

/// One paragraph-like unit, starting with `style` and `text` already
/// accumulated. A nested paragraph opening is fatal; a style-reference
/// opening delegates to the style model (a later reference overwrites an
/// earlier one); a text-run opening delegates to the text model (runs
/// concatenate); any other opening passes through inert. The unit ends at its
/// own close or at stream exhaustion.
pub open spec fn paragraph_model(
    events: Seq<EventView>,
    i: int,
    style: Seq<char>,
    text: Seq<char>,
) -> CellOutcome
    decreases events.len() - i,
{
    if i < 0 || i >= events.len() {
        CellOutcome { style, text, next: i, err: None }
    } else {
        match events[i] {
            EventView::Open { name, attributes } => {
                if is_paragraph_tag(name) {
                    CellOutcome { style, text, next: i + 1, err: Some(ParseError::NestedParagraph) }
                } else if is_style_tag(name) {
                    let s = style_ref_model(events, i + 1, attributes);
                    if s.err is Some {
                        CellOutcome { style: s.name, text, next: s.next, err: s.err }
                    } else {
                        proof {
                            lemma_style_ref_bounds(events, i + 1, attributes);
                        }
                        paragraph_model(events, s.next, s.name, text)
                    }
                } else if is_text_tag(name) {
                    let t = text_run_model(events, i + 1, text);
                    if t.err is Some {
                        CellOutcome { style, text: t.content, next: t.next, err: t.err }
                    } else {
                        proof {
                            lemma_text_run_bounds(events, i + 1, text);
                        }
                        paragraph_model(events, t.next, style, t.content)
                    }
                } else {
                    paragraph_model(events, i + 1, style, text)
                }
            },
            EventView::Close { name } => {
                if is_paragraph_tag(name) {
                    CellOutcome { style, text, next: i + 1, err: None }
                } else {
                    paragraph_model(events, i + 1, style, text)
                }
            },
            EventView::Characters(s) => paragraph_model(events, i + 1, style, text),
            EventView::CData(s) => paragraph_model(events, i + 1, style, text),
            EventView::Whitespace(s) => paragraph_model(events, i + 1, style, text),
        }
    }
}

/// A paragraph-like unit consumes events and never steps backwards or past
/// the end.
pub proof fn lemma_paragraph_bounds(events: Seq<EventView>, i: int, style: Seq<char>, text: Seq<char>)
    requires
        0 <= i <= events.len(),
    ensures
        i <= paragraph_model(events, i, style, text).next <= events.len(),
    decreases events.len() - i,
{
    if i < events.len() {
        match events[i] {
            EventView::Open { name, attributes } => {
                if is_paragraph_tag(name) {
                } else if is_style_tag(name) {
                    lemma_style_ref_bounds(events, i + 1, attributes);
                    let s = style_ref_model(events, i + 1, attributes);
                    if s.err is None {
                        lemma_paragraph_bounds(events, s.next, s.name, text);
                    }
                } else if is_text_tag(name) {
                    lemma_text_run_bounds(events, i + 1, text);
                    let t = text_run_model(events, i + 1, text);
                    if t.err is None {
                        lemma_paragraph_bounds(events, t.next, style, t.content);
                    }
                } else {
                    lemma_paragraph_bounds(events, i + 1, style, text);
                }
            },
            EventView::Close { name } => {
                if !is_paragraph_tag(name) {
                    lemma_paragraph_bounds(events, i + 1, style, text);
                }
            },
            EventView::Characters(s) => lemma_paragraph_bounds(events, i + 1, style, text),
            EventView::CData(s) => lemma_paragraph_bounds(events, i + 1, style, text),
            EventView::Whitespace(s) => lemma_paragraph_bounds(events, i + 1, style, text),
        }
    }
}

/// One table row, with the live header flag currently at `header`. The flag
/// starts false at row entry, may be set or re-set by a header-marker opening
/// anywhere in the row, and its value at the moment each cell closes is what
/// that cell reports: a change affects only cells reported after it. Each
/// cell is parsed fresh and emitted immediately; a nested row opening is
/// fatal; a cell aborted mid-parse emits nothing.
pub open spec fn row_model(events: Seq<EventView>, i: int, header: bool) -> EmitOutcome
    decreases events.len() - i,
{
    if i < 0 || i >= events.len() {
        EmitOutcome { cbs: Seq::empty(), next: i, err: None }
    } else {
        match events[i] {
            EventView::Open { name, attributes } => {
                if is_row_tag(name) {
                    EmitOutcome { cbs: Seq::empty(), next: i + 1, err: Some(ParseError::NestedRow) }
                } else if is_header_tag(name) {
                    let flag = attr_value_spec(attributes, val_key_prefix(), val_key_local())
                        == "true"@;
                    row_model(events, i + 1, flag)
                } else if is_paragraph_tag(name) {
                    let c = paragraph_model(events, i + 1, Seq::empty(), Seq::empty());
                    if c.err is Some {
                        EmitOutcome { cbs: Seq::empty(), next: c.next, err: c.err }
                    } else {
                        proof {
                            lemma_paragraph_bounds(events, i + 1, Seq::empty(), Seq::empty());
                        }
                        let rest = row_model(events, c.next, header);
                        EmitOutcome {
                            cbs: seq![
                                CallbackView::Cell { text: c.text, style: c.style, header },
                            ] + rest.cbs,
                            next: rest.next,
                            err: rest.err,
                        }
                    }
                } else {
                    row_model(events, i + 1, header)
                }
            },
            EventView::Close { name } => {
                if is_row_tag(name) {
                    EmitOutcome { cbs: Seq::empty(), next: i + 1, err: None }
                } else {
                    row_model(events, i + 1, header)
                }
            },
            EventView::Characters(s) => row_model(events, i + 1, header),
            EventView::CData(s) => row_model(events, i + 1, header),
            EventView::Whitespace(s) => row_model(events, i + 1, header),
        }
    }
}

/// A row consumes events and never steps backwards or past the end.
pub proof fn lemma_row_bounds(events: Seq<EventView>, i: int, header: bool)
    requires
        0 <= i <= events.len(),
    ensures
        i <= row_model(events, i, header).next <= events.len(),
    decreases events.len() - i,
{
    if i < events.len() {
        match events[i] {
            EventView::Open { name, attributes } => {
                if is_row_tag(name) {
                } else if is_header_tag(name) {
                    let flag = attr_value_spec(attributes, val_key_prefix(), val_key_local())
                        == "true"@;
                    lemma_row_bounds(events, i + 1, flag);
                } else if is_paragraph_tag(name) {
                    lemma_paragraph_bounds(events, i + 1, Seq::empty(), Seq::empty());
                    let c = paragraph_model(events, i + 1, Seq::empty(), Seq::empty());
                    if c.err is None {
                        lemma_row_bounds(events, c.next, header);
                    }
                } else {
                    lemma_row_bounds(events, i + 1, header);
                }
            },
            EventView::Close { name } => {
                if !is_row_tag(name) {
                    lemma_row_bounds(events, i + 1, header);
                }
            },
            EventView::Characters(s) => lemma_row_bounds(events, i + 1, header),
            EventView::CData(s) => lemma_row_bounds(events, i + 1, header),
            EventView::Whitespace(s) => lemma_row_bounds(events, i + 1, header),
        }
    }
}

/// One table: each row-opening first emits a row-boundary callback, then the
/// row is parsed and fully reported before the next row begins; a nested
/// table opening is fatal; the table's own close emits a table-end callback.
/// Stream exhaustion ends the table without a table-end callback.
pub open spec fn table_model(events: Seq<EventView>, i: int) -> EmitOutcome
    decreases events.len() - i,
{
    if i < 0 || i >= events.len() {
        EmitOutcome { cbs: Seq::empty(), next: i, err: None }
    } else {
        match events[i] {
            EventView::Open { name, attributes } => {
                if is_table_tag(name) {
                    EmitOutcome {
                        cbs: Seq::empty(),
                        next: i + 1,
                        err: Some(ParseError::NestedTable),
                    }
                } else if is_row_tag(name) {
                    let r = row_model(events, i + 1, false);
                    if r.err is Some {
                        EmitOutcome {
                            cbs: seq![CallbackView::RowStarted] + r.cbs,
                            next: r.next,
                            err: r.err,
                        }
                    } else {
                        proof {
                            lemma_row_bounds(events, i + 1, false);
                        }
                        let rest = table_model(events, r.next);
                        EmitOutcome {
                            cbs: seq![CallbackView::RowStarted] + r.cbs + rest.cbs,
                            next: rest.next,
                            err: rest.err,
                        }
                    }
                } else {
                    table_model(events, i + 1)
                }
            },
            EventView::Close { name } => {
                if is_table_tag(name) {
                    EmitOutcome { cbs: seq![CallbackView::TableClosed], next: i + 1, err: None }
                } else {
                    table_model(events, i + 1)
                }
            },
            EventView::Characters(s) => table_model(events, i + 1),
            EventView::CData(s) => table_model(events, i + 1),
            EventView::Whitespace(s) => table_model(events, i + 1),
        }
    }
}

/// A table consumes events and never steps backwards or past the end.
pub proof fn lemma_table_bounds(events: Seq<EventView>, i: int)
    requires
        0 <= i <= events.len(),
    ensures
        i <= table_model(events, i).next <= events.len(),
    decreases events.len() - i,
{
    if i < events.len() {
        match events[i] {
            EventView::Open { name, attributes } => {
                if is_table_tag(name) {
                } else if is_row_tag(name) {
                    lemma_row_bounds(events, i + 1, false);
                    let r = row_model(events, i + 1, false);
                    if r.err is None {
                        lemma_table_bounds(events, r.next);
                    }
                } else {
                    lemma_table_bounds(events, i + 1);
                }
            },
            EventView::Close { name } => {
                if !is_table_tag(name) {
                    lemma_table_bounds(events, i + 1);
                }
            },
            EventView::Characters(s) => lemma_table_bounds(events, i + 1),
            EventView::CData(s) => lemma_table_bounds(events, i + 1),
            EventView::Whitespace(s) => lemma_table_bounds(events, i + 1),
        }
    }
}

/// The document root: a top-level loop over the whole stream. A
/// paragraph-opening parses one paragraph fresh and emits its result
/// immediately after the unit completes (a paragraph aborted mid-parse emits
/// nothing); a table-opening delegates entirely to the table model; all other
/// top-level events pass through inert. The root ends only at stream
/// exhaustion: no top-level closing event is expected.
pub open spec fn doc_model(events: Seq<EventView>, i: int) -> EmitOutcome
    decreases events.len() - i,
{
    if i < 0 || i >= events.len() {
        EmitOutcome { cbs: Seq::empty(), next: i, err: None }
    } else {
        match events[i] {
            EventView::Open { name, attributes } => {
                if is_paragraph_tag(name) {
                    let p = paragraph_model(events, i + 1, Seq::empty(), Seq::empty());
                    if p.err is Some {
                        EmitOutcome { cbs: Seq::empty(), next: p.next, err: p.err }
                    } else {
                        proof {
                            lemma_paragraph_bounds(events, i + 1, Seq::empty(), Seq::empty());
                        }
                        let rest = doc_model(events, p.next);
                        EmitOutcome {
                            cbs: seq![
                                CallbackView::Paragraph { text: p.text, style: p.style },
                            ] + rest.cbs,
                            next: rest.next,
                            err: rest.err,
                        }
                    }
                } else if is_table_tag(name) {
                    let t = table_model(events, i + 1);
                    if t.err is Some {
                        EmitOutcome { cbs: t.cbs, next: t.next, err: t.err }
                    } else {
                        proof {
                            lemma_table_bounds(events, i + 1);
                        }
                        let rest = doc_model(events, t.next);
                        EmitOutcome { cbs: t.cbs + rest.cbs, next: rest.next, err: rest.err }
                    }
                } else {
                    doc_model(events, i + 1)
                }
            },
            EventView::Close { name } => doc_model(events, i + 1),
            EventView::Characters(s) => doc_model(events, i + 1),
            EventView::CData(s) => doc_model(events, i + 1),
            EventView::Whitespace(s) => doc_model(events, i + 1),
        }
    }
}

/// Whether an event is a textual fragment (text, raw data or whitespace).
pub open spec fn is_fragment(e: EventView) -> bool {
    match e {
        EventView::Characters(s) => true,
        EventView::CData(s) => true,
        EventView::Whitespace(s) => true,
        _ => false,
    }
}

/// The characters a fragment event carries; empty for any other event.
pub open spec fn fragment_text(e: EventView) -> Seq<char> {
    match e {
        EventView::Characters(s) => s,
        EventView::CData(s) => s,
        EventView::Whitespace(s) => s,
        _ => Seq::empty(),
    }
}

/// Whether an event closes a text-run unit.
pub open spec fn closes_text_run(e: EventView) -> bool {
    match e {
        EventView::Close { name } => is_text_tag(name),
        _ => false,
    }
}

/// The concatenation, in order, of the characters the events in `[i, k)`
/// carry.
pub open spec fn fragments_concat(events: Seq<EventView>, i: int, k: int) -> Seq<char>
    decreases k - i,
{
    if i >= k {
        Seq::empty()
    } else {
        fragment_text(events[i]) + fragments_concat(events, i + 1, k)
    }
}

/// A text run whose body holds only textual fragments, closed at `k`,
/// completes without error and reports exactly the fragments' concatenation,
/// in order, with no separator inserted.
pub proof fn lemma_text_run_concat(events: Seq<EventView>, i: int, k: int, content: Seq<char>)
    requires
        0 <= i <= k < events.len(),
        forall|n: int| i <= n < k ==> is_fragment(#[trigger] events[n]),
        closes_text_run(events[k]),
    ensures
        text_run_model(events, i, content).err is None,
        text_run_model(events, i, content).content == content + fragments_concat(events, i, k),
        text_run_model(events, i, content).next == k + 1,
    decreases k - i,
{
    if i == k {
        assert(content + fragments_concat(events, i, k) =~= content);
    } else {
        let s = fragment_text(events[i]);
        lemma_text_run_concat(events, i + 1, k, content + s);
        assert((content + s) + fragments_concat(events, i + 1, k) =~= content + (s
            + fragments_concat(events, i + 1, k)));
    }
}

/// Whether an event opens a style-reference unit.
pub open spec fn opens_style(e: EventView) -> bool {
    match e {
        EventView::Open { name, attributes } => is_style_tag(name),
        _ => false,
    }
}

/// A paragraph-like unit with no style-reference opening anywhere in its
/// consumed range reports its style unchanged: for a fresh paragraph, the
/// empty string — never a sentinel.
pub proof fn lemma_paragraph_no_style(
    events: Seq<EventView>,
    i: int,
    style: Seq<char>,
    text: Seq<char>,
)
    requires
        0 <= i <= events.len(),
        forall|n: int|
            i <= n < paragraph_model(events, i, style, text).next ==> !opens_style(
                #[trigger] events[n],
            ),
    ensures
        paragraph_model(events, i, style, text).style == style,
    decreases events.len() - i,
{
    if i < events.len() {
        match events[i] {
            EventView::Open { name, attributes } => {
                if is_paragraph_tag(name) {
                } else if is_style_tag(name) {
                    lemma_style_ref_bounds(events, i + 1, attributes);
                    let s = style_ref_model(events, i + 1, attributes);
                    if s.err is None {
                        lemma_paragraph_bounds(events, s.next, s.name, text);
                    }
                } else if is_text_tag(name) {
                    lemma_text_run_bounds(events, i + 1, text);
                    let t = text_run_model(events, i + 1, text);
                    if t.err is None {
                        lemma_paragraph_bounds(events, t.next, style, t.content);
                        lemma_paragraph_no_style(events, t.next, style, t.content);
                    }
                } else {
                    lemma_paragraph_no_style(events, i + 1, style, text);
                }
            },
            EventView::Close { name } => {
                if !is_paragraph_tag(name) {
                    lemma_paragraph_no_style(events, i + 1, style, text);
                }
            },
            EventView::Characters(s) => lemma_paragraph_no_style(events, i + 1, style, text),
            EventView::CData(s) => lemma_paragraph_no_style(events, i + 1, style, text),
            EventView::Whitespace(s) => lemma_paragraph_no_style(events, i + 1, style, text),
        }
    }
}

/// Whether an event opens a paragraph-like unit.
pub open spec fn opens_paragraph(e: EventView) -> bool {
    match e {
        EventView::Open { name, attributes } => is_paragraph_tag(name),
        _ => false,
    }
}

/// A top-level paragraph standing anywhere in the stream that completes
/// without error and holds no style-reference opening anywhere in its
/// consumed range is reported first, with the empty style — never a
/// sentinel.
pub proof fn lemma_doc_paragraph_no_style(events: Seq<EventView>, i: int)
    requires
        0 <= i < events.len(),
        opens_paragraph(events[i]),
        paragraph_model(events, i + 1, Seq::empty(), Seq::empty()).err is None,
        forall|n: int|
            i + 1 <= n < paragraph_model(events, i + 1, Seq::empty(), Seq::empty()).next
                ==> !opens_style(#[trigger] events[n]),
    ensures
        doc_model(events, i).cbs.len() > 0,
        doc_model(events, i).cbs[0] == (CallbackView::Paragraph {
            text: paragraph_model(events, i + 1, Seq::empty(), Seq::empty()).text,
            style: Seq::empty(),
        }),
{
    lemma_paragraph_bounds(events, i + 1, Seq::empty(), Seq::empty());
    lemma_paragraph_no_style(events, i + 1, Seq::empty(), Seq::empty());
}

/// Re-running the parser on the identical event sequence, rebuilt from fresh
/// accumulator state, produces an identical callback sequence: what a run
/// emits is a function of the event sequence alone.
pub proof fn lemma_parse_deterministic(
    events: Seq<EventView>,
    first: Seq<CallbackView>,
    second: Seq<CallbackView>,
)
    requires
        first == doc_model(events, 0).cbs,
        second == doc_model(events, 0).cbs,
    ensures
        first == second,
{
}

} // verus!
