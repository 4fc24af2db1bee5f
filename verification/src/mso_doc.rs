//! The streaming structural parser: one reusable, clearable accumulator per
//! grammar unit, each consuming events from the shared cursor until its own
//! matching close event (or stream exhaustion), and the document root that
//! dispatches over the whole stream.

use vstd::prelude::*;
use vstd::string::StringExecFns;

use crate::callbacks::CallbackView;
use crate::callbacks::ParseError;
use crate::callbacks::WordReader;
use crate::events::attr_value;
use crate::events::attrs_view;
use crate::events::str_equal;
use crate::events::stream_view;
use crate::events::Event;
use crate::events::QName;
use crate::model::doc_model;
use crate::model::is_header_tag;
use crate::model::is_paragraph_tag;
use crate::model::is_row_tag;
use crate::model::is_style_tag;
use crate::model::is_table_tag;
use crate::model::is_text_tag;
use crate::model::paragraph_model;
use crate::model::row_model;
use crate::model::style_ref_model;
use crate::model::table_model;
use crate::model::text_run_model;

verus! {

/// The text-run accumulator: concatenates every textual fragment inside one
/// text-run unit, in order, with no trimming or normalization.
pub struct Text {
    pub content: String,
}

impl Text {
    /// Whether the accumulated content has been reset to its default.
    pub open spec fn is_clear(&self) -> bool {
        self.content@ == Seq::<char>::empty()
    }

    /// Whether `name` opens or closes a text-run unit.
    pub fn is_tag(name: &QName) -> (r: bool)
        ensures
            r == is_text_tag(name@),
    {
        name.is_tag(Some("w"), "t")
    }

    /// Resets the content to empty. The owner calls this only after the
    /// content has been reported, never before.
    pub fn clear(&mut self)
        ensures
            final(self).is_clear(),
    {
        self.content = String::new();
    }

    /// Consumes events from `*pos` until the run's own close (or stream
    /// exhaustion), appending every text, raw-data and whitespace fragment to
    /// the content. A nested text-run opening aborts with
    /// [`ParseError::NestedText`].
    #[verifier::loop_isolation(false)]
    pub fn parse(&mut self, events: &Vec<Event>, pos: &mut usize) -> (r: Result<(), ParseError>)
        requires
            *old(pos) <= events@.len(),
        ensures
            ({
                let m = text_run_model(stream_view(events), *old(pos) as int, old(self).content@);
                &&& final(self).content@ == m.content
                &&& *final(pos) as int == m.next
                &&& *final(pos) <= events@.len()
                &&& (r is Ok) == (m.err is None)
                &&& (r matches Err(e) ==> m.err == Some(e))
            }),
    {
        let ghost sv = stream_view(events);
        let ghost target = text_run_model(sv, *pos as int, self.content@);
        while *pos < events.len()
            invariant
                *pos <= events@.len(),
                target == text_run_model(sv, *pos as int, self.content@),
            decreases events@.len() - *pos,
        {
            let j = *pos;
            *pos = j + 1;
            match &events[j] {
                Event::Open { name, attributes } => {
                    if Text::is_tag(name) {
                        return Err(ParseError::NestedText);
                    }
                },
                Event::Close { name } => {
                    if Text::is_tag(name) {
                        return Ok(());
                    }
                },
                Event::Characters(s) => self.content.append(s.as_str()),
                Event::CData(s) => self.content.append(s.as_str()),
                Event::Whitespace(s) => self.content.append(s.as_str()),
            }
        }
        Ok(())
    }
}

impl Default for Text {
    /// An empty text-run accumulator.
    fn default() -> (r: Text)
        ensures
            r.is_clear(),
    {
        Text { content: String::new() }
    }
}

/// The style-reference accumulator: holds the style identifier read from the
/// opening attributes of a style-reference unit.
pub struct RefToStyle {
    pub name: String,
}

impl RefToStyle {
    /// Whether the style identifier has been reset to its default.
    pub open spec fn is_clear(&self) -> bool {
        self.name@ == Seq::<char>::empty()
    }

    /// Whether `name` opens or closes a style-reference unit.
    pub fn is_tag(name: &QName) -> (r: bool)
        ensures
            r == is_style_tag(name@),
    {
        name.is_tag(Some("w"), "pStyle")
    }

    /// Resets the identifier to empty.
    pub fn clear(&mut self)
        ensures
            final(self).is_clear(),
    {
        self.name = String::new();
    }

    /// Reads the style identifier from the opening event's attributes
    /// (captured at open time: the identifier lives on the opening tag), then
    /// consumes and discards events until the unit's own close (or stream
    /// exhaustion). A nested style-reference opening aborts with
    /// [`ParseError::NestedStyle`].
    #[verifier::loop_isolation(false)]
    pub fn parse(
        &mut self,
        events: &Vec<Event>,
        pos: &mut usize,
        attributes: &Vec<crate::events::Attribute>,
    ) -> (r: Result<(), ParseError>)
        requires
            *old(pos) <= events@.len(),
        ensures
            ({
                let m = style_ref_model(stream_view(events), *old(pos) as int, attrs_view(attributes));
                &&& final(self).name@ == m.name
                &&& *final(pos) as int == m.next
                &&& *final(pos) <= events@.len()
                &&& (r is Ok) == (m.err is None)
                &&& (r matches Err(e) ==> m.err == Some(e))
            }),
    {
        let ghost sv = stream_view(events);
        let ghost target = style_ref_model(sv, *pos as int, attrs_view(attributes));
        proof {
            crate::model::lemma_style_ref_bounds(sv, *pos as int, attrs_view(attributes));
        }
        self.name = attr_value(attributes, Some("w"), "val");
        while *pos < events.len()
            invariant
                *pos <= events@.len(),
                self.name@ == target.name,
                target == style_ref_model(sv, *pos as int, attrs_view(attributes)),
            decreases events@.len() - *pos,
        {
            let j = *pos;
            *pos = j + 1;
            match &events[j] {
                Event::Open { name, attributes: inner } => {
                    if RefToStyle::is_tag(name) {
                        return Err(ParseError::NestedStyle);
                    }
                },
                Event::Close { name } => {
                    if RefToStyle::is_tag(name) {
                        return Ok(());
                    }
                },
                _ => {},
            }
        }
        Ok(())
    }
}

impl Default for RefToStyle {
    /// An empty style-reference accumulator.
    fn default() -> (r: RefToStyle)
        ensures
            r.is_clear(),
    {
        RefToStyle { name: String::new() }
    }
}

/// The paragraph accumulator: one style reference and one text run per
/// paragraph-like unit. A table cell is grammar-equivalent to a paragraph and
/// reuses this accumulator.
pub struct Paragraph {
    pub style: RefToStyle,
    pub text: Text,
}

impl Paragraph {
    /// Whether both owned accumulators have been reset to their defaults.
    pub open spec fn is_clear(&self) -> bool {
        self.style.is_clear() && self.text.is_clear()
    }

    /// Whether `name` opens or closes a paragraph-like unit.
    pub fn is_tag(name: &QName) -> (r: bool)
        ensures
            r == is_paragraph_tag(name@),
    {
        name.is_tag(Some("w"), "p")
    }

    /// Resets the owned style and text accumulators.
    pub fn clear(&mut self)
        ensures
            final(self).is_clear(),
    {
        self.style.clear();
        self.text.clear();
    }

    /// Consumes events from `*pos` until the paragraph's own close (or
    /// stream exhaustion), delegating style-reference and text-run openings
    /// to the owned accumulators; any other opening passes through inert. A
    /// nested paragraph opening aborts with [`ParseError::NestedParagraph`];
    /// a child's structural error propagates.
    #[verifier::loop_isolation(false)]
    pub fn parse(&mut self, events: &Vec<Event>, pos: &mut usize) -> (r: Result<(), ParseError>)
        requires
            *old(pos) <= events@.len(),
        ensures
            ({
                let m = paragraph_model(
                    stream_view(events),
                    *old(pos) as int,
                    old(self).style.name@,
                    old(self).text.content@,
                );
                &&& final(self).style.name@ == m.style
                &&& final(self).text.content@ == m.text
                &&& *final(pos) as int == m.next
                &&& *final(pos) <= events@.len()
                &&& (r is Ok) == (m.err is None)
                &&& (r matches Err(e) ==> m.err == Some(e))
            }),
    {
        let ghost sv = stream_view(events);
        let ghost target = paragraph_model(sv, *pos as int, self.style.name@, self.text.content@);
        while *pos < events.len()
            invariant
                *pos <= events@.len(),
                target == paragraph_model(sv, *pos as int, self.style.name@, self.text.content@),
            decreases events@.len() - *pos,
        {
            let j = *pos;
            *pos = j + 1;
            match &events[j] {
                Event::Open { name, attributes } => {
                    if Paragraph::is_tag(name) {
                        return Err(ParseError::NestedParagraph);
                    } else if RefToStyle::is_tag(name) {
                        if let Err(e) = self.style.parse(events, pos, attributes) {
                            return Err(e);
                        }
                        proof {
                            crate::model::lemma_style_ref_bounds(
                                sv,
                                j as int + 1,
                                attrs_view(attributes),
                            );
                        }
                    } else if Text::is_tag(name) {
                        let ghost text0 = self.text.content@;
                        if let Err(e) = self.text.parse(events, pos) {
                            return Err(e);
                        }
                        proof {
                            crate::model::lemma_text_run_bounds(sv, j as int + 1, text0);
                        }
                    }
                },
                Event::Close { name } => {
                    if Paragraph::is_tag(name) {
                        return Ok(());
                    }
                },
                _ => {},
            }
        }
        Ok(())
    }
}

impl Default for Paragraph {
    /// An empty paragraph accumulator.
    fn default() -> (r: Paragraph)
        ensures
            r.is_clear(),
    {
        Paragraph { style: RefToStyle::default(), text: Text::default() }
    }
}

/// The table-row accumulator: a live, mutable header flag and one reusable
/// paragraph accumulator serving as the cell reader.
pub struct TableRow {
    pub header: bool,
    pub cell: Paragraph,
}

impl TableRow {
    /// Whether the accumulator has been reset to its default: the cell
    /// reader cleared and the header flag down.
    pub open spec fn is_clear(&self) -> bool {
        self.cell.is_clear() && !self.header
    }

    /// Whether `name` opens or closes a table-row unit.
    pub fn is_tag(name: &QName) -> (r: bool)
        ensures
            r == is_row_tag(name@),
    {
        name.is_tag(Some("w"), "tr")
    }

    /// Whether `name` opens the row's optional header-marker unit.
    pub fn is_header_opt(name: &QName) -> (r: bool)
        ensures
            r == is_header_tag(name@),
    {
        name.is_tag(Some("w"), "tblHeader")
    }

    /// Emits one cell-result callback carrying the just-parsed text and
    /// style and the header flag as it stands right now, then clears the
    /// cell reader for reuse.
    pub fn send<R: WordReader>(&mut self, reader: &mut R)
        ensures
            final(reader).log() == old(reader).log().push(
                CallbackView::Cell {
                    text: old(self).cell.text.content@,
                    style: old(self).cell.style.name@,
                    header: old(self).header,
                },
            ),
            final(self).cell.is_clear(),
            final(self).header == old(self).header,
    {
        reader.table_cell(&self.cell.text.content, &self.cell.style.name, self.header);
        self.cell.clear();
    }

    /// Consumes events from `*pos` until the row's own close (or stream
    /// exhaustion). On entry the header flag resets to false; a
    /// header-marker opening re-reads it from that event's attributes (true
    /// iff the value is exactly "true"), so a change affects only cells
    /// reported after it; each cell opening parses one cell fresh and emits
    /// it immediately. A nested row opening aborts with
    /// [`ParseError::NestedRow`]; a cell's structural error propagates, and
    /// an aborted cell emits nothing. On an orderly end — the row's close
    /// or exhaustion — the header flag is left down again, so a completed
    /// row hands its accumulator back fully reset.
    #[verifier::loop_isolation(false)]
    pub fn forward<R: WordReader>(
        &mut self,
        events: &Vec<Event>,
        pos: &mut usize,
        reader: &mut R,
    ) -> (r: Result<(), ParseError>)
        requires
            *old(pos) <= events@.len(),
            old(self).cell.is_clear(),
        ensures
            ({
                let m = row_model(stream_view(events), *old(pos) as int, false);
                &&& final(reader).log() == old(reader).log() + m.cbs
                &&& *final(pos) as int == m.next
                &&& *final(pos) <= events@.len()
                &&& (r is Ok) == (m.err is None)
                &&& (r matches Err(e) ==> m.err == Some(e))
                &&& (r is Ok ==> final(self).is_clear())
            }),
    {
        let ghost sv = stream_view(events);
        let ghost log0 = reader.log();
        self.header = false;
        let ghost target = row_model(sv, *pos as int, false);
        while *pos < events.len()
            invariant
                *pos <= events@.len(),
                self.cell.is_clear(),
                log0 + target.cbs == reader.log() + row_model(sv, *pos as int, self.header).cbs,
                target.next == row_model(sv, *pos as int, self.header).next,
                target.err == row_model(sv, *pos as int, self.header).err,
            decreases events@.len() - *pos,
        {
            let j = *pos;
            *pos = j + 1;
            match &events[j] {
                Event::Open { name, attributes } => {
                    if TableRow::is_tag(name) {
                        proof {
                            assert(log0 + target.cbs =~= reader.log());
                        }
                        return Err(ParseError::NestedRow);
                    } else if TableRow::is_header_opt(name) {
                        let marker = attr_value(attributes, Some("w"), "val");
                        self.header = str_equal(marker.as_str(), "true");
                    } else if Paragraph::is_tag(name) {
                        if let Err(e) = self.cell.parse(events, pos) {
                            proof {
                                assert(log0 + target.cbs =~= reader.log());
                            }
                            return Err(e);
                        }
                        proof {
                            crate::model::lemma_paragraph_bounds(
                                sv,
                                j as int + 1,
                                Seq::empty(),
                                Seq::empty(),
                            );
                        }
                        let ghost log_before = reader.log();
                        self.send(reader);
                        proof {
                            let c = paragraph_model(sv, j as int + 1, Seq::empty(), Seq::empty());
                            let rest = row_model(sv, c.next, self.header);
                            let cell_cb = CallbackView::Cell {
                                text: c.text,
                                style: c.style,
                                header: self.header,
                            };
                            assert(log_before + (seq![cell_cb] + rest.cbs) =~= log_before.push(
                                cell_cb,
                            ) + rest.cbs);
                        }
                    }
                },
                Event::Close { name } => {
                    if TableRow::is_tag(name) {
                        proof {
                            assert(log0 + target.cbs =~= reader.log());
                        }
                        self.header = false;
                        return Ok(());
                    }
                },
                _ => {},
            }
        }
        proof {
            assert(log0 + target.cbs =~= reader.log());
        }
        self.header = false;
        Ok(())
    }
}

impl Default for TableRow {
    /// A table-row accumulator with the header flag down and an empty cell
    /// reader.
    fn default() -> (r: TableRow)
        ensures
            r.is_clear(),
    {
        TableRow { header: false, cell: Paragraph::default() }
    }
}

/// The table forwarder: iterates rows within one table, emitting
/// row-boundary and table-end callbacks; one reusable row accumulator.
pub struct Table {
    pub row: TableRow,
}

impl Table {
    /// Whether the owned row accumulator has been reset to its default.
    pub open spec fn is_clear(&self) -> bool {
        self.row.is_clear()
    }

    /// Whether `name` opens or closes a table unit.
    pub fn is_tag(name: &QName) -> (r: bool)
        ensures
            r == is_table_tag(name@),
    {
        name.is_tag(Some("w"), "tbl")
    }

    /// Consumes events from `*pos` until the table's own close (or stream
    /// exhaustion). A row opening first emits a row-boundary callback —
    /// before any cell of that row is known — then delegates to the row
    /// accumulator; the table's own close emits a table-end callback. Rows
    /// are processed and fully reported one at a time. A nested table
    /// opening aborts with [`ParseError::NestedTable`]; a row's structural
    /// error propagates.
    #[verifier::loop_isolation(false)]
    pub fn forward<R: WordReader>(
        &mut self,
        events: &Vec<Event>,
        pos: &mut usize,
        reader: &mut R,
    ) -> (r: Result<(), ParseError>)
        requires
            *old(pos) <= events@.len(),
            old(self).is_clear(),
        ensures
            ({
                let m = table_model(stream_view(events), *old(pos) as int);
                &&& final(reader).log() == old(reader).log() + m.cbs
                &&& *final(pos) as int == m.next
                &&& *final(pos) <= events@.len()
                &&& (r is Ok) == (m.err is None)
                &&& (r matches Err(e) ==> m.err == Some(e))
                &&& (r is Ok ==> final(self).is_clear())
            }),
    {
        let ghost sv = stream_view(events);
        let ghost log0 = reader.log();
        let ghost target = table_model(sv, *pos as int);
        while *pos < events.len()
            invariant
                *pos <= events@.len(),
                self.is_clear(),
                log0 + target.cbs == reader.log() + table_model(sv, *pos as int).cbs,
                target.next == table_model(sv, *pos as int).next,
                target.err == table_model(sv, *pos as int).err,
            decreases events@.len() - *pos,
        {
            let j = *pos;
            *pos = j + 1;
            match &events[j] {
                Event::Open { name, attributes } => {
                    if Table::is_tag(name) {
                        proof {
                            assert(log0 + target.cbs =~= reader.log());
                        }
                        return Err(ParseError::NestedTable);
                    } else if TableRow::is_tag(name) {
                        let ghost log_at_row = reader.log();
                        reader.table_new_row();
                        let row_result = self.row.forward(events, pos, reader);
                        if let Err(e) = row_result {
                            proof {
                                let inner = row_model(sv, j as int + 1, false);
                                assert(log_at_row + (seq![CallbackView::RowStarted] + inner.cbs)
                                    =~= log_at_row.push(CallbackView::RowStarted) + inner.cbs);
                            }
                            return Err(e);
                        }
                        proof {
                            crate::model::lemma_row_bounds(sv, j as int + 1, false);
                            let inner = row_model(sv, j as int + 1, false);
                            let rest = table_model(sv, inner.next);
                            assert(log_at_row + (seq![CallbackView::RowStarted] + inner.cbs
                                + rest.cbs) =~= (log_at_row.push(CallbackView::RowStarted)
                                + inner.cbs) + rest.cbs);
                        }
                    }
                },
                Event::Close { name } => {
                    if Table::is_tag(name) {
                        reader.table_closed();
                        proof {
                            assert(log0 + target.cbs =~= reader.log());
                        }
                        return Ok(());
                    }
                },
                _ => {},
            }
        }
        proof {
            assert(log0 + target.cbs =~= reader.log());
        }
        Ok(())
    }
}

impl Default for Table {
    /// A table forwarder with an empty row accumulator.
    fn default() -> (r: Table)
        ensures
            r.is_clear(),
    {
        Table { row: TableRow::default() }
    }
}

/// The document root: the top-level dispatcher over the whole event stream.
pub struct DocumentRoot {
    pub paragraph: Paragraph,
    pub table: Table,
}

impl DocumentRoot {
    /// Whether both owned accumulators have been reset to their defaults.
    pub open spec fn is_clear(&self) -> bool {
        self.paragraph.is_clear() && self.table.is_clear()
    }

    /// Emits one paragraph-result callback carrying the just-parsed text and
    /// style, then clears the paragraph accumulator for reuse.
    pub fn send<R: WordReader>(&mut self, reader: &mut R)
        ensures
            final(reader).log() == old(reader).log().push(
                CallbackView::Paragraph {
                    text: old(self).paragraph.text.content@,
                    style: old(self).paragraph.style.name@,
                },
            ),
            final(self).paragraph.is_clear(),
            final(self).table == old(self).table,
    {
        reader.paragraph_row(&self.paragraph.text.content, &self.paragraph.style.name);
        self.paragraph.clear();
    }

    /// The top-level loop over the whole stream: a paragraph opening parses
    /// one paragraph and emits its result immediately after the unit
    /// completes; a table opening delegates entirely to the table forwarder,
    /// which owns all table-related emission; every other top-level event
    /// passes through inert. Parsing ends at stream exhaustion — no
    /// top-level closing event is expected — or at the first structural
    /// error, which aborts everything; callbacks already emitted stand.
    #[verifier::loop_isolation(false)]
    pub fn parse<R: WordReader>(&mut self, events: &Vec<Event>, reader: &mut R) -> (r: Result<
        (),
        ParseError,
    >)
        requires
            old(self).is_clear(),
        ensures
            ({
                let m = doc_model(stream_view(events), 0);
                &&& final(reader).log() == old(reader).log() + m.cbs
                &&& (r is Ok) == (m.err is None)
                &&& (r matches Err(e) ==> m.err == Some(e))
                &&& (r is Ok ==> final(self).is_clear())
            }),
    {
        let ghost sv = stream_view(events);
        let ghost log0 = reader.log();
        let ghost target = doc_model(sv, 0);
        let mut pos: usize = 0;
        while pos < events.len()
            invariant
                pos <= events@.len(),
                self.is_clear(),
                log0 + target.cbs == reader.log() + doc_model(sv, pos as int).cbs,
                target.err == doc_model(sv, pos as int).err,
            decreases events@.len() - pos,
        {
            let j = pos;
            pos = j + 1;
            match &events[j] {
                Event::Open { name, attributes } => {
                    if Paragraph::is_tag(name) {
                        if let Err(e) = self.paragraph.parse(events, &mut pos) {
                            proof {
                                assert(log0 + target.cbs =~= reader.log());
                            }
                            return Err(e);
                        }
                        proof {
                            crate::model::lemma_paragraph_bounds(
                                sv,
                                j as int + 1,
                                Seq::empty(),
                                Seq::empty(),
                            );
                        }
                        let ghost log_at_p = reader.log();
                        self.send(reader);
                        proof {
                            let p = paragraph_model(sv, j as int + 1, Seq::empty(), Seq::empty());
                            let rest = doc_model(sv, p.next);
                            let p_cb = CallbackView::Paragraph { text: p.text, style: p.style };
                            assert(log_at_p + (seq![p_cb] + rest.cbs) =~= log_at_p.push(p_cb)
                                + rest.cbs);
                        }
                    } else if Table::is_tag(name) {
                        let ghost log_at_t = reader.log();
                        let table_result = self.table.forward(events, &mut pos, reader);
                        if let Err(e) = table_result {
                            proof {
                                let t = table_model(sv, j as int + 1);
                                assert(log_at_t + t.cbs =~= reader.log());
                                assert(log0 + target.cbs =~= reader.log());
                            }
                            return Err(e);
                        }
                        proof {
                            crate::model::lemma_table_bounds(sv, j as int + 1);
                            let t = table_model(sv, j as int + 1);
                            let rest = doc_model(sv, t.next);
                            assert(log_at_t + (t.cbs + rest.cbs) =~= (log_at_t + t.cbs)
                                + rest.cbs);
                        }
                    }
                },
                _ => {},
            }
        }
        proof {
            assert(log0 + target.cbs =~= reader.log());
        }
        Ok(())
    }
}

impl Default for DocumentRoot {
    /// A document root with empty accumulators, ready to parse.
    fn default() -> (r: DocumentRoot)
        ensures
            r.is_clear(),
    {
        DocumentRoot { paragraph: Paragraph::default(), table: Table::default() }
    }
}

} // verus!
