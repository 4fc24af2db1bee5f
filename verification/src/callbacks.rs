//! The callback interface the parser reports completed units through, and the
//! structural error that aborts a parse.

use vstd::prelude::*;

verus! {

/// The unrecoverable structural error: an element illegally nests an instance
/// of its own kind. Nothing is retried; already-emitted callbacks stand.
#[derive(Clone, Copy, PartialEq, Eq, Structural, Debug)]
pub enum ParseError {
    /// A paragraph-like unit opened inside a paragraph-like unit.
    NestedParagraph,
    /// A style-reference unit opened inside a style-reference unit.
    NestedStyle,
    /// A text-run unit opened inside a text-run unit.
    NestedText,
    /// A table opened inside a table.
    NestedTable,
    /// A table row opened inside a table row.
    NestedRow,
}

/// Mathematical value of one emitted callback.
pub enum CallbackView {
    /// A completed top-level paragraph: its text and its style name.
    Paragraph { text: Seq<char>, style: Seq<char> },
    /// A table row is starting, before any of its cells is known.
    RowStarted,
    /// A table's closing event was consumed.
    TableClosed,
    /// A completed table cell: text, style name, and the row's header flag as
    /// it stood at the moment the cell closed.
    Cell { text: Seq<char>, style: Seq<char>, header: bool },
}

/// One recorded callback, as a [`crate::callbacks::CallbackLog`] stores it.
#[derive(Debug)]
pub enum Callback {
    Paragraph { text: String, style: String },
    RowStarted,
    TableClosed,
    Cell { text: String, style: String, header: bool },
}

impl View for Callback {
    type V = CallbackView;

    open spec fn view(&self) -> CallbackView {
        match self {
            Callback::Paragraph { text, style } => CallbackView::Paragraph {
                text: text@,
                style: style@,
            },
            Callback::RowStarted => CallbackView::RowStarted,
            Callback::TableClosed => CallbackView::TableClosed,
            Callback::Cell { text, style, header } => CallbackView::Cell {
                text: text@,
                style: style@,
                header: *header,
            },
        }
    }
}

impl PartialEq for Callback {
    fn eq(&self, other: &Self) -> (r: bool) {
        match (self, other) {
            (
                Callback::Paragraph { text, style },
                Callback::Paragraph { text: other_text, style: other_style },
            ) => {
                crate::events::str_equal(text.as_str(), other_text.as_str())
                    && crate::events::str_equal(style.as_str(), other_style.as_str())
            },
            (Callback::RowStarted, Callback::RowStarted) => true,
            (Callback::TableClosed, Callback::TableClosed) => true,
            (
                Callback::Cell { text, style, header },
                Callback::Cell { text: other_text, style: other_style, header: other_header },
            ) => {
                crate::events::str_equal(text.as_str(), other_text.as_str())
                    && crate::events::str_equal(style.as_str(), other_style.as_str())
                    && *header == *other_header
            },
            _ => false,
        }
    }
}

impl vstd::std_specs::cmp::PartialEqSpecImpl for Callback {
    open spec fn obeys_eq_spec() -> bool {
        true
    }

    open spec fn eq_spec(&self, other: &Callback) -> bool {
        self@ == other@
    }
}

/// The capability surface the parser emits results through. Callbacks are
/// invoked synchronously, in document order; `log` is the sequence of
/// callbacks received so far.
pub trait WordReader {
    /// Every callback received so far, oldest first.
    spec fn log(&self) -> Seq<CallbackView>;

    /// Fired once per completed top-level paragraph.
    fn paragraph_row(&mut self, text: &String, style: &String)
        ensures
            final(self).log() == old(self).log().push(
                CallbackView::Paragraph { text: text@, style: style@ },
            ),
    ;

    /// Fired once per table row, before that row's cells are parsed.
    fn table_new_row(&mut self)
        ensures
            final(self).log() == old(self).log().push(CallbackView::RowStarted),
    ;

    /// Fired once when a table's closing event is consumed.
    fn table_closed(&mut self)
        ensures
            final(self).log() == old(self).log().push(CallbackView::TableClosed),
    ;

    /// Fired once per completed cell, immediately after that cell's close;
    /// the header flag reflects the row's live state at that moment.
    fn table_cell(&mut self, text: &String, style: &String, header: bool)
        ensures
            final(self).log() == old(self).log().push(
                CallbackView::Cell { text: text@, style: style@, header },
            ),
    ;
}

/// A sink that records every callback it receives, in order.
pub struct CallbackLog {
    pub entries: Vec<Callback>,
}

impl CallbackLog {
    /// An empty log.
    pub fn new() -> (r: CallbackLog)
        ensures
            r.log() == Seq::<CallbackView>::empty(),
    {
        let r = CallbackLog { entries: Vec::new() };
        proof {
            assert(r.log() =~= Seq::<CallbackView>::empty());
        }
        r
    }
}

impl WordReader for CallbackLog {
    open spec fn log(&self) -> Seq<CallbackView> {
        self.entries@.map_values(|c: Callback| c@)
    }

    fn paragraph_row(&mut self, text: &String, style: &String) {
        self.entries.push(Callback::Paragraph { text: text.clone(), style: style.clone() });
        proof {
            assert(self.log() =~= old(self).log().push(
                CallbackView::Paragraph { text: text@, style: style@ },
            ));
        }
    }

    fn table_new_row(&mut self) {
        self.entries.push(Callback::RowStarted);
        proof {
            assert(self.log() =~= old(self).log().push(CallbackView::RowStarted));
        }
    }

    fn table_closed(&mut self) {
        self.entries.push(Callback::TableClosed);
        proof {
            assert(self.log() =~= old(self).log().push(CallbackView::TableClosed));
        }
    }

    fn table_cell(&mut self, text: &String, style: &String, header: bool) {
        self.entries.push(Callback::Cell { text: text.clone(), style: style.clone(), header });
        proof {
            assert(self.log() =~= old(self).log().push(
                CallbackView::Cell { text: text@, style: style@, header },
            ));
        }
    }
}

} // verus!
