//! End-to-end tests of the document parser through the public callback log.

use docx_text::callbacks::{Callback, CallbackLog, ParseError};
use docx_text::events::{Attribute, Event, QName};
use docx_text::mso_doc::DocumentRoot;

fn w(local: &str) -> QName {
    QName { prefix: Some("w".to_string()), local: local.to_string() }
}

fn open(local: &str) -> Event {
    Event::Open { name: w(local), attributes: Vec::new() }
}

fn open_with(local: &str, attributes: Vec<Attribute>) -> Event {
    Event::Open { name: w(local), attributes }
}

fn close(local: &str) -> Event {
    Event::Close { name: w(local) }
}

fn chars(s: &str) -> Event {
    Event::Characters(s.to_string())
}

fn val_attr(value: &str) -> Attribute {
    Attribute { name: w("val"), value: value.to_string() }
}

fn run(events: Vec<Event>) -> (Result<(), ParseError>, Vec<Callback>) {
    let mut root = DocumentRoot::default();
    let mut log = CallbackLog::new();
    let outcome = root.parse(&events, &mut log);
    (outcome, log.entries)
}

fn paragraph(text: &str, style: &str) -> Callback {
    Callback::Paragraph { text: text.to_string(), style: style.to_string() }
}

fn cell(text: &str, style: &str, header: bool) -> Callback {
    Callback::Cell { text: text.to_string(), style: style.to_string(), header }
}

#[test]
fn fragments_concatenate_without_separator() {
    let events = vec![
        open("p"),
        open("t"),
        chars("A"),
        chars("B"),
        chars("C"),
        close("t"),
        close("p"),
    ];
    let (outcome, entries) = run(events);
    assert_eq!(outcome, Ok(()));
    assert_eq!(entries, vec![paragraph("ABC", "")]);
}

#[test]
fn mixed_fragment_kinds_concatenate_in_order() {
    let events = vec![
        open("p"),
        open("t"),
        chars("a"),
        Event::Whitespace(" ".to_string()),
        Event::CData("b".to_string()),
        close("t"),
        close("p"),
    ];
    let (outcome, entries) = run(events);
    assert_eq!(outcome, Ok(()));
    assert_eq!(entries, vec![paragraph("a b", "")]);
}

#[test]
fn missing_style_reference_reports_empty_string() {
    let events = vec![open("p"), open("t"), chars("body"), close("t"), close("p")];
    let (outcome, entries) = run(events);
    assert_eq!(outcome, Ok(()));
    assert_eq!(entries, vec![paragraph("body", "")]);
}

#[test]
fn table_reports_rows_cells_and_close_in_order() {
    let events = vec![
        open("tbl"),
        open("tr"),
        open_with("tblHeader", vec![val_attr("true")]),
        close("tblHeader"),
        open("p"),
        open("t"),
        chars("a1"),
        close("t"),
        close("p"),
        open("p"),
        open("t"),
        chars("a2"),
        close("t"),
        close("p"),
        close("tr"),
        open("tr"),
        open("p"),
        open("t"),
        chars("b1"),
        close("t"),
        close("p"),
        open("p"),
        open("t"),
        chars("b2"),
        close("t"),
        close("p"),
        close("tr"),
        close("tbl"),
    ];
    let (outcome, entries) = run(events);
    assert_eq!(outcome, Ok(()));
    assert_eq!(
        entries,
        vec![
            Callback::RowStarted,
            cell("a1", "", true),
            cell("a2", "", true),
            Callback::RowStarted,
            cell("b1", "", false),
            cell("b2", "", false),
            Callback::TableClosed,
        ]
    );
}

#[test]
fn header_flag_is_live_not_row_wide() {
    let events = vec![
        open("tbl"),
        open("tr"),
        open("p"),
        open("t"),
        chars("first"),
        close("t"),
        close("p"),
        open_with("tblHeader", vec![val_attr("true")]),
        close("tblHeader"),
        open("p"),
        open("t"),
        chars("second"),
        close("t"),
        close("p"),
        close("tr"),
        close("tbl"),
    ];
    let (outcome, entries) = run(events);
    assert_eq!(outcome, Ok(()));
    assert_eq!(
        entries,
        vec![
            Callback::RowStarted,
            cell("first", "", false),
            cell("second", "", true),
            Callback::TableClosed,
        ]
    );
}

#[test]
fn header_flag_resets_between_rows() {
    let events = vec![
        open("tbl"),
        open("tr"),
        open_with("tblHeader", vec![val_attr("true")]),
        close("tblHeader"),
        open("p"),
        close("p"),
        close("tr"),
        open("tr"),
        open("p"),
        close("p"),
        close("tr"),
        close("tbl"),
    ];
    let (outcome, entries) = run(events);
    assert_eq!(outcome, Ok(()));
    assert_eq!(
        entries,
        vec![
            Callback::RowStarted,
            cell("", "", true),
            Callback::RowStarted,
            cell("", "", false),
            Callback::TableClosed,
        ]
    );
}

#[test]
fn header_marker_value_other_than_true_clears_the_flag() {
    let events = vec![
        open("tbl"),
        open("tr"),
        open_with("tblHeader", vec![val_attr("true")]),
        close("tblHeader"),
        open_with("tblHeader", vec![val_attr("1")]),
        close("tblHeader"),
        open("p"),
        close("p"),
        close("tr"),
        close("tbl"),
    ];
    let (outcome, entries) = run(events);
    assert_eq!(outcome, Ok(()));
    assert_eq!(
        entries,
        vec![Callback::RowStarted, cell("", "", false), Callback::TableClosed]
    );
}

#[test]
fn header_marker_without_value_attribute_reads_false() {
    let events = vec![
        open("tbl"),
        open("tr"),
        open("tblHeader"),
        close("tblHeader"),
        open("p"),
        close("p"),
        close("tr"),
        close("tbl"),
    ];
    let (outcome, entries) = run(events);
    assert_eq!(outcome, Ok(()));
    assert_eq!(
        entries,
        vec![Callback::RowStarted, cell("", "", false), Callback::TableClosed]
    );
}

#[test]
fn nested_paragraph_aborts_before_outer_result_fires() {
    let events = vec![open("p"), open("t"), chars("lost"), close("t"), open("p")];
    let (outcome, entries) = run(events);
    assert_eq!(outcome, Err(ParseError::NestedParagraph));
    assert_eq!(entries, Vec::new());
}

#[test]
fn styled_paragraph_with_two_text_runs() {
    let events = vec![
        open("p"),
        open_with("pStyle", vec![val_attr("Heading1")]),
        close("pStyle"),
        open("t"),
        chars("Hello"),
        close("t"),
        open("t"),
        chars(" World"),
        close("t"),
        close("p"),
    ];
    let (outcome, entries) = run(events);
    assert_eq!(outcome, Ok(()));
    assert_eq!(entries, vec![paragraph("Hello World", "Heading1")]);
}

#[test]
fn rerunning_the_same_events_gives_an_identical_callback_sequence() {
    let build = || {
        vec![
            open("p"),
            open_with("pStyle", vec![val_attr("Quote")]),
            close("pStyle"),
            open("t"),
            chars("once"),
            close("t"),
            close("p"),
            open("tbl"),
            open("tr"),
            open("p"),
            open("t"),
            chars("cell"),
            close("t"),
            close("p"),
            close("tr"),
            close("tbl"),
        ]
    };
    let (first_outcome, first_entries) = run(build());
    let (second_outcome, second_entries) = run(build());
    assert_eq!(first_outcome, Ok(()));
    assert_eq!(first_outcome, second_outcome);
    assert_eq!(first_entries, second_entries);
}

#[test]
fn no_state_bleeds_between_sibling_paragraphs() {
    let events = vec![
        open("p"),
        open_with("pStyle", vec![val_attr("Heading1")]),
        close("pStyle"),
        open("t"),
        chars("first"),
        close("t"),
        close("p"),
        open("p"),
        open("t"),
        chars("second"),
        close("t"),
        close("p"),
    ];
    let (outcome, entries) = run(events);
    assert_eq!(outcome, Ok(()));
    assert_eq!(
        entries,
        vec![paragraph("first", "Heading1"), paragraph("second", "")]
    );
}

#[test]
fn truncated_stream_still_reports_the_open_paragraph() {
    let events = vec![open("p"), open("t"), chars("tail")];
    let (outcome, entries) = run(events);
    assert_eq!(outcome, Ok(()));
    assert_eq!(entries, vec![paragraph("tail", "")]);
}

#[test]
fn truncated_table_reports_no_table_end() {
    let events = vec![open("tbl"), open("tr"), open("p"), close("p")];
    let (outcome, entries) = run(events);
    assert_eq!(outcome, Ok(()));
    assert_eq!(entries, vec![Callback::RowStarted, cell("", "", false)]);
}

#[test]
fn nested_text_run_aborts() {
    let events = vec![open("p"), open("t"), open("t")];
    let (outcome, entries) = run(events);
    assert_eq!(outcome, Err(ParseError::NestedText));
    assert_eq!(entries, Vec::new());
}

#[test]
fn nested_style_reference_aborts() {
    let events = vec![
        open("p"),
        open_with("pStyle", vec![val_attr("a")]),
        open_with("pStyle", vec![val_attr("b")]),
    ];
    let (outcome, entries) = run(events);
    assert_eq!(outcome, Err(ParseError::NestedStyle));
    assert_eq!(entries, Vec::new());
}

#[test]
fn nested_table_aborts() {
    let events = vec![open("tbl"), open("tbl")];
    let (outcome, entries) = run(events);
    assert_eq!(outcome, Err(ParseError::NestedTable));
    assert_eq!(entries, Vec::new());
}

#[test]
fn nested_row_aborts() {
    let events = vec![open("tbl"), open("tr"), open("tr")];
    let (outcome, entries) = run(events);
    assert_eq!(outcome, Err(ParseError::NestedRow));
    assert_eq!(entries, vec![Callback::RowStarted]);
}

#[test]
fn callbacks_emitted_before_a_later_abort_stand() {
    let events = vec![
        open("p"),
        open("t"),
        chars("kept"),
        close("t"),
        close("p"),
        open("tbl"),
        open("tbl"),
    ];
    let (outcome, entries) = run(events);
    assert_eq!(outcome, Err(ParseError::NestedTable));
    assert_eq!(entries, vec![paragraph("kept", "")]);
}

#[test]
fn unrecognized_units_pass_through_inert() {
    let events = vec![
        Event::Open { name: w("bookmarkStart"), attributes: Vec::new() },
        open("p"),
        Event::Open { name: w("rPr"), attributes: Vec::new() },
        close("rPr"),
        open("t"),
        chars("kept"),
        close("t"),
        close("p"),
        Event::Close { name: w("bookmarkStart") },
    ];
    let (outcome, entries) = run(events);
    assert_eq!(outcome, Ok(()));
    assert_eq!(entries, vec![paragraph("kept", "")]);
}

#[test]
fn bare_fragments_outside_a_text_run_are_ignored() {
    let events = vec![open("p"), chars("loose"), open("t"), chars("kept"), close("t"), close("p")];
    let (outcome, entries) = run(events);
    assert_eq!(outcome, Ok(()));
    assert_eq!(entries, vec![paragraph("kept", "")]);
}

#[test]
fn later_style_reference_overwrites_an_earlier_one() {
    let events = vec![
        open("p"),
        open_with("pStyle", vec![val_attr("First")]),
        close("pStyle"),
        open_with("pStyle", vec![val_attr("Second")]),
        close("pStyle"),
        close("p"),
    ];
    let (outcome, entries) = run(events);
    assert_eq!(outcome, Ok(()));
    assert_eq!(entries, vec![paragraph("", "Second")]);
}

#[test]
fn cell_style_is_reported_per_cell() {
    let events = vec![
        open("tbl"),
        open("tr"),
        open("p"),
        open_with("pStyle", vec![val_attr("CellStyle")]),
        close("pStyle"),
        open("t"),
        chars("x"),
        close("t"),
        close("p"),
        open("p"),
        close("p"),
        close("tr"),
        close("tbl"),
    ];
    let (outcome, entries) = run(events);
    assert_eq!(outcome, Ok(()));
    assert_eq!(
        entries,
        vec![
            Callback::RowStarted,
            cell("x", "CellStyle", false),
            cell("", "", false),
            Callback::TableClosed,
        ]
    );
}

#[test]
fn root_is_reusable_after_a_successful_parse() {
    let mut root = DocumentRoot::default();
    let first_events = vec![
        open("tbl"),
        open("tr"),
        open_with("tblHeader", vec![val_attr("true")]),
        close("tblHeader"),
        open("p"),
        open("t"),
        chars("head"),
        close("t"),
        close("p"),
        close("tr"),
        close("tbl"),
    ];
    let mut first_log = CallbackLog::new();
    assert_eq!(root.parse(&first_events, &mut first_log), Ok(()));
    assert_eq!(
        first_log.entries,
        vec![Callback::RowStarted, cell("head", "", true), Callback::TableClosed]
    );
    let second_events = vec![open("p"), open("t"), chars("plain"), close("t"), close("p")];
    let mut second_log = CallbackLog::new();
    assert_eq!(root.parse(&second_events, &mut second_log), Ok(()));
    assert_eq!(second_log.entries, vec![paragraph("plain", "")]);
}

#[test]
fn empty_stream_emits_nothing() {
    let (outcome, entries) = run(Vec::new());
    assert_eq!(outcome, Ok(()));
    assert_eq!(entries, Vec::new());
}

#[test]
fn paragraphs_and_tables_interleave_in_document_order() {
    let events = vec![
        open("p"),
        open("t"),
        chars("before"),
        close("t"),
        close("p"),
        open("tbl"),
        open("tr"),
        open("p"),
        open("t"),
        chars("inside"),
        close("t"),
        close("p"),
        close("tr"),
        close("tbl"),
        open("p"),
        open("t"),
        chars("after"),
        close("t"),
        close("p"),
    ];
    let (outcome, entries) = run(events);
    assert_eq!(outcome, Ok(()));
    assert_eq!(
        entries,
        vec![
            paragraph("before", ""),
            Callback::RowStarted,
            cell("inside", "", false),
            Callback::TableClosed,
            paragraph("after", ""),
        ]
    );
}
