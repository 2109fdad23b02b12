//! Reading the content of a zipped XML spreadsheet document: the rows and
//! cells of its tables, walked event by event.

use crate::text::{ends_with, is_suffix, to_chars};
use quick_xml::events::Event;
use std::borrow::Cow;
use vstd::prelude::*;
use vstd::string::StringExecFns;

verus! {

/// One piece of an XML document, as far as the walk tells pieces apart.
#[derive(Debug)]
pub enum XmlEvent {
    /// A start tag, with the name of the element.
    Start(String),
    /// An end tag, with the name of the element.
    End(String),
    /// Character data, with its escapes resolved.
    Text(String),
    /// The end of the document.
    Eof,
    /// The document is malformed from here on.
    Failed,
    /// Any other piece.
    Other,
}

/// One piece of an XML document, as mathematical values.
pub enum XmlEventView {
    Start(Seq<char>),
    End(Seq<char>),
    Text(Seq<char>),
    Eof,
    Failed,
    Other,
}

impl View for XmlEvent {
    type V = XmlEventView;

    open spec fn view(&self) -> XmlEventView {
        match self {
            XmlEvent::Start(name) => XmlEventView::Start(name@),
            XmlEvent::End(name) => XmlEventView::End(name@),
            XmlEvent::Text(text) => XmlEventView::Text(text@),
            XmlEvent::Eof => XmlEventView::Eof,
            XmlEvent::Failed => XmlEventView::Failed,
            XmlEvent::Other => XmlEventView::Other,
        }
    }
}

/// Why a source could not be read as a table.
#[derive(Clone, Copy, Debug, PartialEq, Eq, Structural)]
pub enum IngestionError {
    /// The source cannot be read as what it should be.
    Unreadable,
}

/// The declaration of `quick_xml::Reader`, whose inside the library does not
/// look at.
#[verifier::external_type_specification]
#[verifier::external_body]
#[verifier::reject_recursive_types(R)]
pub struct ExReader<R>(quick_xml::Reader<R>);

/// The events that a reader over `content`, with whitespace around text
/// trimmed, gives before it reports the end of the document.
pub uninterp spec fn xml_events(content: Seq<char>) -> Seq<XmlEventView>;

/// The events that `reader` has yet to give before it reports the end of the
/// document.
pub uninterp spec fn events_left(reader: quick_xml::Reader<&[u8]>) -> Seq<XmlEventView>;

/// Makes a reader over `content` with `quick_xml::Reader::from_str` and lets
/// it trim the whitespace around text with `Reader::trim_text`.
///
/// Trusted: what the reader will give is a function of `content` alone, and
/// it is that function which `xml_events` names.
#[verifier::external_body]
fn open_reader(content: &str) -> (reader: quick_xml::Reader<&[u8]>)
    ensures
        events_left(reader) == xml_events(content@),
{
    let mut reader = quick_xml::Reader::from_str(content);
    reader.trim_text(true);
    reader
}

/// Takes the next event from `reader` with `quick_xml::Reader::read_event`.
/// A start or end tag comes with its name, character data with its escapes
/// resolved by `BytesText::unescape`; an error of the reader is `Failed`;
/// a piece of another kind, a name that is not UTF-8 and text whose escapes
/// cannot be resolved are `Other`.
///
/// Trusted: the reader gives its events in order, one per call, and reports
/// the end of the document when none is left, and from then on.
#[verifier::external_body]
fn next_event(reader: &mut quick_xml::Reader<&[u8]>) -> (event: XmlEvent)
    ensures
        events_left(*old(reader)).len() == 0
            ==> event is Eof && events_left(*final(reader)).len() == 0,
        events_left(*old(reader)).len() > 0
            ==> event@ == events_left(*old(reader))[0] && !(event is Eof)
            && events_left(*final(reader)) == events_left(*old(reader)).drop_first(),
{
    match reader.read_event() {
        Ok(Event::Start(e)) => String::from_utf8(e.name().as_ref().to_vec()).map_or(XmlEvent::Other,
            XmlEvent::Start),
        Ok(Event::End(e)) => String::from_utf8(e.name().as_ref().to_vec()).map_or(XmlEvent::Other,
            XmlEvent::End),
        Ok(Event::Text(e)) => e.unescape().map(Cow::into_owned).map_or(XmlEvent::Other,
            XmlEvent::Text),
        Ok(Event::Eof) => XmlEvent::Eof,
        Ok(_) => XmlEvent::Other,
        Err(_) => XmlEvent::Failed,
    }
}

/// What the walk through a document has gathered.
#[derive(Debug)]
pub struct SheetWalker {
    /// The rows that are complete.
    pub rows: Vec<Vec<String>>,
    /// The cells of the row that the walk is in.
    pub current_row: Vec<String>,
    /// The text of the cell that the walk is in.
    pub current_cell: String,
    /// Whether the walk is within a paragraph of text.
    pub in_paragraph: bool,
}

/// What the walk through a document has gathered, as mathematical values.
pub struct SheetWalkerView {
    pub rows: Seq<Seq<Seq<char>>>,
    pub current_row: Seq<Seq<char>>,
    pub current_cell: Seq<char>,
    pub in_paragraph: bool,
}

impl View for SheetWalker {
    type V = SheetWalkerView;

    open spec fn view(&self) -> SheetWalkerView {
        SheetWalkerView {
            rows: self.rows.deep_view(),
            current_row: self.current_row.deep_view(),
            current_cell: self.current_cell@,
            in_paragraph: self.in_paragraph,
        }
    }
}

/// The element is a row of a table.
pub open spec fn names_row(name: Seq<char>) -> bool {
    is_suffix("table-row"@, name)
}

/// The element is a cell of a table.
pub open spec fn names_cell(name: Seq<char>) -> bool {
    is_suffix("table-cell"@, name)
}

/// The element is a paragraph of text.
pub open spec fn names_paragraph(name: Seq<char>) -> bool {
    is_suffix("p"@, name)
}

impl SheetWalkerView {
    /// The walk before the first event.
    pub open spec fn start() -> SheetWalkerView {
        SheetWalkerView {
            rows: Seq::empty(),
            current_row: Seq::empty(),
            current_cell: Seq::empty(),
            in_paragraph: false,
        }
    }

    /// The walk after one more event. A row begins without cells and a cell
    /// without text; text within a paragraph joins the text of the cell;
    /// the end of a cell adds the cell to the row, and the end of a row adds
    /// the row to the rows.
    pub open spec fn step(self, event: XmlEventView) -> SheetWalkerView {
        match event {
            XmlEventView::Start(name) => if names_row(name) {
                SheetWalkerView { current_row: Seq::empty(), ..self }
            } else if names_cell(name) {
                SheetWalkerView { current_cell: Seq::empty(), ..self }
            } else if names_paragraph(name) {
                SheetWalkerView { in_paragraph: true, ..self }
            } else {
                self
            },
            XmlEventView::Text(text) => if self.in_paragraph {
                SheetWalkerView { current_cell: self.current_cell + text, ..self }
            } else {
                self
            },
            XmlEventView::End(name) => if names_paragraph(name) {
                SheetWalkerView { in_paragraph: false, ..self }
            } else if names_cell(name) {
                SheetWalkerView { current_row: self.current_row.push(self.current_cell), ..self }
            } else if names_row(name) {
                SheetWalkerView { rows: self.rows.push(self.current_row), ..self }
            } else {
                self
            },
            _ => self,
        }
    }

    /// The rows at the end of a walk that goes on through `events`, or the
    /// error of a document that is malformed.
    pub open spec fn finish(self, events: Seq<XmlEventView>) -> Result<Seq<Seq<Seq<char>>>,
        IngestionError>
        decreases events.len(),
    {
        if events.len() == 0 || events[0] is Eof {
            Ok(self.rows)
        } else if events[0] is Failed {
            Err(IngestionError::Unreadable)
        } else {
            self.step(events[0]).finish(events.drop_first())
        }
    }
}

/// What the result of reading a sheet holds, as mathematical values.
pub open spec fn rows_view(result: Result<Vec<Vec<String>>, IngestionError>) -> Result<
    Seq<Seq<Seq<char>>>,
    IngestionError,
> {
    match result {
        Ok(rows) => Ok(rows.deep_view()),
        Err(e) => Err(e),
    }
}

impl SheetWalker {
    /// A walk before the first event.
    pub fn new() -> (walker: SheetWalker)
        ensures
            walker@ == SheetWalkerView::start(),
    {
        let walker = SheetWalker {
            rows: Vec::new(),
            current_row: Vec::new(),
            current_cell: String::new(),
            in_paragraph: false,
        };
        assert(walker@.rows =~= Seq::empty());
        assert(walker@.current_row =~= Seq::empty());
        walker
    }

    /// Takes one event into the walk.
    pub fn step(&mut self, event: &XmlEvent)
        ensures
            final(self)@ == old(self)@.step(event@),
    {
        let row = to_chars("table-row");
        let cell = to_chars("table-cell");
        let paragraph = to_chars("p");
        match event {
            XmlEvent::Start(name) => {
                let name = to_chars(name.as_str());
                if ends_with(&name, &row) {
                    self.current_row = Vec::new();
                    assert(self@.current_row =~= Seq::empty());
                } else if ends_with(&name, &cell) {
                    self.current_cell = String::new();
                } else if ends_with(&name, &paragraph) {
                    self.in_paragraph = true;
                }
            },
            XmlEvent::Text(text) => {
                if self.in_paragraph {
                    self.current_cell.append(text.as_str());
                }
            },
            XmlEvent::End(name) => {
                let name = to_chars(name.as_str());
                if ends_with(&name, &paragraph) {
                    self.in_paragraph = false;
                } else if ends_with(&name, &cell) {
                    let ghost before = self@.current_row;
                    self.current_row.push(self.current_cell.clone());
                    assert(self@.current_row =~= before.push(self@.current_cell));
                } else if ends_with(&name, &row) {
                    let ghost before = self@.rows;
                    self.rows.push(self.current_row.clone());
                    assert(self@.rows =~= before.push(self@.current_row));
                }
            },
            _ => {},
        }
    }
}

/// The rows of a document whose events are given, or the error of a
/// document that is malformed. Events behind the end of the document do not
/// count.
pub fn walk(events: &Vec<XmlEvent>) -> (result: Result<Vec<Vec<String>>, IngestionError>)
    ensures
        rows_view(result) == SheetWalkerView::start().finish(events@.map_values(|e: XmlEvent| e@)),
{
    let ghost all = events@.map_values(|e: XmlEvent| e@);
    let mut walker = SheetWalker::new();
    let n = events.len();
    assert(all.skip(0) =~= all);
    for i in 0..n
        invariant
            n == events@.len(),
            all == events@.map_values(|e: XmlEvent| e@),
            walker@.finish(all.skip(i as int)) == SheetWalkerView::start().finish(all),
    {
        assert(all.skip(i as int)[0] == events@[i as int]@);
        assert(all.skip(i as int).drop_first() =~= all.skip(i + 1));
        match &events[i] {
            XmlEvent::Eof => {
                return Ok(walker.rows);
            },
            XmlEvent::Failed => {
                return Err(IngestionError::Unreadable);
            },
            event => {
                walker.step(event);
            },
        }
    }
    Ok(walker.rows)
}

/// The rows of the tables in the XML text `content`, or the error of a
/// document that is malformed.
pub fn read_sheet(content: &str) -> (result: Result<Vec<Vec<String>>, IngestionError>)
    ensures
        rows_view(result) == SheetWalkerView::start().finish(xml_events(content@)),
{
    let mut reader = open_reader(content);
    let mut walker = SheetWalker::new();
    loop
        invariant
            walker@.finish(events_left(reader))
                == SheetWalkerView::start().finish(xml_events(content@)),
        decreases events_left(reader).len(),
    {
        let event = next_event(&mut reader);
        match event {
            XmlEvent::Eof => {
                return Ok(walker.rows);
            },
            XmlEvent::Failed => {
                return Err(IngestionError::Unreadable);
            },
            event => {
                walker.step(&event);
            },
        }
    }
}

} // verus!
