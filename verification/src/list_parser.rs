//! A small, self-contained recursive-descent parser over the same event
//! stream, for an html-like list grammar: unprefixed `li` units collected
//! under a root that runs to stream exhaustion. It is the simplest shape of
//! the descent the document parser uses, kept as a worked study of the
//! technique, together with the dispatch vocabulary a table-driven engine
//! would use over the same events.

use vstd::prelude::*;
use vstd::string::StringExecFns;

use crate::events::qname_matches;
use crate::events::Event;
use crate::events::EventView;

verus! {

/// What a state of a table-driven engine asks the driver to do next after
/// reading one event.
#[derive(Debug, PartialEq)]
pub enum NextAction {
    /// Keep reading in the current state.
    Stay,
    /// Enter the named child state if the transition table allows it,
    /// otherwise keep reading.
    ForwardOrStay(String),
    /// Leave the current state if it is the named one, otherwise keep
    /// reading.
    DoneIfStay(String),
    /// The stream is exhausted; leave unconditionally.
    Done,
}

/// One state of a table-driven engine: how it reads an event, and how it
/// folds the data its finished child states hand back.
pub trait ParserState<T, W> {
    /// Reads one event into the state's own data.
    fn read(&mut self, element: &T);

    /// Folds the children's collected data into the state's own.
    fn after_forwards(&mut self, children_data: &mut Vec<W>);
}

/// One list item: its accumulated text.
pub struct Li {
    pub text: String,
}

impl View for Li {
    type V = Seq<char>;

    open spec fn view(&self) -> Seq<char> {
        self.text@
    }
}

impl Default for Li {
    /// A list item with no text yet.
    fn default() -> (r: Li)
        ensures
            r@ == Seq::<char>::empty(),
    {
        Li { text: String::new() }
    }
}

/// The list root: every completed list item, in document order.
pub struct Root {
    pub content: Vec<Li>,
}

impl View for Root {
    type V = Seq<Seq<char>>;

    open spec fn view(&self) -> Seq<Seq<char>> {
        self.content@.map_values(|l: Li| l@)
    }
}

impl Default for Root {
    /// A root with no items yet.
    fn default() -> (r: Root)
        ensures
            r@ == Seq::<Seq<char>>::empty(),
    {
        let r = Root { content: Vec::new() };
        proof {
            assert(r@ =~= Seq::<Seq<char>>::empty());
        }
        r
    }
}

/// The data a finished state of the list grammar hands back to its parent.
pub enum ParsedData {
    /// No child has finished yet.
    NoPreviousData,
    /// A finished root.
    Root(Root),
    /// A finished list item.
    Li(Li),
}

/// Whether an unprefixed name has the given local name.
pub open spec fn is_plain_tag(n: crate::events::QNameView, local: Seq<char>) -> bool {
    qname_matches(n, None, local)
}

/// One list item, starting with `text` already accumulated: character
/// fragments are appended in order; the item ends at an unprefixed `li`
/// close or at stream exhaustion; everything else — raw-data and whitespace
/// fragments included — passes through inert.
pub open spec fn li_model(events: Seq<EventView>, i: int, text: Seq<char>) -> (Seq<char>, int)
    decreases events.len() - i,
{
    if i < 0 || i >= events.len() {
        (text, i)
    } else {
        match events[i] {
            EventView::Close { name } => {
                if is_plain_tag(name, "li"@) {
                    (text, i + 1)
                } else {
                    li_model(events, i + 1, text)
                }
            },
            EventView::Characters(s) => li_model(events, i + 1, text + s),
            _ => li_model(events, i + 1, text),
        }
    }
}

/// A list item consumes events and never steps backwards or past the end.
pub proof fn lemma_li_bounds(events: Seq<EventView>, i: int, text: Seq<char>)
    requires
        0 <= i <= events.len(),
    ensures
        i <= li_model(events, i, text).1 <= events.len(),
    decreases events.len() - i,
{
    if i < events.len() {
        match events[i] {
            EventView::Close { name } => {
                if !is_plain_tag(name, "li"@) {
                    lemma_li_bounds(events, i + 1, text);
                }
            },
            EventView::Characters(s) => lemma_li_bounds(events, i + 1, text + s),
            _ => lemma_li_bounds(events, i + 1, text),
        }
    }
}

/// The list root: each unprefixed `li` opening parses one item fresh and
/// appends its text; the root ends only at stream exhaustion.
pub open spec fn root_model(events: Seq<EventView>, i: int) -> (Seq<Seq<char>>, int)
    decreases events.len() - i,
{
    if i < 0 || i >= events.len() {
        (Seq::empty(), i)
    } else {
        match events[i] {
            EventView::Open { name, attributes } => {
                if is_plain_tag(name, "li"@) {
                    let item = li_model(events, i + 1, Seq::empty());
                    proof {
                        lemma_li_bounds(events, i + 1, Seq::empty());
                    }
                    let rest = root_model(events, item.1);
                    (seq![item.0] + rest.0, rest.1)
                } else {
                    root_model(events, i + 1)
                }
            },
            _ => root_model(events, i + 1),
        }
    }
}

/// The cursor of one pass over an event stream.
pub struct Parser {
    pub pos: usize,
}

impl Parser {
    /// A parser whose cursor stands at the stream's start.
    pub fn new() -> (r: Parser)
        ensures
            r.pos == 0,
    {
        Parser { pos: 0 }
    }

    /// Consumes events until the item's own close (or stream exhaustion),
    /// appending character fragments to one fresh list item; raw-data and
    /// whitespace fragments pass through inert, like any other markup.
    #[verifier::loop_isolation(false)]
    pub fn parse_li(&mut self, events: &Vec<Event>) -> (r: Li)
        requires
            old(self).pos <= events@.len(),
        ensures
            ({
                let m = li_model(crate::events::stream_view(events), old(self).pos as int, Seq::empty());
                &&& r@ == m.0
                &&& final(self).pos as int == m.1
                &&& final(self).pos <= events@.len()
            }),
    {
        let ghost sv = crate::events::stream_view(events);
        let mut li = Li::default();
        let ghost target = li_model(sv, self.pos as int, Seq::empty());
        while self.pos < events.len()
            invariant
                self.pos <= events@.len(),
                target == li_model(sv, self.pos as int, li@),
            decreases events@.len() - self.pos,
        {
            let j = self.pos;
            self.pos = j + 1;
            match &events[j] {
                Event::Close { name } => {
                    if name.is_tag(None, "li") {
                        return li;
                    }
                },
                Event::Characters(s) => li.text.append(s.as_str()),
                _ => {},
            }
        }
        li
    }

    /// The top-level loop over the whole stream: each unprefixed `li`
    /// opening parses one item and collects it; everything else passes
    /// through inert; the loop ends at stream exhaustion.
    #[verifier::loop_isolation(false)]
    pub fn parse_root(&mut self, events: &Vec<Event>) -> (r: Root)
        requires
            old(self).pos <= events@.len(),
        ensures
            ({
                let m = root_model(crate::events::stream_view(events), old(self).pos as int);
                &&& r@ == m.0
                &&& final(self).pos as int == m.1
            }),
    {
        let ghost sv = crate::events::stream_view(events);
        let mut data = Root::default();
        let ghost target = root_model(sv, self.pos as int);
        while self.pos < events.len()
            invariant
                self.pos <= events@.len(),
                target.0 == data@ + root_model(sv, self.pos as int).0,
                target.1 == root_model(sv, self.pos as int).1,
            decreases events@.len() - self.pos,
        {
            let j = self.pos;
            self.pos = j + 1;
            match &events[j] {
                Event::Open { name, attributes } => {
                    if name.is_tag(None, "li") {
                        let item = self.parse_li(events);
                        proof {
                            lemma_li_bounds(sv, j as int + 1, Seq::empty());
                        }
                        let ghost item_view = item@;
                        data.content.push(item);
                        proof {
                            let m_item = li_model(sv, j as int + 1, Seq::empty());
                            let rest = root_model(sv, m_item.1);
                            assert(data@ =~= data@.subrange(0, data@.len() - 1) + seq![item_view]);
                            assert((data@.subrange(0, data@.len() - 1) + seq![item_view]) + rest.0
                                =~= data@.subrange(0, data@.len() - 1) + (seq![item_view]
                                + rest.0));
                        }
                    }
                },
                _ => {},
            }
        }
        proof {
            assert(data@ + root_model(sv, self.pos as int).0 =~= data@);
        }
        data
    }
}

/// The dispatch a table-driven engine would use over these events: an
/// opening asks to enter the state named by the local name; a closing asks
/// to leave the state so named; every fragment stays.
pub fn get_next_state(event: &Event) -> (r: NextAction)
    ensures
        (event@ matches EventView::Open { name, attributes } ==> r matches
            NextAction::ForwardOrStay(s) && s@ == name.local),
        (event@ matches EventView::Close { name } ==> r matches NextAction::DoneIfStay(s) && s@
            == name.local),
        (crate::model::is_fragment(event@) ==> r matches NextAction::Stay),
{
    match event {
        Event::Open { name, attributes } => NextAction::ForwardOrStay(name.local.clone()),
        Event::Close { name } => NextAction::DoneIfStay(name.local.clone()),
        _ => NextAction::Stay,
    }
}

/// The payload the engine's list-item state takes from one event: the
/// characters of a text or raw-data fragment, nothing from anything else.
pub open spec fn read_payload(e: EventView) -> Option<Seq<char>> {
    match e {
        EventView::Characters(s) => Some(s),
        EventView::CData(s) => Some(s),
        _ => None,
    }
}

/// The texts of the `Li` wrappers in `s`, taken from the last to the first —
/// the order a drain by popping yields — with the other wrappers discarded.
pub open spec fn folded_items(s: Seq<ParsedData>) -> Seq<Seq<char>>
    decreases s.len(),
{
    if s.len() == 0 {
        Seq::empty()
    } else {
        match s.last() {
            ParsedData::Li(li) => seq![li@] + folded_items(s.drop_last()),
            _ => folded_items(s.drop_last()),
        }
    }
}

impl ParserState<Event, ParsedData> for Root {
    /// The root reads nothing from an event itself.
    fn read(&mut self, element: &Event)
        ensures
            *final(self) == *old(self),
    {
    }

    /// Drains the children's data and collects every finished list item, in
    /// the order they are popped; other wrappers are discarded.
    #[verifier::loop_isolation(false)]
    fn after_forwards(&mut self, children_data: &mut Vec<ParsedData>)
        ensures
            final(children_data)@.len() == 0,
            final(self)@ == old(self)@ + folded_items(old(children_data)@),
    {
        while children_data.len() > 0
            invariant
                old(self)@ + folded_items(old(children_data)@) == self@ + folded_items(
                    children_data@,
                ),
            decreases children_data@.len(),
        {
            let ghost view_before = self@;
            match children_data.pop() {
                Some(ParsedData::Li(li)) => {
                    let ghost li_view = li@;
                    self.content.push(li);
                    proof {
                        assert(self@ =~= view_before.push(li_view));
                        assert(view_before + (seq![li_view] + folded_items(children_data@))
                            =~= view_before.push(li_view) + folded_items(children_data@));
                    }
                },
                _ => {},
            }
        }
        proof {
            assert(self@ + folded_items(children_data@) =~= self@);
        }
    }
}

impl ParserState<Event, ParsedData> for Li {
    /// Appends a text or raw-data fragment's payload to the item's text;
    /// every other event leaves the item unchanged.
    fn read(&mut self, element: &Event)
        ensures
            final(self)@ == match read_payload(element@) {
                Some(s) => old(self)@ + s,
                None => old(self)@,
            },
    {
        match element {
            Event::Characters(s) => self.text.append(s.as_str()),
            Event::CData(s) => self.text.append(s.as_str()),
            _ => {},
        }
    }

    /// A list item has no child states; nothing to fold.
    fn after_forwards(&mut self, children_data: &mut Vec<ParsedData>)
        ensures
            *final(self) == *old(self),
            *final(children_data) == *old(children_data),
    {
    }
}

} // verus!
