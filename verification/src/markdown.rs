//! The event model of a Markdown document, and the two calls that turn text
//! into events and events back into text.

use mdbook::utils::new_cmark_parser;
use pulldown_cmark::LinkType::Inline;
use pulldown_cmark::{Event, Tag};
use pulldown_cmark_to_cmark::fmt::cmark;
use vstd::prelude::*;

verus! {

/// `pulldown_cmark::Event`, of which nothing is known here.
#[verifier::external_type_specification]
#[verifier::external_body]
pub struct ExEvent<'a>(pulldown_cmark::Event<'a>);

/// `std::fmt::Error`, the error of the serializer.
#[verifier::external_type_specification]
#[verifier::external_body]
pub struct ExFmtError(std::fmt::Error);

/// What the library knows of an event that it only carries along.
#[derive(Debug, PartialEq, Eq, Clone, Copy)]
pub enum RawKind {
    /// The start of a table cell.
    CellStart,
    /// The end of a table cell.
    CellEnd,
    /// The end of the head of a table.
    HeadEnd,
    /// The end of a table.
    TableEnd,
    /// Anything else.
    Other,
}

/// An event that the parser produced and that this library only carries
/// along: anything but a code span or a run of text. Only parsing makes one.
#[derive(Debug, PartialEq)]
pub struct RawEvent<'a> {
    event: Event<'a>,
    kind: RawKind,
}

impl<'a> RawEvent<'a> {
    /// What kind of event this is.
    pub closed spec fn raw_kind(&self) -> RawKind {
        self.kind
    }

    /// What kind of event this is.
    pub fn kind(&self) -> (kind: RawKind)
        ensures
            kind == self.raw_kind(),
    {
        self.kind
    }
}

/// What a pair of start and end events encloses, for the pairs that this
/// library builds.
#[derive(Debug, PartialEq)]
pub enum Span {
    /// A heading of the given level.
    Header(i32),
    /// An inline link with its target and title.
    Link { dest: String, title: String },
}

/// The mathematical value of a [`Span`].
pub ghost enum SpanView {
    Header(int),
    Link { dest: Seq<char>, title: Seq<char> },
}

impl View for Span {
    type V = SpanView;

    open spec fn view(&self) -> SpanView {
        match *self {
            Span::Header(level) => SpanView::Header(level as int),
            Span::Link { dest, title } => SpanView::Link { dest: dest@, title: title@ },
        }
    }
}

/// One event of a document.
///
/// The variants with fields of their own are the ones that this library reads
/// or builds. Every other event of the parser is carried along in `Raw`.
#[derive(Debug, PartialEq)]
pub enum Node<'a> {
    /// An inline code span with its literal text.
    Code(String),
    /// A run of text.
    Text(String),
    /// The start of a heading or link.
    Start(Span),
    /// The end of a heading or link.
    End(Span),
    /// Any other event, as the parser produced it.
    Raw(RawEvent<'a>),
}

/// The mathematical value of a [`Node`].
pub ghost enum NodeView {
    Code(Seq<char>),
    Text(Seq<char>),
    Start(SpanView),
    End(SpanView),
    Raw(RawEvent<'static>),
}

impl<'a> View for Node<'a> {
    type V = NodeView;

    open spec fn view(&self) -> NodeView {
        match *self {
            Node::Code(text) => NodeView::Code(text@),
            Node::Text(text) => NodeView::Text(text@),
            Node::Start(span) => NodeView::Start(span@),
            Node::End(span) => NodeView::End(span@),
            Node::Raw(raw) => NodeView::Raw(raw),
        }
    }
}

/// The values of a sequence of nodes.
pub open spec fn view_nodes(nodes: Seq<Node<'_>>) -> Seq<NodeView> {
    nodes.map_values(|n: Node| n@)
}

/// The events that the parser reads from a document's text.
pub uninterp spec fn markdown_nodes(content: Seq<char>) -> Seq<NodeView>;

/// The text that the serializer writes for a sequence of events, or `None`
/// where it reports a formatting error.
pub uninterp spec fn cmark_text(nodes: Seq<NodeView>) -> Option<Seq<char>>;

/// Parses a document with `mdbook::utils::new_cmark_parser` and collects the
/// events: code spans and runs of text with their text, every other event as
/// it is, marked where it starts or ends a table cell or ends a table or its
/// head. The claim is only that the events are a function of the text.
#[verifier::external_body]
pub(crate) fn parse_nodes<'a>(content: &'a str) -> (nodes: Vec<Node<'a>>)
    ensures
        view_nodes(nodes@) == markdown_nodes(content@),
{
    new_cmark_parser(content).map(|event| match event {
        Event::Code(text) => Node::Code(text.into_string()),
        Event::Text(text) => Node::Text(text.into_string()),
        Event::Start(Tag::TableCell) => Node::Raw(RawEvent { event, kind: RawKind::CellStart }),
        Event::End(Tag::TableCell) => Node::Raw(RawEvent { event, kind: RawKind::CellEnd }),
        Event::End(Tag::TableHead) => Node::Raw(RawEvent { event, kind: RawKind::HeadEnd }),
        Event::End(Tag::Table(_)) => Node::Raw(RawEvent { event, kind: RawKind::TableEnd }),
        other => Node::Raw(RawEvent { event: other, kind: RawKind::Other }),
    }).collect()
}

/// Serializes events with `pulldown_cmark_to_cmark::fmt::cmark` into a fresh
/// string. The claim is only that the outcome is a function of the events.
/// The serializer keeps the first text of each table cell as the name of a
/// column, and where the head of a table ends it subtracts one from the
/// length of each name: `requires` leaves out the events that bring it there
/// with an empty name.
#[verifier::external_body]
pub(crate) fn render_nodes(nodes: &Vec<Node<'_>>) -> (out: Result<String, std::fmt::Error>)
    requires
        heads_named(view_nodes(nodes@)),
    ensures
        match out {
            Ok(text) => cmark_text(view_nodes(nodes@)) == Some(text@),
            Err(_) => cmark_text(view_nodes(nodes@)) is None,
        },
{
    let mut text = String::new();
    let tag = |s: &Span| match s {
        Span::Header(n) => Tag::Header(*n),
        Span::Link { dest, title } => Tag::Link(Inline, dest.clone().into(), title.clone().into()),
    };
    cmark(nodes.iter().map(|n| match n {
        Node::Code(t) => Event::Code(t.as_str().into()),
        Node::Text(t) => Event::Text(t.as_str().into()),
        Node::Start(s) => Event::Start(tag(s)),
        Node::End(s) => Event::End(tag(s)),
        Node::Raw(r) => r.event.clone(),
    }), &mut text, None)?;
    Ok(text)
}

/// What the serializer remembers of the table it is in.
pub ghost struct HeadState {
    /// Whether a cell has started whose first text is still to come.
    pub awaits_text: bool,
    /// Whether a first text is held for the cell that is open, and whether it
    /// is empty.
    pub held: Option<bool>,
    /// Whether one of the column names kept so far is empty.
    pub empty_name: bool,
}

/// The state of the serializer after one more event.
pub open spec fn head_step(state: HeadState, node: NodeView) -> HeadState {
    match node {
        NodeView::Text(text) => if state.awaits_text {
            HeadState { awaits_text: false, held: Some(text.len() == 0), ..state }
        } else {
            state
        },
        NodeView::Raw(raw) => match raw.raw_kind() {
            RawKind::CellStart => HeadState { awaits_text: true, ..state },
            RawKind::CellEnd => HeadState {
                held: None,
                empty_name: state.empty_name || state.held == Some(true),
                ..state
            },
            RawKind::TableEnd => HeadState { empty_name: false, ..state },
            _ => state,
        },
        _ => state,
    }
}

/// The state of the serializer after a sequence of events.
pub open spec fn head_state(nodes: Seq<NodeView>) -> HeadState
    decreases nodes.len(),
{
    if nodes.len() == 0 {
        HeadState { awaits_text: false, held: None, empty_name: false }
    } else {
        head_step(head_state(nodes.drop_last()), nodes.last())
    }
}

/// Whether an event ends the head of a table.
pub open spec fn is_head_end(node: NodeView) -> bool {
    node matches NodeView::Raw(raw) && raw.raw_kind() == RawKind::HeadEnd
}

/// Whether no head of a table ends while a column name is empty.
pub open spec fn heads_named(nodes: Seq<NodeView>) -> bool
    decreases nodes.len(),
{
    if nodes.len() == 0 {
        true
    } else {
        &&& heads_named(nodes.drop_last())
        &&& is_head_end(nodes.last()) ==> !head_state(nodes.drop_last()).empty_name
    }
}

/// Events that the library built itself end no head of a table.
pub proof fn lemma_built_heads_named(nodes: Seq<NodeView>)
    requires
        forall|i: int| 0 <= i < nodes.len() ==> !(nodes[i] is Raw),
    ensures
        heads_named(nodes),
    decreases nodes.len(),
{
    if nodes.len() > 0 {
        lemma_built_heads_named(nodes.drop_last());
    }
}

/// What holds of a sequence of events holds of each of its beginnings.
pub proof fn lemma_heads_named_take(nodes: Seq<NodeView>, n: int)
    requires
        heads_named(nodes),
        0 <= n <= nodes.len(),
    ensures
        heads_named(nodes.take(n)),
    decreases nodes.len(),
{
    if n < nodes.len() {
        lemma_heads_named_take(nodes.drop_last(), n);
        assert(nodes.drop_last().take(n) == nodes.take(n));
    } else {
        assert(nodes.take(n) == nodes);
    }
}

/// Decides [`heads_named`].
pub fn check_heads(nodes: &Vec<Node<'_>>) -> (ok: bool)
    ensures
        ok == heads_named(view_nodes(nodes@)),
{
    let ghost all = view_nodes(nodes@);
    let mut awaits_text = false;
    let mut held: Option<bool> = None;
    let mut empty_name = false;
    let mut i: usize = 0;
    while i < nodes.len()
        invariant
            i <= nodes.len(),
            all == view_nodes(nodes@),
            head_state(all.take(i as int)) == (HeadState { awaits_text, held, empty_name }),
            heads_named(all.take(i as int)),
        decreases nodes.len() - i,
    {
        assert(all.take(i + 1).drop_last() == all.take(i as int));
        assert(all.take(i + 1).last() == nodes@[i as int]@);
        match &nodes[i] {
            Node::Text(text) => {
                if awaits_text {
                    awaits_text = false;
                    held = Some(text.as_str().is_empty());
                }
            },
            Node::Raw(raw) => {
                match raw.kind() {
                    RawKind::CellStart => {
                        awaits_text = true;
                    },
                    RawKind::CellEnd => {
                        match held {
                            Some(true) => {
                                empty_name = true;
                            },
                            _ => {},
                        }
                        held = None;
                    },
                    RawKind::HeadEnd => {
                        if empty_name {
                            proof {
                                if heads_named(all) {
                                    lemma_heads_named_take(all, i + 1);
                                }
                            }
                            return false;
                        }
                    },
                    RawKind::TableEnd => {
                        empty_name = false;
                    },
                    RawKind::Other => {},
                }
            },
            _ => {},
        }
        i = i + 1;
    }
    assert(all.take(nodes.len() as int) == all);
    true
}

} // verus!
