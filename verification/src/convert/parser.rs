//! Building a document from a stream of Markdown parse events: the events
//! open and close blocks and inline styles and carry the text; a stack of
//! open blocks collects the nodes.
use vstd::prelude::*;
use pulldown_cmark::{Alignment, CodeBlockKind, Event, Options, Parser, Tag, TagEnd};
use crate::error::ParseError;
use crate::document::{Document, DocumentV};
use crate::inline::{InlineNode, InlineV, TextFormatting, TextNode, inlines_seq_v, plain, lemma_inlines_seq_v_index};
use crate::node::{
    ListItem, ListItemV, ListType, Node, NodeV, TableAlignment, TableCell, TableCellV, TableProperties, nodes_seq_v,
    lemma_nodes_seq_v_index, lemma_nodes_seq_v_push, cells_seq_v, rows_seq_v, default_props_v,
};

verus! {

/// One parse event of a Markdown text, in document order.
pub enum MdEvent {
    /// A paragraph begins.
    StartParagraph,
    /// A heading of the level begins.
    StartHeading(u8),
    /// A block quote begins.
    StartBlockQuote,
    /// A code block begins, with its language (empty when indented).
    StartCodeBlock(String),
    /// A list begins: with its first number when ordered.
    StartList(Option<u64>),
    /// A list item begins.
    StartItem,
    /// A footnote definition with the label begins.
    StartFootnoteDefinition(String),
    /// A table with the column alignments begins.
    StartTable(Vec<TableAlignment>),
    /// The table's header row begins.
    StartTableHead,
    /// A table row begins.
    StartTableRow,
    /// A table cell begins.
    StartTableCell,
    /// Emphasis begins.
    StartEmphasis,
    /// Strong emphasis begins.
    StartStrong,
    /// Strikethrough begins.
    StartStrikethrough,
    /// A link to the url, with the title (empty for none), begins.
    StartLink { url: String, title: String },
    /// An image at the url, with the title (empty for none), begins.
    StartImage { url: String, title: String },
    /// Another kind of block or span begins.
    StartOther,
    EndParagraph,
    EndHeading,
    EndBlockQuote,
    EndCodeBlock,
    EndList,
    EndItem,
    EndFootnoteDefinition,
    EndTable,
    EndTableHead,
    EndTableRow,
    EndTableCell,
    EndEmphasis,
    EndStrong,
    EndStrikethrough,
    EndLink,
    EndImage,
    /// Another kind of block or span ends.
    EndOther,
    /// Text.
    Text(String),
    /// An inline code span.
    Code(String),
    /// Raw HTML.
    Html(String),
    /// A footnote reference with the label.
    FootnoteReference(String),
    /// A soft line break.
    SoftBreak,
    /// A hard line break.
    HardBreak,
    /// A thematic break.
    Rule,
    /// The checkbox of a task list item, checked or not.
    TaskListMarker(bool),
    /// Another kind of event.
    Other,
}

/// A block that is open while parsing.
pub enum Context {
    Document,
    Paragraph,
    Heading(u8),
    BlockQuote,
    List(ListType, Option<u64>),
    ListItem,
    Table(Vec<TableAlignment>),
    TableHead,
    TableRow,
    TableCell,
    FootnoteDefinition(String),
}

/// Model of an open block.
pub enum CtxV {
    Document,
    Paragraph,
    Heading(u8),
    BlockQuote,
    List(ListType, Option<u64>),
    ListItem,
    Table(Seq<TableAlignment>),
    TableHead,
    TableRow,
    TableCell,
    FootnoteDefinition(Seq<char>),
}

pub open spec fn ctx_v(c: Context) -> CtxV {
    match c {
        Context::Document => CtxV::Document,
        Context::Paragraph => CtxV::Paragraph,
        Context::Heading(l) => CtxV::Heading(l),
        Context::BlockQuote => CtxV::BlockQuote,
        Context::List(t, s) => CtxV::List(t, s),
        Context::ListItem => CtxV::ListItem,
        Context::Table(a) => CtxV::Table(a@),
        Context::TableHead => CtxV::TableHead,
        Context::TableRow => CtxV::TableRow,
        Context::TableCell => CtxV::TableCell,
        Context::FootnoteDefinition(l) => CtxV::FootnoteDefinition(l@),
    }
}

/// Model of the table being built.
pub struct TableStateV {
    pub alignments: Seq<TableAlignment>,
    pub header: Seq<TableCellV>,
    pub rows: Seq<Seq<TableCellV>>,
    pub in_header: bool,
}

/// Model of the parser's state.
pub struct ParseStateV {
    /// The open blocks, innermost last, each with the nodes gathered in it.
    pub stack: Seq<(CtxV, Seq<NodeV>)>,
    /// The inline nodes gathered and not yet placed.
    pub inlines: Seq<InlineV>,
    /// The current text formatting.
    pub fmt: TextFormatting,
    /// The language of the code block being read.
    pub code_lang: Option<Seq<char>>,
    /// The checkbox state for the list item being read.
    pub pending_task: Option<bool>,
    /// Where the link being read sits among the gathered inlines.
    pub last_link: Option<usize>,
    /// Whether a code block is being read.
    pub in_code: bool,
    /// The code read so far.
    pub code_text: Seq<char>,
    /// The table being built.
    pub table: Option<TableStateV>,
}

/// The blocks that take a paragraph for loose inline nodes.
pub open spec fn takes_blocks(c: CtxV) -> bool {
    c is Document || c is BlockQuote || c is ListItem || c is FootnoteDefinition
}

/// The blocks made of the inline nodes gathered in them.
pub open spec fn takes_inlines(c: CtxV) -> bool {
    c is Paragraph || c is Heading || c is TableCell
}

/// The state with `n` added to the innermost block's nodes.
pub open spec fn add_node(st: ParseStateV, n: NodeV) -> ParseStateV {
    let top = st.stack.last();
    ParseStateV { stack: st.stack.update(st.stack.len() - 1, (top.0, top.1.push(n))), ..st }
}

/// Placing the gathered inlines: in a block that takes blocks they become
/// a paragraph; elsewhere they are dropped.
pub open spec fn flush(st: ParseStateV) -> ParseStateV {
    if st.inlines.len() == 0 {
        st
    } else {
        let st2 = ParseStateV { inlines: Seq::empty(), ..st };
        if takes_blocks(st.stack.last().0) {
            add_node(st2, NodeV::Paragraph { children: st.inlines })
        } else {
            st2
        }
    }
}

/// Opening a block, after placing the gathered inlines.
pub open spec fn push_ctx(st: ParseStateV, c: CtxV) -> ParseStateV {
    let f = flush(st);
    ParseStateV { stack: f.stack.push((c, Seq::empty())), ..f }
}

/// The list items among the nodes.
pub open spec fn items_in(ns: Seq<NodeV>) -> Seq<ListItemV>
    decreases ns.len(),
{
    if ns.len() == 0 {
        Seq::empty()
    } else {
        let p = items_in(ns.drop_last());
        match ns.last() {
            NodeV::TempListItem(it) => p.push(it),
            _ => p,
        }
    }
}

/// The table cells among the nodes.
pub open spec fn cells_in(ns: Seq<NodeV>) -> Seq<TableCellV>
    decreases ns.len(),
{
    if ns.len() == 0 {
        Seq::empty()
    } else {
        let p = cells_in(ns.drop_last());
        match ns.last() {
            NodeV::TempTableCell(c) => p.push(c),
            _ => p,
        }
    }
}

/// A cell holding the inline nodes, with the default settings.
pub open spec fn new_cell_v(content: Seq<InlineV>) -> TableCellV {
    TableCellV { content, colspan: 1, rowspan: 1, background_color: None, css_class: None, style: None, is_header: false }
}

/// Closing the innermost block: the node it makes, if any. A paragraph,
/// heading or cell takes the gathered inlines (and the formatting is reset);
/// other blocks first place them. The document block is never closed.
pub open spec fn pop_ctx(st: ParseStateV) -> (ParseStateV, Option<NodeV>) {
    let top = st.stack.last().0;
    let inl = st.inlines;
    let st1 = if takes_inlines(top) {
        ParseStateV { inlines: Seq::empty(), fmt: plain(), ..st }
    } else {
        flush(st)
    };
    if st1.stack.len() <= 1 {
        (st1, None)
    } else {
        let (c, children) = st1.stack.last();
        let st2 = ParseStateV { stack: st1.stack.drop_last(), ..st1 };
        match c {
            CtxV::Paragraph => (st2, Some(NodeV::Paragraph { children: inl })),
            CtxV::Heading(level) => (st2, Some(NodeV::Heading { level, children: inl })),
            CtxV::BlockQuote => (st2, Some(NodeV::BlockQuote { children })),
            CtxV::List(lt, _) => (st2, Some(NodeV::List { list_type: lt, items: items_in(children) })),
            CtxV::ListItem => (ParseStateV { pending_task: None, ..st2 },
                Some(NodeV::TempListItem(ListItemV { children, checked: st2.pending_task }))),
            CtxV::TableCell => (st2, Some(NodeV::TempTableCell(new_cell_v(inl)))),
            _ => (st2, None),
        }
    }
}

/// Closing a paragraph that is not the outermost block makes a paragraph
/// of the gathered inline nodes; the block leaves the stack, and the
/// gathered inlines and the formatting start afresh.
pub proof fn law_pop_paragraph(st: ParseStateV)
    requires
        st.stack.len() >= 2,
        st.stack.last().0 == CtxV::Paragraph,
    ensures
        pop_ctx(st).1 == Some(NodeV::Paragraph { children: st.inlines }),
        pop_ctx(st).0.stack == st.stack.drop_last(),
        pop_ctx(st).0.inlines.len() == 0,
        pop_ctx(st).0.fmt == plain(),
{
}

/// Closing the innermost block and adding the node it makes to its parent.
pub open spec fn pop_into_parent(st: ParseStateV) -> ParseStateV {
    let (st2, n) = pop_ctx(st);
    match n {
        Some(node) => add_node(st2, node),
        None => st2,
    }
}

/// Adding a text run with the current formatting, unless the text is empty.
pub open spec fn handle_text(st: ParseStateV, t: Seq<char>) -> ParseStateV {
    if t.len() == 0 {
        st
    } else {
        ParseStateV { inlines: st.inlines.push(InlineV::Text { text: t, formatting: st.fmt }), ..st }
    }
}

/// Adding an inline node.
pub open spec fn push_inline(st: ParseStateV, n: InlineV) -> ParseStateV {
    ParseStateV { inlines: st.inlines.push(n), ..st }
}

/// The innermost open list among the first `k` blocks.
pub open spec fn last_list(stack: Seq<(CtxV, Seq<NodeV>)>, k: int) -> Option<int>
    decreases k,
{
    if k <= 0 {
        None
    } else if stack[k - 1].0 is List {
        Some(k - 1)
    } else {
        last_list(stack, k - 1)
    }
}

/// A title: `None` when empty.
pub open spec fn opt_title(t: Seq<char>) -> Option<Seq<char>> {
    if t.len() == 0 { None } else { Some(t) }
}

/// The parser's state at the start: the document block alone.
pub open spec fn initial_state() -> ParseStateV {
    ParseStateV {
        stack: seq![(CtxV::Document, Seq::empty())],
        inlines: Seq::empty(),
        fmt: plain(),
        code_lang: None,
        pending_task: None,
        last_link: None,
        in_code: false,
        code_text: Seq::empty(),
        table: None,
    }
}

/// The state is well formed: the document block is at the bottom of the
/// stack and nowhere else.
pub open spec fn state_ok(st: ParseStateV) -> bool {
    &&& st.stack.len() >= 1
    &&& st.stack[0].0 is Document
    &&& forall|i: int| 1 <= i < st.stack.len() ==> !(#[trigger] st.stack[i].0 is Document)
}

/// What an event other than an image start does to the state.
pub open spec fn apply_event(st: ParseStateV, e: MdEvent) -> ParseStateV {
    match e {
        MdEvent::StartParagraph => {
            let f = if st.stack.last().0 is ListItem || st.stack.last().0 is BlockQuote
                || st.stack.last().0 is FootnoteDefinition { flush(st) } else { st };
            push_ctx(f, CtxV::Paragraph)
        },
        MdEvent::StartHeading(l) => push_ctx(st, CtxV::Heading(l)),
        MdEvent::StartBlockQuote => push_ctx(flush(st), CtxV::BlockQuote),
        MdEvent::StartCodeBlock(lang) => ParseStateV {
            code_lang: Some(lang@), in_code: true, code_text: Seq::empty(), ..flush(st)
        },
        MdEvent::StartList(start) => push_ctx(st, CtxV::List(if start is Some { ListType::Ordered } else { ListType::Unordered }, start)),
        MdEvent::StartItem => push_ctx(st, CtxV::ListItem),
        MdEvent::StartFootnoteDefinition(label) => push_ctx(st, CtxV::FootnoteDefinition(label@)),
        MdEvent::StartTable(a) => ParseStateV {
            table: Some(TableStateV { alignments: a@, header: Seq::empty(), rows: Seq::empty(), in_header: false }),
            ..push_ctx(flush(st), CtxV::Table(a@))
        },
        MdEvent::StartTableHead => match st.table {
            Some(t) => ParseStateV { table: Some(TableStateV { in_header: true, ..t }), ..push_ctx(st, CtxV::TableHead) },
            None => st,
        },
        MdEvent::StartTableRow => if st.table is Some { push_ctx(st, CtxV::TableRow) } else { st },
        MdEvent::StartTableCell => if st.table is Some { push_ctx(st, CtxV::TableCell) } else { st },
        MdEvent::StartEmphasis => ParseStateV { fmt: TextFormatting { italic: true, ..st.fmt }, ..st },
        MdEvent::StartStrong => ParseStateV { fmt: TextFormatting { bold: true, ..st.fmt }, ..st },
        MdEvent::StartStrikethrough => ParseStateV { fmt: TextFormatting { strikethrough: true, ..st.fmt }, ..st },
        MdEvent::StartLink { url, title } => ParseStateV {
            inlines: st.inlines.push(InlineV::Link { url: url@, title: opt_title(title@), children: Seq::empty() }),
            last_link: Some(st.inlines.len() as usize),
            ..st
        },
        MdEvent::EndParagraph | MdEvent::EndHeading | MdEvent::EndTableCell | MdEvent::EndBlockQuote
            | MdEvent::EndList | MdEvent::EndItem => pop_into_parent(st),
        MdEvent::EndFootnoteDefinition => pop_ctx(st).0,
        MdEvent::EndTable => {
            let f = flush(st);
            match f.table {
                Some(t) => {
                    let f2 = ParseStateV { table: None, ..f };
                    if f2.stack.last().0 is Table {
                        add_node(ParseStateV { stack: f2.stack.drop_last(), ..f2 }, NodeV::Table {
                            header: t.header,
                            rows: t.rows,
                            alignments: t.alignments,
                            properties: default_props_v(),
                        })
                    } else {
                        f2
                    }
                },
                None => f,
            }
        },
        MdEvent::EndTableHead => {
            let s1 = if st.stack.last().0 is TableHead { pop_ctx(st).0 } else { st };
            match s1.table {
                Some(t) => ParseStateV { table: Some(TableStateV { in_header: false, ..t }), ..s1 },
                None => s1,
            }
        },
        MdEvent::EndTableRow => if st.stack.last().0 is TableRow {
            let cells = cells_in(st.stack.last().1);
            let s1 = ParseStateV { stack: st.stack.drop_last(), ..st };
            match s1.table {
                Some(t) => ParseStateV {
                    table: Some(if t.in_header { TableStateV { header: cells, ..t } } else { TableStateV { rows: t.rows.push(cells), ..t } }),
                    ..s1
                },
                None => s1,
            }
        } else {
            st
        },
        MdEvent::EndEmphasis => ParseStateV { fmt: TextFormatting { italic: false, ..st.fmt }, ..st },
        MdEvent::EndStrong => ParseStateV { fmt: TextFormatting { bold: false, ..st.fmt }, ..st },
        MdEvent::EndStrikethrough => ParseStateV { fmt: TextFormatting { strikethrough: false, ..st.fmt }, ..st },
        MdEvent::EndLink => match st.last_link {
            Some(k) => {
                let s1 = ParseStateV { last_link: None, ..st };
                if (k as int) < st.inlines.len() {
                    let kids = st.inlines.skip(k + 1);
                    let kept = st.inlines.take(k + 1);
                    ParseStateV {
                        inlines: match kept[k as int] {
                            InlineV::Link { url, title, .. } => kept.update(k as int, InlineV::Link { url, title, children: kids }),
                            _ => kept,
                        },
                        ..s1
                    }
                } else {
                    s1
                }
            },
            None => st,
        },
        MdEvent::EndCodeBlock => if st.in_code {
            let lang = match st.code_lang { Some(l) => l, None => Seq::empty() };
            let code = if st.code_text.len() > 0 && st.code_text.last() == '\n' { st.code_text.drop_last() } else { st.code_text };
            add_node(ParseStateV { code_lang: None, code_text: Seq::empty(), in_code: false, ..st },
                NodeV::CodeBlock { language: lang, code })
        } else {
            st
        },
        MdEvent::Text(t) => if st.in_code {
            ParseStateV { code_text: st.code_text + t@, ..st }
        } else {
            handle_text(st, t@)
        },
        MdEvent::Code(t) => push_inline(st, InlineV::CodeSpan { code: t@ }),
        MdEvent::Html(h) => handle_text(st, h@),
        MdEvent::FootnoteReference(l) => push_inline(st, InlineV::FootnoteRef { label: l@ }),
        MdEvent::SoftBreak => handle_text(st, seq![' ']),
        MdEvent::HardBreak => push_inline(st, InlineV::HardBreak),
        MdEvent::Rule => add_node(flush(st), NodeV::ThematicBreak),
        MdEvent::TaskListMarker(b) => {
            let s1 = ParseStateV { pending_task: Some(b), ..st };
            match last_list(st.stack, st.stack.len() as int) {
                Some(i) => ParseStateV {
                    stack: st.stack.update(i, (CtxV::List(ListType::Task, st.stack[i].0->List_1), st.stack[i].1)),
                    ..s1
                },
                None => s1,
            }
        },
        _ => st,
    }
}

/// What the event at `i` does, and the index of the next event to read: an
/// image start takes the text after it as the image's alt text, and its end
/// event, where they follow.
pub open spec fn step(st: ParseStateV, events: Seq<MdEvent>, i: int) -> (ParseStateV, int) {
    match events[i] {
        MdEvent::StartImage { url, title } => {
            let f = flush(st);
            let has_alt = i + 1 < events.len() && events[i + 1] is Text;
            let alt = if has_alt { events[i + 1]->Text_0@ } else { Seq::empty() };
            let j = if has_alt { i + 2 } else { i + 1 };
            let j2 = if j < events.len() && events[j] is EndImage { j + 1 } else { j };
            (push_inline(f, InlineV::Image { url: url@, alt, title: opt_title(title@) }), j2)
        },
        e => (apply_event(st, e), i + 1),
    }
}

/// The state after reading the events from `i` on.
pub open spec fn run(st: ParseStateV, events: Seq<MdEvent>, i: int) -> ParseStateV
    decreases events.len() - i,
{
    if i < 0 || i >= events.len() {
        st
    } else {
        let (st2, j) = step(st, events, i);
        if j <= i { st2 } else { run(st2, events, j) }
    }
}

/// Closing every block left open, innermost first.
pub open spec fn unwind(st: ParseStateV, k: nat) -> ParseStateV
    decreases k,
{
    if k == 0 || st.stack.len() <= 1 { st } else { unwind(pop_into_parent(st), (k - 1) as nat) }
}

/// The document the events make: every open block closed, loose inlines
/// placed, and the nodes of the document block.
pub open spec fn parse_result(events: Seq<MdEvent>) -> DocumentV {
    let st = run(initial_state(), events, 0);
    let done = flush(unwind(st, st.stack.len()));
    DocumentV { nodes: done.stack.last().1, selection: None, metadata: None }
}

/// The table being built.
struct TableState {
    alignments: Vec<TableAlignment>,
    header: Vec<TableCell>,
    rows: Vec<Vec<TableCell>>,
    in_header: bool,
}

/// The parser's state: the open blocks with their nodes, and what is being
/// gathered.
struct ParserStack {
    stack: Vec<(Context, Vec<Node>)>,
    inline_accumulator: Vec<InlineNode>,
    formatting: TextFormatting,
    current_code_language: Option<String>,
    pending_task_status: Option<bool>,
    last_link_index: Option<usize>,
    in_code_block: bool,
    code_block_text: String,
    table: Option<TableState>,
}

spec fn stack_v(s: Seq<(Context, Vec<Node>)>) -> Seq<(CtxV, Seq<NodeV>)> {
    s.map_values(|p: (Context, Vec<Node>)| (ctx_v(p.0), nodes_seq_v(p.1@)))
}

spec fn table_v(t: Option<TableState>) -> Option<TableStateV> {
    match t {
        Some(t) => Some(TableStateV {
            alignments: t.alignments@,
            header: cells_seq_v(t.header@),
            rows: rows_seq_v(t.rows@),
            in_header: t.in_header,
        }),
        None => None,
    }
}

impl ParserStack {
    spec fn view(&self) -> ParseStateV {
        ParseStateV {
            stack: stack_v(self.stack@),
            inlines: inlines_seq_v(self.inline_accumulator@),
            fmt: self.formatting,
            code_lang: crate::inline::opt_str_v(self.current_code_language),
            pending_task: self.pending_task_status,
            last_link: self.last_link_index,
            in_code: self.in_code_block,
            code_text: self.code_block_text@,
            table: table_v(self.table),
        }
    }

    fn new() -> (r: Self)
        ensures r.view() == initial_state(),
    {
        let mut stack: Vec<(Context, Vec<Node>)> = Vec::new();
        stack.push((Context::Document, Vec::new()));
        let r = ParserStack {
            stack,
            inline_accumulator: Vec::new(),
            formatting: TextFormatting::new(),
            current_code_language: None,
            pending_task_status: None,
            last_link_index: None,
            in_code_block: false,
            code_block_text: String::new(),
            table: None,
        };
        proof {
            assert(nodes_seq_v(Seq::<Node>::empty()) =~= Seq::<NodeV>::empty());
            assert(stack_v(r.stack@) =~= seq![(CtxV::Document, Seq::<NodeV>::empty())]);
            assert(inlines_seq_v(r.inline_accumulator@) =~= Seq::<InlineV>::empty());
            assert(r.code_block_text@ =~= Seq::<char>::empty());
        }
        r
    }

    /// The kind of the innermost block.
    fn top_is(&self, f: u8) -> (r: bool)
        requires self.stack.len() > 0,
        ensures
            f == 0 ==> r == takes_blocks(self.view().stack.last().0),
            f == 1 ==> r == takes_inlines(self.view().stack.last().0),
            f == 2 ==> r == (self.view().stack.last().0 is Table),
            f == 3 ==> r == (self.view().stack.last().0 is TableHead),
            f == 4 ==> r == (self.view().stack.last().0 is TableRow),
            f == 5 ==> r == (self.view().stack.last().0 is ListItem || self.view().stack.last().0 is BlockQuote
                || self.view().stack.last().0 is FootnoteDefinition),
    {
        let c = &self.stack[self.stack.len() - 1].0;
        proof { assert(stack_v(self.stack@).last() == (ctx_v(self.stack@.last().0), nodes_seq_v(self.stack@.last().1@))); }
        match c {
            Context::Document => f == 0,
            Context::BlockQuote => f == 0 || f == 5,
            Context::ListItem => f == 0 || f == 5,
            Context::FootnoteDefinition(_) => f == 0 || f == 5,
            Context::Paragraph => f == 1,
            Context::Heading(_) => f == 1,
            Context::TableCell => f == 1,
            Context::Table(_) => f == 2,
            Context::TableHead => f == 3,
            Context::TableRow => f == 4,
            _ => false,
        }
    }

    fn add_node(&mut self, n: Node)
        requires state_ok(old(self).view()),
        ensures final(self).view() == add_node(old(self).view(), n@), state_ok(final(self).view()),
    {
        let ghost s0 = self.stack@;
        let (c, mut ns) = self.stack.pop().unwrap();
        let ghost ns0 = ns@;
        ns.push(n);
        proof { lemma_nodes_seq_v_push(ns0, n); }
        self.stack.push((c, ns));
        proof {
            assert(self.stack@ =~= s0.update(s0.len() - 1, (c, ns)));
            assert(stack_v(self.stack@) =~= stack_v(s0).update(s0.len() - 1, (ctx_v(c), nodes_seq_v(ns0).push(n@))));
            assert forall|i: int| 1 <= i < stack_v(self.stack@).len() implies !(#[trigger] stack_v(self.stack@)[i].0 is Document) by {
                assert(stack_v(s0)[i].0 is Document == (stack_v(self.stack@)[i].0 is Document));
            }
        }
    }

    fn flush_inline_accumulator(&mut self)
        requires state_ok(old(self).view()),
        ensures final(self).view() == flush(old(self).view()), state_ok(final(self).view()),
    {
        if self.inline_accumulator.len() == 0 {
            proof {
                lemma_inlines_seq_v_index(self.inline_accumulator@);
            }
            return;
        }
        proof { lemma_inlines_seq_v_index(self.inline_accumulator@); }
        let mut inl: Vec<InlineNode> = Vec::new();
        std::mem::swap(&mut inl, &mut self.inline_accumulator);
        proof { assert(inlines_seq_v(self.inline_accumulator@) =~= Seq::<InlineV>::empty()); }
        if self.top_is(0) {
            self.add_node(Node::Paragraph { children: inl });
        }
    }

    fn push_context(&mut self, c: Context)
        requires state_ok(old(self).view()), !(ctx_v(c) is Document),
        ensures final(self).view() == push_ctx(old(self).view(), ctx_v(c)), state_ok(final(self).view()),
    {
        self.flush_inline_accumulator();
        let ghost s0 = self.stack@;
        self.stack.push((c, Vec::new()));
        proof {
            assert(nodes_seq_v(Seq::<Node>::empty()) =~= Seq::<NodeV>::empty());
            assert(stack_v(self.stack@) =~= stack_v(s0).push((ctx_v(c), Seq::<NodeV>::empty())));
        }
    }

    fn push_inline(&mut self, n: InlineNode)
        ensures final(self).view() == push_inline(old(self).view(), n@),
    {
        proof { crate::inline::lemma_inlines_push(self.inline_accumulator@, n); }
        self.inline_accumulator.push(n);
    }

    fn handle_text(&mut self, t: String)
        ensures final(self).view() == handle_text(old(self).view(), t@),
    {
        if t.as_str().unicode_len() > 0 {
            let n = InlineNode::Text(TextNode { text: t, formatting: self.formatting });
            self.push_inline(n);
        }
    }
}

/// The list items among the nodes.
fn items_from(ns: &Vec<Node>) -> (r: Vec<ListItem>)
    ensures crate::node::list_items_seq_v(r@) == items_in(nodes_seq_v(ns@)),
{
    proof { lemma_nodes_seq_v_index(ns@); }
    let ghost v = nodes_seq_v(ns@);
    let mut out: Vec<ListItem> = Vec::new();
    let mut i: usize = 0;
    proof { assert(v.take(0) =~= Seq::<NodeV>::empty()); }
    while i < ns.len()
        invariant
            i <= ns.len(),
            v == nodes_seq_v(ns@),
            v.len() == ns.len(),
            forall|j: int| 0 <= j < v.len() ==> #[trigger] v[j] == crate::node::node_v(&ns@[j]),
            crate::node::list_items_seq_v(out@) == items_in(v.take(i as int)),
        decreases ns.len() - i,
    {
        proof { assert(v.take(i + 1).drop_last() =~= v.take(i as int)); }
        match &ns[i] {
            Node::TempListItem(it) => {
                let c = crate::node::copy_list_item(it);
                proof { crate::node::lemma_list_items_seq_v_push(out@, c); }
                out.push(c);
            },
            _ => {},
        }
        i = i + 1;
    }
    proof { assert(v.take(i as int) =~= v); }
    out
}

/// The table cells among the nodes.
fn cells_from(ns: &Vec<Node>) -> (r: Vec<TableCell>)
    ensures cells_seq_v(r@) == cells_in(nodes_seq_v(ns@)),
{
    proof { lemma_nodes_seq_v_index(ns@); }
    let ghost v = nodes_seq_v(ns@);
    let mut out: Vec<TableCell> = Vec::new();
    let mut i: usize = 0;
    proof { assert(v.take(0) =~= Seq::<NodeV>::empty()); }
    while i < ns.len()
        invariant
            i <= ns.len(),
            v == nodes_seq_v(ns@),
            v.len() == ns.len(),
            forall|j: int| 0 <= j < v.len() ==> #[trigger] v[j] == crate::node::node_v(&ns@[j]),
            cells_seq_v(out@) == cells_in(v.take(i as int)),
        decreases ns.len() - i,
    {
        proof { assert(v.take(i + 1).drop_last() =~= v.take(i as int)); }
        match &ns[i] {
            Node::TempTableCell(c) => {
                let x = crate::node::copy_cell(c);
                proof { crate::node::lemma_cells_seq_v_push(out@, x); }
                out.push(x);
            },
            _ => {},
        }
        i = i + 1;
    }
    proof { assert(v.take(i as int) =~= v); }
    out
}

spec fn opt_node_v(n: Option<Node>) -> Option<NodeV> {
    match n {
        Some(x) => Some(x@),
        None => None,
    }
}

impl ParserStack {
    fn pop_context(&mut self) -> (r: Option<Node>)
        requires state_ok(old(self).view()),
        ensures
            final(self).view() == pop_ctx(old(self).view()).0,
            opt_node_v(r) == pop_ctx(old(self).view()).1,
            state_ok(final(self).view()),
    {
        let takes = self.top_is(1);
        let mut inl: Vec<InlineNode> = Vec::new();
        if takes {
            std::mem::swap(&mut inl, &mut self.inline_accumulator);
            self.formatting = TextFormatting::new();
            proof { assert(inlines_seq_v(self.inline_accumulator@) =~= Seq::<InlineV>::empty()); }
        } else {
            self.flush_inline_accumulator();
        }
        if self.stack.len() <= 1 {
            return None;
        }
        let ghost s0 = self.stack@;
        let (c, children) = self.stack.pop().unwrap();
        proof {
            assert(stack_v(self.stack@) =~= stack_v(s0).drop_last());
            assert(stack_v(s0).last() == (ctx_v(c), nodes_seq_v(children@)));
            assert forall|i: int| 1 <= i < stack_v(self.stack@).len() implies !(#[trigger] stack_v(self.stack@)[i].0 is Document) by {
                assert(stack_v(s0)[i] == stack_v(self.stack@)[i]);
            }
        }
        match c {
            Context::Paragraph => Some(Node::Paragraph { children: inl }),
            Context::Heading(level) => Some(Node::Heading { level, children: inl }),
            Context::BlockQuote => Some(Node::BlockQuote { children }),
            Context::List(lt, _) => {
                let items = items_from(&children);
                Some(Node::List { list_type: lt, items })
            },
            Context::ListItem => {
                let checked = self.pending_task_status;
                self.pending_task_status = None;
                Some(Node::TempListItem(ListItem { children, checked }))
            },
            Context::TableCell => {
                let cell = TableCell::new(inl);
                Some(Node::TempTableCell(cell))
            },
            _ => None,
        }
    }

    fn pop_into_parent(&mut self)
        requires state_ok(old(self).view()),
        ensures final(self).view() == pop_into_parent(old(self).view()), state_ok(final(self).view()),
    {
        match self.pop_context() {
            Some(n) => self.add_node(n),
            None => {},
        }
    }
}

/// A state with the stack given (for stating the stack's shape).
pub open spec fn sv_state(s: Seq<(CtxV, Seq<NodeV>)>) -> ParseStateV {
    ParseStateV { stack: s, ..initial_state() }
}

/// The events that open a block.
pub open spec fn opens_block(e: MdEvent) -> bool {
    e is StartParagraph || e is StartHeading || e is StartBlockQuote || e is StartCodeBlock || e is StartList
        || e is StartItem || e is StartFootnoteDefinition || e is StartTable || e is StartTableHead
        || e is StartTableRow || e is StartTableCell
}

/// The events that close a block.
pub open spec fn closes_block(e: MdEvent) -> bool {
    e is EndParagraph || e is EndHeading || e is EndTableCell || e is EndBlockQuote || e is EndList || e is EndItem
        || e is EndFootnoteDefinition || e is EndTable || e is EndTableHead || e is EndTableRow || e is EndCodeBlock
}

impl ParserStack {
    fn open_block(&mut self, e: &MdEvent)
        requires state_ok(old(self).view()), opens_block(*e),
        ensures final(self).view() == apply_event(old(self).view(), *e), state_ok(final(self).view()),
    {
        match e {
            MdEvent::StartParagraph => {
                if self.top_is(5) {
                    self.flush_inline_accumulator();
                }
                self.push_context(Context::Paragraph);
            },
            MdEvent::StartHeading(l) => self.push_context(Context::Heading(*l)),
            MdEvent::StartBlockQuote => {
                self.flush_inline_accumulator();
                self.push_context(Context::BlockQuote);
            },
            MdEvent::StartCodeBlock(lang) => {
                self.flush_inline_accumulator();
                self.current_code_language = Some(lang.clone());
                self.in_code_block = true;
                self.code_block_text = String::new();
                proof { assert(self.code_block_text@ =~= Seq::<char>::empty()); }
            },
            MdEvent::StartList(start) => {
                let lt = match start {
                    Some(_) => ListType::Ordered,
                    None => ListType::Unordered,
                };
                self.push_context(Context::List(lt, *start));
            },
            MdEvent::StartItem => self.push_context(Context::ListItem),
            MdEvent::StartFootnoteDefinition(label) => self.push_context(Context::FootnoteDefinition(label.clone())),
            MdEvent::StartTable(a) => {
                self.flush_inline_accumulator();
                self.push_context(Context::Table(crate::node::copy_alignments(a)));
                self.table = Some(TableState {
                    alignments: crate::node::copy_alignments(a),
                    header: Vec::new(),
                    rows: Vec::new(),
                    in_header: false,
                });
                proof {
                    assert(cells_seq_v(Seq::<TableCell>::empty()) =~= Seq::<TableCellV>::empty());
                    assert(rows_seq_v(Seq::<Vec<TableCell>>::empty()) =~= Seq::<Seq<TableCellV>>::empty());
                }
            },
            MdEvent::StartTableHead => {
                if self.table.is_some() {
                    self.push_context(Context::TableHead);
                    match &mut self.table {
                        Some(t) => { t.in_header = true; },
                        None => {},
                    }
                }
            },
            MdEvent::StartTableRow => {
                if self.table.is_some() {
                    self.push_context(Context::TableRow);
                }
            },
            _ => {
                if self.table.is_some() {
                    self.push_context(Context::TableCell);
                }
            },
        }
    }

    /// Sets the innermost open list's type to a task list.
    fn mark_task_list(&mut self)
        requires state_ok(old(self).view()),
        ensures
            state_ok(final(self).view()),
            final(self).view() == (match last_list(old(self).view().stack, old(self).view().stack.len() as int) {
                Some(i) => ParseStateV {
                    stack: old(self).view().stack.update(i, (CtxV::List(ListType::Task, old(self).view().stack[i].0->List_1),
                        old(self).view().stack[i].1)),
                    ..old(self).view()
                },
                None => old(self).view(),
            }),
    {
        let ghost sv = stack_v(self.stack@);
        proof { assert(state_ok(sv_state(sv))); }
        let mut k: usize = self.stack.len();
        let mut found = false;
        while k > 0 && !found
            invariant
                k <= self.stack.len(),
                sv == stack_v(self.stack@),
                sv.len() == self.stack.len(),
                !found ==> last_list(sv, sv.len() as int) == last_list(sv, k as int),
                found ==> k > 0 && last_list(sv, sv.len() as int) == Some(k - 1) && sv[k - 1].0 is List,
                state_ok(sv_state(sv)),
            decreases k + (if found { 0int } else { 1int }),
        {
            let is_list = match &self.stack[k - 1].0 {
                Context::List(_, _) => true,
                _ => false,
            };
            proof { assert(sv[k - 1] == (ctx_v(self.stack@[k - 1].0), nodes_seq_v(self.stack@[k - 1].1@))); }
            if is_list {
                found = true;
            } else {
                k = k - 1;
            }
        }
        if found {
            let ghost s0 = self.stack@;
            let (c, ns) = self.stack.remove(k - 1);
            let start = match c {
                Context::List(_, st) => st,
                _ => None,
            };
            self.stack.insert(k - 1, (Context::List(ListType::Task, start), ns));
            proof {
                assert(sv[k - 1] == (ctx_v(s0[k - 1].0), nodes_seq_v(s0[k - 1].1@)));
                assert(k - 1 != 0);
                assert(self.stack@ =~= s0.update(k - 1, (Context::List(ListType::Task, start), ns)));
                assert(stack_v(self.stack@) =~= sv.update(k - 1, (CtxV::List(ListType::Task, sv[k - 1].0->List_1), sv[k - 1].1)));
                assert forall|i: int| 1 <= i < stack_v(self.stack@).len() implies !(#[trigger] stack_v(self.stack@)[i].0 is Document) by {
                    if i != k - 1 { assert(stack_v(self.stack@)[i] == sv[i]); }
                }
            }
        }
    }
}

impl ParserStack {
    fn close_table(&mut self)
        requires state_ok(old(self).view()),
        ensures final(self).view() == apply_event(old(self).view(), MdEvent::EndTable), state_ok(final(self).view()),
    {
        self.flush_inline_accumulator();
        let t = self.table.take();
        match t {
            Some(ts) => {
                if self.top_is(2) {
                    let ghost s0 = self.stack@;
                    let _ = self.stack.pop();
                    proof {
                        assert(stack_v(self.stack@) =~= stack_v(s0).drop_last());
                        assert forall|i: int| 1 <= i < stack_v(self.stack@).len() implies !(#[trigger] stack_v(self.stack@)[i].0 is Document) by {
                            assert(stack_v(s0)[i] == stack_v(self.stack@)[i]);
                        }
                    }
                    let props = TableProperties::default();
                    self.add_node(Node::Table { header: ts.header, rows: ts.rows, alignments: ts.alignments, properties: props });
                }
            },
            None => {},
        }
    }

    fn close_row(&mut self)
        requires state_ok(old(self).view()),
        ensures final(self).view() == apply_event(old(self).view(), MdEvent::EndTableRow), state_ok(final(self).view()),
    {
        if !self.top_is(4) {
            return;
        }
        let ghost s0 = self.stack@;
        let (_, children) = self.stack.pop().unwrap();
        proof {
            assert(stack_v(self.stack@) =~= stack_v(s0).drop_last());
            assert(stack_v(s0).last().1 == nodes_seq_v(children@));
            assert forall|i: int| 1 <= i < stack_v(self.stack@).len() implies !(#[trigger] stack_v(self.stack@)[i].0 is Document) by {
                assert(stack_v(s0)[i] == stack_v(self.stack@)[i]);
            }
        }
        let cells = cells_from(&children);
        match &mut self.table {
            Some(t) => {
                if t.in_header {
                    t.header = cells;
                } else {
                    let ghost r0 = t.rows@;
                    t.rows.push(cells);
                    proof { crate::node::lemma_rows_seq_v_push(r0, cells); }
                }
            },
            None => {},
        }
    }

    fn close_link(&mut self)
        ensures final(self).view() == apply_event(old(self).view(), MdEvent::EndLink),
    {
        let k = match self.last_link_index {
            Some(k) => k,
            None => { return; },
        };
        self.last_link_index = None;
        if k >= self.inline_accumulator.len() {
            proof { lemma_inlines_seq_v_index(self.inline_accumulator@); }
            return;
        }
        let ghost a0 = self.inline_accumulator@;
        let kids = self.inline_accumulator.split_off(k + 1);
        let ghost a1 = self.inline_accumulator@;
        let last = self.inline_accumulator.pop().unwrap();
        let ghost a2 = self.inline_accumulator@;
        let ghost lv = last@;
        let restored = match last {
            InlineNode::Link { url, title, .. } => InlineNode::Link { url, title, children: kids },
            other => other,
        };
        proof {
            lemma_inlines_seq_v_index(a0);
            lemma_inlines_seq_v_index(a1);
            lemma_inlines_seq_v_index(a2);
            lemma_inlines_seq_v_index(kids@);
            assert(inlines_seq_v(kids@) =~= inlines_seq_v(a0).skip(k + 1));
            assert(inlines_seq_v(a1) =~= inlines_seq_v(a0).take(k + 1));
            assert(a2 =~= a1.drop_last());
            crate::inline::lemma_inlines_push(a2, restored);
        }
        self.inline_accumulator.push(restored);
        proof {
            let kept = inlines_seq_v(a0).take(k + 1);
            assert(kept[k as int] == lv);
            assert(inlines_seq_v(self.inline_accumulator@) =~= inlines_seq_v(a2).push(restored@));
            assert(inlines_seq_v(a2) =~= kept.drop_last());
            match lv {
                InlineV::Link { url, title, .. } => {
                    assert(restored@ == InlineV::Link { url, title, children: inlines_seq_v(a0).skip(k + 1) });
                    assert(kept.drop_last().push(restored@) =~= kept.update(k as int, restored@));
                },
                _ => {
                    assert(kept.drop_last().push(lv) =~= kept);
                },
            }
        }
    }

    fn close_code(&mut self)
        requires state_ok(old(self).view()),
        ensures final(self).view() == apply_event(old(self).view(), MdEvent::EndCodeBlock), state_ok(final(self).view()),
    {
        if !self.in_code_block {
            return;
        }
        let lang = match self.current_code_language.take() {
            Some(l) => l,
            None => {
                let e = String::new();
                proof { assert(e@ =~= Seq::<char>::empty()); }
                e
            },
        };
        let mut code = String::new();
        std::mem::swap(&mut code, &mut self.code_block_text);
        let n = code.as_str().unicode_len();
        let code2 = if n > 0 && code.as_str().get_char(n - 1) == '\n' {
            let c = code.as_str().substring_char(0, n - 1).to_owned();
            proof { assert(c@ =~= code@.drop_last()); }
            c
        } else {
            code
        };
        self.in_code_block = false;
        proof { assert(self.code_block_text@ =~= Seq::<char>::empty()); }
        self.add_node(Node::CodeBlock { language: lang, code: code2 });
    }

    fn close_block(&mut self, e: &MdEvent)
        requires state_ok(old(self).view()), closes_block(*e),
        ensures final(self).view() == apply_event(old(self).view(), *e), state_ok(final(self).view()),
    {
        match e {
            MdEvent::EndFootnoteDefinition => { let _ = self.pop_context(); },
            MdEvent::EndTable => self.close_table(),
            MdEvent::EndTableHead => {
                if self.top_is(3) {
                    let _ = self.pop_context();
                }
                match &mut self.table {
                    Some(t) => { t.in_header = false; },
                    None => {},
                }
            },
            MdEvent::EndTableRow => self.close_row(),
            MdEvent::EndCodeBlock => self.close_code(),
            _ => self.pop_into_parent(),
        }
    }
}

impl ParserStack {
    fn apply(&mut self, e: &MdEvent)
        requires state_ok(old(self).view()), !(*e is StartImage),
        ensures final(self).view() == apply_event(old(self).view(), *e), state_ok(final(self).view()),
    {
        if is_opening(e) {
            self.open_block(e);
            return;
        }
        if is_closing(e) {
            self.close_block(e);
            return;
        }
        match e {
            MdEvent::StartEmphasis => { self.formatting = self.formatting.with_italic(); },
            MdEvent::StartStrong => { self.formatting = self.formatting.with_bold(); },
            MdEvent::StartStrikethrough => { self.formatting = self.formatting.with_strikethrough(); },
            MdEvent::StartLink { url, title } => self.open_link(url, title),
            MdEvent::EndEmphasis => { self.formatting.italic = false; },
            MdEvent::EndStrong => { self.formatting.bold = false; },
            MdEvent::EndStrikethrough => { self.formatting.strikethrough = false; },
            MdEvent::EndLink => self.close_link(),
            MdEvent::Text(t) => self.apply_text(t),
            MdEvent::Code(t) => {
                let n = InlineNode::code_span(t.as_str());
                proof { assert(n@ == InlineV::CodeSpan { code: t@ }); }
                self.push_inline(n);
            },
            MdEvent::Html(h) => self.handle_text(h.clone()),
            MdEvent::FootnoteReference(l) => {
                let n = InlineNode::footnote_ref(l.as_str());
                proof { assert(n@ == InlineV::FootnoteRef { label: l@ }); }
                self.push_inline(n);
            },
            MdEvent::SoftBreak => {
                let sp = " ".to_owned();
                proof {
                    reveal_strlit(" ");
                    assert(sp@ =~= seq![' ']);
                }
                self.handle_text(sp);
            },
            MdEvent::HardBreak => self.push_inline(InlineNode::hard_break()),
            MdEvent::Rule => {
                self.flush_inline_accumulator();
                self.add_node(Node::ThematicBreak);
            },
            MdEvent::TaskListMarker(b) => {
                self.pending_task_status = Some(*b);
                self.mark_task_list();
            },
            _ => {},
        }
    }
}

impl ParserStack {
    fn apply_text(&mut self, t: &String)
        ensures final(self).view() == apply_event(old(self).view(), MdEvent::Text(*t)),
    {
        if self.in_code_block {
            self.code_block_text.append(t.as_str());
        } else {
            self.handle_text(t.clone());
        }
    }

    fn open_link(&mut self, url: &String, title: &String)
        ensures final(self).view() == apply_event(old(self).view(), MdEvent::StartLink { url: *url, title: *title }),
    {
        let t = if title.as_str().unicode_len() == 0 { None } else { Some(title.clone()) };
        let kids: Vec<InlineNode> = Vec::new();
        proof { assert(inlines_seq_v(kids@) =~= Seq::<InlineV>::empty()); }
        let link = InlineNode::Link { url: url.clone(), title: t, children: kids };
        proof {
            lemma_inlines_seq_v_index(self.inline_accumulator@);
            assert(link@ == InlineV::Link { url: url@, title: opt_title(title@), children: Seq::empty() });
        }
        let idx = self.inline_accumulator.len();
        self.push_inline(link);
        self.last_link_index = Some(idx);
    }
}

fn is_opening(e: &MdEvent) -> (r: bool)
    ensures r == opens_block(*e),
{
    match e {
        MdEvent::StartParagraph | MdEvent::StartHeading(_) | MdEvent::StartBlockQuote | MdEvent::StartCodeBlock(_)
            | MdEvent::StartList(_) | MdEvent::StartItem | MdEvent::StartFootnoteDefinition(_) | MdEvent::StartTable(_)
            | MdEvent::StartTableHead | MdEvent::StartTableRow | MdEvent::StartTableCell => true,
        _ => false,
    }
}

fn is_closing(e: &MdEvent) -> (r: bool)
    ensures r == closes_block(*e),
{
    match e {
        MdEvent::EndParagraph | MdEvent::EndHeading | MdEvent::EndTableCell | MdEvent::EndBlockQuote | MdEvent::EndList
            | MdEvent::EndItem | MdEvent::EndFootnoteDefinition | MdEvent::EndTable | MdEvent::EndTableHead
            | MdEvent::EndTableRow | MdEvent::EndCodeBlock => true,
        _ => false,
    }
}

proof fn lemma_pop_len(st: ParseStateV)
    requires state_ok(st), st.stack.len() > 1,
    ensures pop_into_parent(st).stack.len() == st.stack.len() - 1,
{
}

/// Builds the document the parse events describe (see `parse_result`):
/// blocks are opened and closed as the events say, text and inline nodes
/// are gathered into the innermost block, and blocks left open at the end
/// are closed.
pub fn parse_events(events: &Vec<MdEvent>) -> (r: Document)
    ensures r@ == parse_result(events@),
{
    let mut st = ParserStack::new();
    let mut i: usize = 0;
    while i < events.len()
        invariant
            i <= events.len(),
            state_ok(st.view()),
            run(initial_state(), events@, 0) == run(st.view(), events@, i as int),
        decreases events.len() - i,
    {
        match &events[i] {
            MdEvent::StartImage { url, title } => {
                st.flush_inline_accumulator();
                let mut j: usize = i + 1;
                let mut alt = String::new();
                proof { assert(alt@ =~= Seq::<char>::empty()); }
                if j < events.len() {
                    match &events[j] {
                        MdEvent::Text(t) => {
                            alt = t.clone();
                            j = j + 1;
                        },
                        _ => {},
                    }
                }
                if j < events.len() {
                    match &events[j] {
                        MdEvent::EndImage => { j = j + 1; },
                        _ => {},
                    }
                }
                let t = if title.as_str().unicode_len() == 0 { None } else { Some(title.clone()) };
                st.push_inline(InlineNode::Image { url: url.clone(), alt, title: t });
                i = j;
            },
            e => {
                st.apply(e);
                i = i + 1;
            },
        }
    }
    let ghost s0 = st.view();
    while st.stack.len() > 1
        invariant
            state_ok(st.view()),
            unwind(s0, s0.stack.len()) == unwind(st.view(), st.view().stack.len()),
        decreases st.stack.len(),
    {
        proof { lemma_pop_len(st.view()); }
        st.pop_into_parent();
    }
    st.flush_inline_accumulator();
    let ghost s1 = st.view();
    let (_, nodes) = st.stack.pop().unwrap();
    proof { assert(s1.stack.last().1 == nodes_seq_v(nodes@)); }
    Document { nodes, selection: None, metadata: None }
}

/// Reading the events of one heading of level `l` holding the text `t`
/// gives a document of that one heading, whose content is `t` as one plain
/// text run; the events of one paragraph whose text `t` is strong give a
/// document of one paragraph holding `t` as one bold run.
pub proof fn law_parse_simple_blocks(l: u8, t: String)
    requires t@.len() > 0,
    ensures
        parse_result(seq![MdEvent::StartHeading(l), MdEvent::Text(t), MdEvent::EndHeading]).nodes
            == seq![NodeV::Heading { level: l, children: seq![InlineV::Text { text: t@, formatting: plain() }] }],
        parse_result(seq![MdEvent::StartParagraph, MdEvent::StartStrong, MdEvent::Text(t), MdEvent::EndStrong,
            MdEvent::EndParagraph]).nodes
            == seq![NodeV::Paragraph { children: seq![InlineV::Text { text: t@,
                formatting: TextFormatting { bold: true, ..plain() } }] }],
{
    let s0 = initial_state();
    let ev = seq![MdEvent::StartHeading(l), MdEvent::Text(t), MdEvent::EndHeading];
    let s1 = apply_event(s0, ev[0]);
    let s2 = apply_event(s1, ev[1]);
    let s3 = apply_event(s2, ev[2]);
    assert(run(s3, ev, 3) == s3);
    assert(run(s2, ev, 2) == s3);
    assert(run(s1, ev, 1) == s3);
    assert(run(s0, ev, 0) == s3);
    assert(s3.stack.len() == 1);
    assert(unwind(s3, 1) == s3);
    assert(s3.inlines.len() == 0);
    assert(s3.stack.last().1 =~= seq![NodeV::Heading { level: l, children: seq![InlineV::Text { text: t@, formatting: plain() }] }]);

    let ev2 = seq![MdEvent::StartParagraph, MdEvent::StartStrong, MdEvent::Text(t), MdEvent::EndStrong, MdEvent::EndParagraph];
    let p1 = apply_event(s0, ev2[0]);
    let p2 = apply_event(p1, ev2[1]);
    let p3 = apply_event(p2, ev2[2]);
    let p4 = apply_event(p3, ev2[3]);
    let p5 = apply_event(p4, ev2[4]);
    assert(run(p5, ev2, 5) == p5);
    assert(run(p4, ev2, 4) == p5);
    assert(run(p3, ev2, 3) == p5);
    assert(run(p2, ev2, 2) == p5);
    assert(run(p1, ev2, 1) == p5);
    assert(run(s0, ev2, 0) == p5);
    assert(p5.stack.len() == 1);
    assert(unwind(p5, 1) == p5);
    assert(p5.inlines.len() == 0);
    assert(p5.stack.last().1 =~= seq![NodeV::Paragraph { children: seq![InlineV::Text { text: t@,
        formatting: TextFormatting { bold: true, ..plain() } }] }]);
}

/// A pulldown-cmark parse event, held opaque.
#[verifier::external_type_specification]
#[verifier::external_body]
pub struct ExEvent<'a>(pulldown_cmark::Event<'a>);

/// A pulldown-cmark block or span tag, held opaque.
#[verifier::external_type_specification]
#[verifier::external_body]
pub struct ExTag<'a>(pulldown_cmark::Tag<'a>);

/// The end of a pulldown-cmark block or span, held opaque.
#[verifier::external_type_specification]
#[verifier::external_body]
pub struct ExTagEnd(pulldown_cmark::TagEnd);

/// A pulldown-cmark table column alignment, held opaque.
#[verifier::external_type_specification]
#[verifier::external_body]
pub struct ExAlignment(pulldown_cmark::Alignment);

/// Every option pulldown-cmark offers (`Options::all()`), as its bits:
/// tables, footnotes, strikethrough, task lists, smart punctuation, heading
/// attributes, both metadata block styles, old-style footnotes, math, GFM
/// and definition lists.
pub const ALL_OPTIONS: u32 = 8190u32;

/// The parse events that pulldown-cmark reads from a Markdown text with
/// the options whose bits are given, each turned into an `MdEvent`.
pub uninterp spec fn markdown_events_of(markdown: Seq<char>, options: u32) -> Seq<MdEvent>;

/// pulldown-cmark's column alignments, one for one.
#[verifier::external_body]
fn convert_alignments(aligns: Vec<Alignment>) -> Vec<TableAlignment> {
    aligns.into_iter().map(|a| match a {
        Alignment::Left => TableAlignment::Left,
        Alignment::Center => TableAlignment::Center,
        Alignment::Right => TableAlignment::Right,
        Alignment::None => TableAlignment::Unaligned,
    }).collect()
}

/// The start of an inline span, one variant for one variant.
#[verifier::external_body]
fn start_inline(tag: Tag) -> MdEvent {
    match tag {
        Tag::Emphasis => MdEvent::StartEmphasis,
        Tag::Strong => MdEvent::StartStrong,
        Tag::Strikethrough => MdEvent::StartStrikethrough,
        Tag::Link { dest_url, title, .. } => MdEvent::StartLink { url: dest_url.into_string(), title: title.into_string() },
        Tag::Image { dest_url, title, .. } => MdEvent::StartImage { url: dest_url.into_string(), title: title.into_string() },
        _ => MdEvent::StartOther,
    }
}

/// The start of a block, one variant for one variant; spans go on to
/// `start_inline`.
#[verifier::external_body]
fn start_block(tag: Tag) -> MdEvent {
    match tag {
        Tag::Paragraph => MdEvent::StartParagraph,
        Tag::Heading { level, .. } => MdEvent::StartHeading(level as u8),
        Tag::BlockQuote(_) => MdEvent::StartBlockQuote,
        Tag::CodeBlock(CodeBlockKind::Fenced(lang)) => MdEvent::StartCodeBlock(lang.into_string()),
        Tag::CodeBlock(CodeBlockKind::Indented) => MdEvent::StartCodeBlock(String::new()),
        Tag::List(start) => MdEvent::StartList(start),
        Tag::Item => MdEvent::StartItem,
        Tag::FootnoteDefinition(label) => MdEvent::StartFootnoteDefinition(label.into_string()),
        Tag::Table(aligns) => MdEvent::StartTable(convert_alignments(aligns)),
        other => start_table_part(other),
    }
}

/// The start of a table part, one variant for one variant; the rest go on
/// to `start_inline`.
#[verifier::external_body]
fn start_table_part(tag: Tag) -> MdEvent {
    match tag {
        Tag::TableHead => MdEvent::StartTableHead,
        Tag::TableRow => MdEvent::StartTableRow,
        Tag::TableCell => MdEvent::StartTableCell,
        other => start_inline(other),
    }
}

/// The end of an inline span, one variant for one variant.
#[verifier::external_body]
fn end_inline(tag: TagEnd) -> MdEvent {
    match tag {
        TagEnd::Emphasis => MdEvent::EndEmphasis,
        TagEnd::Strong => MdEvent::EndStrong,
        TagEnd::Strikethrough => MdEvent::EndStrikethrough,
        TagEnd::Link => MdEvent::EndLink,
        TagEnd::Image => MdEvent::EndImage,
        _ => MdEvent::EndOther,
    }
}

/// The end of a block, one variant for one variant; spans go on to
/// `end_inline`.
#[verifier::external_body]
fn end_block(tag: TagEnd) -> MdEvent {
    match tag {
        TagEnd::Paragraph => MdEvent::EndParagraph,
        TagEnd::Heading(_) => MdEvent::EndHeading,
        TagEnd::BlockQuote(_) => MdEvent::EndBlockQuote,
        TagEnd::CodeBlock => MdEvent::EndCodeBlock,
        TagEnd::List(_) => MdEvent::EndList,
        TagEnd::Item => MdEvent::EndItem,
        TagEnd::FootnoteDefinition => MdEvent::EndFootnoteDefinition,
        TagEnd::Table => MdEvent::EndTable,
        TagEnd::TableHead => MdEvent::EndTableHead,
        TagEnd::TableRow => MdEvent::EndTableRow,
        TagEnd::TableCell => MdEvent::EndTableCell,
        other => end_inline(other),
    }
}

/// One pulldown-cmark event, one variant for one variant; events the
/// library does not read become `Other`.
#[verifier::external_body]
fn convert_event(event: Event) -> MdEvent {
    match event {
        Event::Start(tag) => start_block(tag),
        Event::End(tag) => end_block(tag),
        Event::Text(t) => MdEvent::Text(t.into_string()),
        Event::Code(t) => MdEvent::Code(t.into_string()),
        Event::Html(t) => MdEvent::Html(t.into_string()),
        Event::FootnoteReference(l) => MdEvent::FootnoteReference(l.into_string()),
        Event::SoftBreak => MdEvent::SoftBreak,
        Event::HardBreak => MdEvent::HardBreak,
        Event::Rule => MdEvent::Rule,
        Event::TaskListMarker(b) => MdEvent::TaskListMarker(b),
        _ => MdEvent::Other,
    }
}

/// `pulldown_cmark::Parser::new_ext` on the text, with the options whose
/// bits are given (`Options::from_bits_truncate`), each event turned into
/// an `MdEvent` by `convert_event`. The contract claims only that the
/// result is a function of the text and the options, named
/// `markdown_events_of`.
#[verifier::external_body]
fn markdown_events(markdown: &str, options: u32) -> (r: Vec<MdEvent>)
    ensures r@ == markdown_events_of(markdown@, options),
{
    Parser::new_ext(markdown, Options::from_bits_truncate(options)).map(convert_event).collect()
}

/// Parses Markdown, with every pulldown-cmark option on, into a document:
/// the events pulldown-cmark reads, built into blocks and inline nodes by
/// `parse_events`. It always succeeds.
pub fn parse_markdown(markdown: &str) -> (r: Result<Document, ParseError>)
    ensures r is Ok && r->Ok_0@ == parse_result(markdown_events_of(markdown@, ALL_OPTIONS)),
{
    let events = markdown_events(markdown, ALL_OPTIONS);
    Ok(parse_events(&events))
}

} // verus!
