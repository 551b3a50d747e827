//! Writing a document as Markdown.
use vstd::prelude::*;
use crate::document::{Document, DocumentV};
use crate::inline::{InlineNode, InlineV, TextFormatting, inlines_seq_v};
use crate::node::{
    DefinitionItem, DefinitionItemV, ListItem, ListItemV, ListType, Node, NodeV, TableAlignment, TableCell,
    TableCellV, nodes_seq_v, list_items_seq_v, cells_seq_v, rows_seq_v, def_items_seq_v, descs_seq_v,
    lemma_nodes_seq_v_index, lemma_list_items_seq_v_index, lemma_cells_seq_v_index, lemma_rows_seq_v_index,
    lemma_def_items_seq_v_index, lemma_descs_seq_v_index,
};
use crate::convert::{
    escaped, html_escape, decimal, push_decimal, repeated, push_repeated, trimmed_end, trim_end, prefixed_lines,
    push_prefixed_lines,
};

verus! {

// ---------------------------------------------------------------------------
// What the Markdown of each part is
// ---------------------------------------------------------------------------

/// A text run with its formatting markers: bold innermost, then italic,
/// strikethrough and code outermost.
pub open spec fn md_text(text: Seq<char>, f: TextFormatting) -> Seq<char> {
    let a = if f.bold { "**"@ + text + "**"@ } else { text };
    let b = if f.italic { "*"@ + a + "*"@ } else { a };
    let c = if f.strikethrough { "~~"@ + b + "~~"@ } else { b };
    if f.code { "`"@ + c + "`"@ } else { c }
}

/// The quoted title of a link or image, with its leading space.
pub open spec fn md_title(title: Option<Seq<char>>) -> Seq<char> {
    match title {
        Some(t) => " \""@ + t + "\""@,
        None => Seq::empty(),
    }
}

/// The Markdown of an inline node.
pub open spec fn md_inline(n: InlineV) -> Seq<char>
    decreases n, 1int,
{
    match n {
        InlineV::Text { text, formatting } => md_text(text, formatting),
        InlineV::Link { url, title, children } => "["@ + md_inlines(children) + "]("@ + url + md_title(title) + ")"@,
        InlineV::Image { url, alt, title } => "!["@ + alt + "]("@ + url + md_title(title) + ")"@,
        InlineV::CodeSpan { code } => "`"@ + code + "`"@,
        InlineV::AutoLink { url, .. } => "<"@ + url + ">"@,
        InlineV::FootnoteRef { label } => "[^"@ + label + "]"@,
        InlineV::InlineFootnote { children } => "[^"@ + md_inlines(children) + "]"@,
        InlineV::Mention { name, mention_type } =>
            if mention_type == "user"@ { "@"@ + name } else if mention_type == "issue"@ { "#"@ + name } else { name },
        InlineV::Math { math } => "<span class=\"math-inline\">$"@ + escaped(math) + "$</span>"@,
        InlineV::Emoji { shortcode } => ":"@ + shortcode + ":"@,
        InlineV::HardBreak => "  \n"@,
        InlineV::SoftBreak => " "@,
    }
}

/// The Markdown of a run of inline nodes, one after another.
pub open spec fn md_inlines(s: Seq<InlineV>) -> Seq<char>
    decreases s, 0int,
{
    if s.len() == 0 { Seq::empty() } else { md_inlines(s.drop_last()) + md_inline(s.last()) }
}

/// The marker in front of item `i` of a list.
pub open spec fn md_marker(t: ListType, i: int, checked: Option<bool>) -> Seq<char> {
    match t {
        ListType::Ordered => decimal((i + 1) as nat) + ". "@,
        ListType::Unordered => "* "@,
        ListType::Task => match checked {
            Some(true) => "- [x] "@,
            Some(false) => "- [ ] "@,
            None => "- "@,
        },
    }
}

/// The header row of a table: the cells, or numbered headers when there
/// are none but there are rows.
pub open spec fn md_header_cells(header: Seq<TableCellV>, k: int) -> Seq<char>
    decreases k,
{
    if k <= 0 {
        Seq::empty()
    } else {
        md_header_cells(header, k - 1) + (if k - 1 > 0 { " | "@ } else { Seq::empty() }) + md_inlines(header[k - 1].content)
    }
}

pub open spec fn md_default_headers(k: int) -> Seq<char>
    decreases k,
{
    if k <= 0 {
        Seq::empty()
    } else {
        md_default_headers(k - 1) + (if k - 1 > 0 { " | "@ } else { Seq::empty() }) + "Header "@ + decimal(k as nat)
    }
}

/// The separator cell for a column alignment, with its closing bar.
pub open spec fn md_align(a: TableAlignment) -> Seq<char> {
    match a {
        TableAlignment::Left => ":-------|"@,
        TableAlignment::Center => ":-------:|"@,
        TableAlignment::Right => "-------:|"@,
        _ => "--------|"@,
    }
}

pub open spec fn md_aligns(a: Seq<TableAlignment>, k: int) -> Seq<char>
    decreases k,
{
    if k <= 0 { Seq::empty() } else { md_aligns(a, k - 1) + md_align(a[k - 1]) }
}

/// A body row: each cell as ` content |`.
pub open spec fn md_row_cells(row: Seq<TableCellV>, k: int) -> Seq<char>
    decreases k,
{
    if k <= 0 { Seq::empty() } else { md_row_cells(row, k - 1) + " "@ + md_inlines(row[k - 1].content) + " |"@ }
}

pub open spec fn md_rows(rows: Seq<Seq<TableCellV>>, k: int) -> Seq<char>
    decreases k,
{
    if k <= 0 { Seq::empty() } else { md_rows(rows, k - 1) + "|"@ + md_row_cells(rows[k - 1], rows[k - 1].len() as int) + "\n"@ }
}

/// The Markdown of a table: header row, separator row, body rows.
pub open spec fn md_table(header: Seq<TableCellV>, rows: Seq<Seq<TableCellV>>, alignments: Seq<TableAlignment>) -> Seq<char> {
    (if header.len() == 0 && rows.len() > 0 {
        md_default_headers(rows[0].len() as int)
    } else {
        md_header_cells(header, header.len() as int)
    }) + "\n"@ + "|"@ + md_aligns(alignments, alignments.len() as int) + "\n"@ + md_rows(rows, rows.len() as int)
}

/// The Markdown of a block node.
pub open spec fn md_node(n: NodeV) -> Seq<char>
    decreases n, 0int,
{
    match n {
        NodeV::Heading { level, children } => repeated("#"@, level as nat) + " "@ + md_inlines(children),
        NodeV::Paragraph { children } => md_inlines(children),
        NodeV::List { list_type, items } => md_items(list_type, items, items.len() as int),
        NodeV::CodeBlock { language, code } =>
            (if language.len() > 0 { "```"@ + language } else { "```"@ }) + "\n"@ + code + "\n```"@,
        NodeV::BlockQuote { children } => trimmed_end(md_quote(children, children.len() as int)),
        NodeV::ThematicBreak => "---"@,
        NodeV::Table { header, rows, alignments, .. } => md_table(header, rows, alignments),
        NodeV::Group { children, .. } => trimmed_end(md_blocks(children, children.len() as int)),
        NodeV::FootnoteReference { label, .. } => "[^"@ + label + "]"@,
        NodeV::FootnoteDefinition { label, content } => "[^"@ + label + "]:"@ + md_note(content, content.len() as int),
        NodeV::DefinitionList { items } => md_defs(items, items.len() as int),
        NodeV::MathBlock { math } => "$$\n"@ + math + "\n$$"@,
        NodeV::TempListItem(_) => Seq::empty(),
        NodeV::TempTableCell(_) => Seq::empty(),
    }
}

/// The first `k` items of a list, each followed by a line feed.
pub open spec fn md_items(t: ListType, items: Seq<ListItemV>, k: int) -> Seq<char>
    decreases items, k,
{
    if k <= 0 || k > items.len() {
        Seq::empty()
    } else {
        md_items(t, items, k - 1) + md_item(md_marker(t, k - 1, items[k - 1].checked), items[k - 1]) + "\n"@
    }
}

/// A list item: the marker and its first child, then each further child
/// on new lines indented by the marker's width.
pub open spec fn md_item(marker: Seq<char>, li: ListItemV) -> Seq<char>
    decreases li, 0int,
{
    md_item_children(marker, li.children, li.children.len() as int)
}

pub open spec fn md_item_children(marker: Seq<char>, children: Seq<NodeV>, k: int) -> Seq<char>
    decreases children, k,
{
    if k <= 0 || k > children.len() {
        Seq::empty()
    } else if k == 1 {
        marker + md_node(children[0])
    } else {
        md_item_children(marker, children, k - 1) + "\n"@
            + prefixed_lines(md_node(children[k - 1]), repeated(" "@, marker.len()))
    }
}

/// The first `k` children of a block quote, each line quoted, with a quoted
/// empty line after each child once there is text.
pub open spec fn md_quote(children: Seq<NodeV>, k: int) -> Seq<char>
    decreases children, k,
{
    if k <= 0 || k > children.len() {
        Seq::empty()
    } else {
        let a = md_quote(children, k - 1) + prefixed_lines(md_node(children[k - 1]), "> "@);
        if a.len() > 0 { a + "> \n"@ } else { a }
    }
}

/// The first `k` nodes, each followed by an empty line.
pub open spec fn md_blocks(nodes: Seq<NodeV>, k: int) -> Seq<char>
    decreases nodes, k,
{
    if k <= 0 || k > nodes.len() { Seq::empty() } else { md_blocks(nodes, k - 1) + md_node(nodes[k - 1]) + "\n\n"@ }
}

/// The content of a footnote definition: the first child after a space,
/// further children on indented lines.
pub open spec fn md_note(content: Seq<NodeV>, k: int) -> Seq<char>
    decreases content, k,
{
    if k <= 0 || k > content.len() {
        Seq::empty()
    } else if k == 1 {
        " "@ + md_node(content[0])
    } else {
        md_note(content, k - 1) + "\n    "@ + prefixed_lines(md_node(content[k - 1]), "    "@)
    }
}

/// One description of a definition: its first node, further nodes as
/// indented lines.
pub open spec fn md_desc(desc: Seq<NodeV>, k: int) -> Seq<char>
    decreases desc, k,
{
    if k <= 0 || k > desc.len() {
        Seq::empty()
    } else if k == 1 {
        md_node(desc[0])
    } else {
        md_desc(desc, k - 1) + prefixed_lines(md_node(desc[k - 1]), "    "@)
    }
}

/// The descriptions of a term, each after `:   ` and followed by a line feed.
pub open spec fn md_descs(descs: Seq<Seq<NodeV>>, k: int) -> Seq<char>
    decreases descs, k,
{
    if k <= 0 || k > descs.len() {
        Seq::empty()
    } else {
        md_descs(descs, k - 1) + ":   "@ + md_desc(descs[k - 1], descs[k - 1].len() as int) + "\n"@
    }
}

/// The first `k` terms of a definition list with their descriptions.
pub open spec fn md_defs(items: Seq<DefinitionItemV>, k: int) -> Seq<char>
    decreases items, k,
{
    if k <= 0 || k > items.len() {
        Seq::empty()
    } else {
        md_defs(items, k - 1) + md_inlines(items[k - 1].term) + "\n"@
            + md_descs(items[k - 1].descriptions, items[k - 1].descriptions.len() as int)
    }
}

/// The Markdown of a document: its nodes separated by empty lines, without
/// trailing white space.
pub open spec fn md_document(d: DocumentV) -> Seq<char> {
    trimmed_end(md_blocks(d.nodes, d.nodes.len() as int))
}

// ---------------------------------------------------------------------------
// Writing it
// ---------------------------------------------------------------------------

proof fn lemma_md_inlines_push(s: Seq<InlineV>, x: InlineV)
    ensures md_inlines(s.push(x)) == md_inlines(s) + md_inline(x),
{
    assert(s.push(x).drop_last() =~= s);
}

/// `a` followed by `b`, as a new string.
fn cat(a: &str, b: &str) -> (r: String)
    ensures r@ == a@ + b@,
{
    let mut r = a.to_owned();
    r.append(b);
    r
}

/// Appends a text run with its formatting markers.
fn push_md_text(r: &mut String, text: &str, f: TextFormatting)
    ensures final(r)@ == old(r)@ + md_text(text@, f),
{
    let mut s = text.to_owned();
    if f.bold {
        s = cat(cat("**", s.as_str()).as_str(), "**");
    }
    if f.italic {
        s = cat(cat("*", s.as_str()).as_str(), "*");
    }
    if f.strikethrough {
        s = cat(cat("~~", s.as_str()).as_str(), "~~");
    }
    if f.code {
        s = cat(cat("`", s.as_str()).as_str(), "`");
    }
    r.append(s.as_str());
}

/// Appends the quoted title of a link or image.
fn push_md_title(r: &mut String, title: &Option<String>)
    ensures final(r)@ == old(r)@ + md_title(crate::inline::opt_str_v(*title)),
{
    match title {
        Some(t) => {
            r.append(" \"");
            r.append(t.as_str());
            r.append("\"");
        },
        None => {
            proof { assert(old(r)@ + Seq::<char>::empty() =~= old(r)@); }
        },
    }
}

/// The Markdown of an inline node.
pub fn inline_to_markdown(n: &InlineNode) -> (r: String)
    ensures r@ == md_inline(n@),
    decreases n,
{
    let mut r = String::new();
    match n {
        InlineNode::Text(t) => push_md_text(&mut r, t.text.as_str(), t.formatting),
        InlineNode::Link { url, title, children } => {
            r.append("[");
            push_md_inlines(&mut r, children);
            r.append("](");
            r.append(url.as_str());
            push_md_title(&mut r, title);
            r.append(")");
        },
        InlineNode::Image { url, alt, title } => {
            r.append("![");
            r.append(alt.as_str());
            r.append("](");
            r.append(url.as_str());
            push_md_title(&mut r, title);
            r.append(")");
        },
        InlineNode::CodeSpan { code } => {
            r.append("`");
            r.append(code.as_str());
            r.append("`");
        },
        InlineNode::AutoLink { url, .. } => {
            r.append("<");
            r.append(url.as_str());
            r.append(">");
        },
        InlineNode::FootnoteRef { label } => {
            r.append("[^");
            r.append(label.as_str());
            r.append("]");
        },
        InlineNode::InlineFootnote { children } => {
            r.append("[^");
            push_md_inlines(&mut r, children);
            r.append("]");
        },
        InlineNode::Mention { name, mention_type } => {
            if *mention_type == "user".to_owned() {
                r.append("@");
            } else if *mention_type == "issue".to_owned() {
                r.append("#");
            }
            r.append(name.as_str());
        },
        InlineNode::Math { math } => {
            r.append("<span class=\"math-inline\">$");
            r.append(html_escape(math.as_str()).as_str());
            r.append("$</span>");
        },
        InlineNode::Emoji { shortcode } => {
            r.append(":");
            r.append(shortcode.as_str());
            r.append(":");
        },
        InlineNode::HardBreak => r.append("  \n"),
        InlineNode::SoftBreak => r.append(" "),
    }
    r
}

/// Appends the Markdown of a run of inline nodes.
fn push_md_inlines(r: &mut String, v: &Vec<InlineNode>)
    ensures final(r)@ == old(r)@ + md_inlines(inlines_seq_v(v@)),
    decreases v, 0int,
{
    let mut i: usize = 0;
    proof { assert(v@.take(0) =~= Seq::<InlineNode>::empty()); }
    while i < v.len()
        invariant
            i <= v.len(),
            r@ == old(r)@ + md_inlines(inlines_seq_v(v@.take(i as int))),
        decreases v.len() - i,
    {
        proof { vstd::std_specs::vec::axiom_vec_index_decreases(*v, i as int); }
        let s = inline_to_markdown(&v[i]);
        proof {
            assert(v@.take(i + 1) =~= v@.take(i as int).push(v@[i as int]));
            crate::inline::lemma_inlines_push(v@.take(i as int), v@[i as int]);
            lemma_md_inlines_push(inlines_seq_v(v@.take(i as int)), v@[i as int]@);
        }
        r.append(s.as_str());
        i = i + 1;
    }
    proof { assert(v@.take(i as int) =~= v@); }
}

/// The Markdown of a run of inline nodes.
pub fn inlines_to_markdown(v: &Vec<InlineNode>) -> (r: String)
    ensures r@ == md_inlines(inlines_seq_v(v@)),
{
    let mut r = String::new();
    push_md_inlines(&mut r, v);
    r
}

/// Appends the marker of item `i` of a list.
fn push_marker(r: &mut String, t: ListType, i: usize, checked: Option<bool>)
    requires i < usize::MAX,
    ensures final(r)@ == old(r)@ + md_marker(t, i as int, checked),
{
    match t {
        ListType::Ordered => {
            push_decimal(r, i + 1);
            r.append(". ");
        },
        ListType::Unordered => r.append("* "),
        ListType::Task => match checked {
            Some(true) => r.append("- [x] "),
            Some(false) => r.append("- [ ] "),
            None => r.append("- "),
        },
    }
}

/// Appends a table in Markdown.
fn push_md_table(r: &mut String, header: &Vec<TableCell>, rows: &Vec<Vec<TableCell>>, alignments: &Vec<TableAlignment>)
    ensures final(r)@ == old(r)@ + md_table(cells_seq_v(header@), rows_seq_v(rows@), alignments@),
{
    let ghost h = cells_seq_v(header@);
    let ghost rs = rows_seq_v(rows@);
    proof {
        lemma_cells_seq_v_index(header@);
        lemma_rows_seq_v_index(rows@);
    }
    let ghost r0 = r@;
    if header.len() == 0 && rows.len() > 0 {
        proof { lemma_cells_seq_v_index(rows@[0]@); }
        let n = rows[0].len();
        let mut i: usize = 0;
        while i < n
            invariant
                i <= n,
                n == rs[0].len(),
                r@ == r0 + md_default_headers(i as int),
            decreases n - i,
        {
            if i > 0 {
                r.append(" | ");
            }
            r.append("Header ");
            push_decimal(r, i + 1);
            proof {
                if i == 0 {
                    assert(r0 + md_default_headers(0) + "Header "@ + decimal(1) =~= r0 + md_default_headers(1));
                }
            }
            i = i + 1;
        }
    } else {
        let mut i: usize = 0;
        while i < header.len()
            invariant
                i <= header.len(),
                h.len() == header.len(),
                forall|j: int| 0 <= j < header.len() ==> #[trigger] h[j] == header@[j]@,
                r@ == r0 + md_header_cells(h, i as int),
            decreases header.len() - i,
        {
            if i > 0 {
                r.append(" | ");
            }
            push_md_inlines(r, &header[i].content);
            proof {
                if i == 0 {
                    assert(r0 + md_header_cells(h, 0) + md_inlines(h[0].content) =~= r0 + md_header_cells(h, 1));
                }
            }
            i = i + 1;
        }
    }
    let ghost r1 = r@;
    r.append("\n");
    r.append("|");
    let mut i: usize = 0;
    while i < alignments.len()
        invariant
            i <= alignments.len(),
            r@ == r1 + "\n"@ + "|"@ + md_aligns(alignments@, i as int),
        decreases alignments.len() - i,
    {
        match alignments[i] {
            TableAlignment::Left => r.append(":-------|"),
            TableAlignment::Center => r.append(":-------:|"),
            TableAlignment::Right => r.append("-------:|"),
            _ => r.append("--------|"),
        }
        i = i + 1;
    }
    r.append("\n");
    let ghost r2 = r@;
    let mut k: usize = 0;
    while k < rows.len()
        invariant
            k <= rows.len(),
            rs.len() == rows.len(),
            forall|j: int| 0 <= j < rows.len() ==> #[trigger] rs[j] == cells_seq_v(rows@[j]@),
            r@ == r2 + md_rows(rs, k as int),
        decreases rows.len() - k,
    {
        let row = &rows[k];
        proof { lemma_cells_seq_v_index(row@); }
        let ghost rv = rs[k as int];
        r.append("|");
        let ghost r3 = r@;
        let mut j: usize = 0;
        while j < row.len()
            invariant
                j <= row.len(),
                rv.len() == row.len(),
                forall|x: int| 0 <= x < row.len() ==> #[trigger] rv[x] == row@[x]@,
                r@ == r3 + md_row_cells(rv, j as int),
            decreases row.len() - j,
        {
            r.append(" ");
            push_md_inlines(r, &row[j].content);
            r.append(" |");
            j = j + 1;
        }
        r.append("\n");
        k = k + 1;
    }
}

/// The Markdown of a block node.
pub fn node_to_markdown(n: &Node) -> (r: String)
    ensures r@ == md_node(n@),
    decreases n, 0int,
{
    let mut r = String::new();
    match n {
        Node::Heading { level, children } => {
            push_repeated(&mut r, "#", *level as usize);
            r.append(" ");
            push_md_inlines(&mut r, children);
        },
        Node::Paragraph { children } => push_md_inlines(&mut r, children),
        Node::List { list_type, items } => {
            proof { lemma_list_items_seq_v_index(items@); }
            push_md_items(&mut r, *list_type, items);
        },
        Node::CodeBlock { language, code } => {
            r.append("```");
            if language.as_str().unicode_len() > 0 {
                r.append(language.as_str());
            }
            r.append("\n");
            r.append(code.as_str());
            r.append("\n```");
            proof {
                assert(r@ =~= (if language@.len() > 0 { "```"@ + language@ } else { "```"@ }) + "\n"@ + code@ + "\n```"@);
            }
        },
        Node::BlockQuote { children } => {
            let mut q = String::new();
            proof { lemma_nodes_seq_v_index(children@); }
            push_md_quote(&mut q, children);
            r = trim_end(q.as_str());
        },
        Node::ThematicBreak => r.append("---"),
        Node::Table { header, rows, alignments, .. } => push_md_table(&mut r, header, rows, alignments),
        Node::Group { children, .. } => {
            let mut b = String::new();
            proof { lemma_nodes_seq_v_index(children@); }
            push_md_blocks(&mut b, children);
            r = trim_end(b.as_str());
        },
        Node::FootnoteReference(f) => {
            r.append("[^");
            r.append(f.label.as_str());
            r.append("]");
        },
        Node::FootnoteDefinition(f) => {
            r.append("[^");
            r.append(f.label.as_str());
            r.append("]:");
            proof { lemma_nodes_seq_v_index(f.content@); }
            push_md_note(&mut r, &f.content);
        },
        Node::DefinitionList { items } => {
            proof { lemma_def_items_seq_v_index(items@); }
            push_md_defs(&mut r, items);
        },
        Node::MathBlock { math } => {
            r.append("$$\n");
            r.append(math.as_str());
            r.append("\n$$");
        },
        Node::TempListItem(_) => {},
        Node::TempTableCell(_) => {},
    }
    r
}

/// Appends the items of a list.
fn push_md_items(r: &mut String, t: ListType, items: &Vec<ListItem>)
    ensures final(r)@ == old(r)@ + md_items(t, list_items_seq_v(items@), items.len() as int),
    decreases items, 0int,
{
    let ghost iv = list_items_seq_v(items@);
    proof { lemma_list_items_seq_v_index(items@); }
    let mut i: usize = 0;
    while i < items.len()
        invariant
            i <= items.len(),
            iv.len() == items.len(),
            forall|j: int| 0 <= j < items.len() ==> #[trigger] iv[j] == items@[j]@,
            r@ == old(r)@ + md_items(t, iv, i as int),
        decreases items.len() - i,
    {
        proof { vstd::std_specs::vec::axiom_vec_index_decreases(*items, i as int); }
        let mut marker = String::new();
        push_marker(&mut marker, t, i, items[i].checked);
        proof { assert(marker@ =~= md_marker(t, i as int, iv[i as int].checked)); }
        push_md_item(r, marker.as_str(), &items[i]);
        r.append("\n");
        i = i + 1;
    }
}

/// Appends one list item.
fn push_md_item(r: &mut String, marker: &str, li: &ListItem)
    ensures final(r)@ == old(r)@ + md_item(marker@, li@),
    decreases li, 0int,
{
    proof { lemma_nodes_seq_v_index(li.children@); }
    push_md_item_children(r, marker, &li.children);
}

fn push_md_item_children(r: &mut String, marker: &str, children: &Vec<Node>)
    ensures final(r)@ == old(r)@ + md_item_children(marker@, nodes_seq_v(children@), children.len() as int),
    decreases children, 0int,
{
    let ghost cv = nodes_seq_v(children@);
    proof { lemma_nodes_seq_v_index(children@); }
    let mut indent = String::new();
    push_repeated(&mut indent, " ", marker.unicode_len());
    let mut i: usize = 0;
    while i < children.len()
        invariant
            i <= children.len(),
            cv.len() == children.len(),
            forall|j: int| 0 <= j < children.len() ==> #[trigger] cv[j] == children@[j]@,
            indent@ == repeated(" "@, marker@.len()),
            r@ == old(r)@ + md_item_children(marker@, cv, i as int),
        decreases children.len() - i,
    {
        proof { vstd::std_specs::vec::axiom_vec_index_decreases(*children, i as int); }
        let child = node_to_markdown(&children[i]);
        if i == 0 {
            r.append(marker);
            r.append(child.as_str());
            proof { assert(old(r)@ + md_item_children(marker@, cv, 0) + marker@ + child@ =~= old(r)@ + md_item_children(marker@, cv, 1)); }
        } else {
            r.append("\n");
            push_prefixed_lines(r, child.as_str(), indent.as_str());
        }
        i = i + 1;
    }
}

/// Appends the quoted children of a block quote.
fn push_md_quote(r: &mut String, children: &Vec<Node>)
    requires old(r)@.len() == 0,
    ensures final(r)@ == md_quote(nodes_seq_v(children@), children.len() as int),
    decreases children, 0int,
{
    let ghost cv = nodes_seq_v(children@);
    proof { lemma_nodes_seq_v_index(children@); }
    let mut i: usize = 0;
    while i < children.len()
        invariant
            i <= children.len(),
            cv.len() == children.len(),
            forall|j: int| 0 <= j < children.len() ==> #[trigger] cv[j] == children@[j]@,
            r@ == md_quote(cv, i as int),
        decreases children.len() - i,
    {
        proof { vstd::std_specs::vec::axiom_vec_index_decreases(*children, i as int); }
        let child = node_to_markdown(&children[i]);
        push_prefixed_lines(r, child.as_str(), "> ");
        if r.as_str().unicode_len() > 0 {
            r.append("> \n");
        }
        i = i + 1;
    }
}

/// Appends the nodes, each followed by an empty line.
fn push_md_blocks(r: &mut String, nodes: &Vec<Node>)
    ensures final(r)@ == old(r)@ + md_blocks(nodes_seq_v(nodes@), nodes.len() as int),
    decreases nodes, 0int,
{
    let ghost cv = nodes_seq_v(nodes@);
    proof { lemma_nodes_seq_v_index(nodes@); }
    let mut i: usize = 0;
    while i < nodes.len()
        invariant
            i <= nodes.len(),
            cv.len() == nodes.len(),
            forall|j: int| 0 <= j < nodes.len() ==> #[trigger] cv[j] == nodes@[j]@,
            r@ == old(r)@ + md_blocks(cv, i as int),
        decreases nodes.len() - i,
    {
        proof { vstd::std_specs::vec::axiom_vec_index_decreases(*nodes, i as int); }
        let child = node_to_markdown(&nodes[i]);
        r.append(child.as_str());
        r.append("\n\n");
        i = i + 1;
    }
}

/// Appends the content of a footnote definition.
fn push_md_note(r: &mut String, content: &Vec<Node>)
    ensures final(r)@ == old(r)@ + md_note(nodes_seq_v(content@), content.len() as int),
    decreases content, 0int,
{
    let ghost cv = nodes_seq_v(content@);
    proof { lemma_nodes_seq_v_index(content@); }
    let mut i: usize = 0;
    while i < content.len()
        invariant
            i <= content.len(),
            cv.len() == content.len(),
            forall|j: int| 0 <= j < content.len() ==> #[trigger] cv[j] == content@[j]@,
            r@ == old(r)@ + md_note(cv, i as int),
        decreases content.len() - i,
    {
        proof { vstd::std_specs::vec::axiom_vec_index_decreases(*content, i as int); }
        let child = node_to_markdown(&content[i]);
        if i == 0 {
            r.append(" ");
            r.append(child.as_str());
            proof { assert(old(r)@ + md_note(cv, 0) + " "@ + child@ =~= old(r)@ + md_note(cv, 1)); }
        } else {
            r.append("\n    ");
            push_prefixed_lines(r, child.as_str(), "    ");
        }
        i = i + 1;
    }
}

/// Appends one description of a definition.
fn push_md_desc(r: &mut String, desc: &Vec<Node>)
    ensures final(r)@ == old(r)@ + md_desc(nodes_seq_v(desc@), desc.len() as int),
    decreases desc, 0int,
{
    let ghost cv = nodes_seq_v(desc@);
    proof { lemma_nodes_seq_v_index(desc@); }
    let mut i: usize = 0;
    while i < desc.len()
        invariant
            i <= desc.len(),
            cv.len() == desc.len(),
            forall|j: int| 0 <= j < desc.len() ==> #[trigger] cv[j] == desc@[j]@,
            r@ == old(r)@ + md_desc(cv, i as int),
        decreases desc.len() - i,
    {
        proof { vstd::std_specs::vec::axiom_vec_index_decreases(*desc, i as int); }
        let child = node_to_markdown(&desc[i]);
        if i == 0 {
            r.append(child.as_str());
            proof { assert(old(r)@ + md_desc(cv, 0) + child@ =~= old(r)@ + md_desc(cv, 1)); }
        } else {
            push_prefixed_lines(r, child.as_str(), "    ");
        }
        i = i + 1;
    }
}

/// Appends the descriptions of a term.
fn push_md_descs(r: &mut String, descs: &Vec<Vec<Node>>)
    ensures final(r)@ == old(r)@ + md_descs(descs_seq_v(descs@), descs.len() as int),
    decreases descs, 0int,
{
    let ghost dv = descs_seq_v(descs@);
    proof { lemma_descs_seq_v_index(descs@); }
    let mut i: usize = 0;
    while i < descs.len()
        invariant
            i <= descs.len(),
            dv.len() == descs.len(),
            forall|j: int| 0 <= j < descs.len() ==> #[trigger] dv[j] == nodes_seq_v(descs@[j]@),
            r@ == old(r)@ + md_descs(dv, i as int),
        decreases descs.len() - i,
    {
        proof {
            vstd::std_specs::vec::axiom_vec_index_decreases(*descs, i as int);
            lemma_nodes_seq_v_index(descs@[i as int]@);
        }
        r.append(":   ");
        push_md_desc(r, &descs[i]);
        r.append("\n");
        i = i + 1;
    }
}

/// Appends the terms of a definition list with their descriptions.
fn push_md_defs(r: &mut String, items: &Vec<DefinitionItem>)
    ensures final(r)@ == old(r)@ + md_defs(def_items_seq_v(items@), items.len() as int),
    decreases items, 0int,
{
    let ghost iv = def_items_seq_v(items@);
    proof { lemma_def_items_seq_v_index(items@); }
    let mut i: usize = 0;
    while i < items.len()
        invariant
            i <= items.len(),
            iv.len() == items.len(),
            forall|j: int| 0 <= j < items.len() ==> #[trigger] iv[j] == items@[j]@,
            r@ == old(r)@ + md_defs(iv, i as int),
        decreases items.len() - i,
    {
        proof { vstd::std_specs::vec::axiom_vec_index_decreases(*items, i as int); }
        let item = &items[i];
        push_md_inlines(r, &item.term);
        r.append("\n");
        proof { lemma_descs_seq_v_index(item.descriptions@); }
        push_md_item_descs(r, item);
        i = i + 1;
    }
}

fn push_md_item_descs(r: &mut String, item: &DefinitionItem)
    ensures final(r)@ == old(r)@ + md_descs(item@.descriptions, item@.descriptions.len() as int),
    decreases item, 0int,
{
    proof { lemma_descs_seq_v_index(item.descriptions@); }
    push_md_descs(r, &item.descriptions);
}

/// Writes the document as Markdown: its nodes separated by empty lines,
/// without trailing white space.
pub fn to_markdown(document: &Document) -> (r: String)
    ensures r@ == md_document(document@),
{
    let mut b = String::new();
    proof { lemma_nodes_seq_v_index(document.nodes@); }
    push_md_blocks(&mut b, &document.nodes);
    trim_end(b.as_str())
}

/// The markers a formatting puts before a text run, outermost first:
/// code, then strikethrough, then italic, then bold.
pub open spec fn md_open_marks(f: TextFormatting) -> Seq<char> {
    (if f.code { "`"@ } else { Seq::empty() }) + (if f.strikethrough { "~~"@ } else { Seq::empty() })
        + (if f.italic { "*"@ } else { Seq::empty() }) + (if f.bold { "**"@ } else { Seq::empty() })
}

/// The markers after it, innermost first.
pub open spec fn md_close_marks(f: TextFormatting) -> Seq<char> {
    (if f.bold { "**"@ } else { Seq::empty() }) + (if f.italic { "*"@ } else { Seq::empty() })
        + (if f.strikethrough { "~~"@ } else { Seq::empty() }) + (if f.code { "`"@ } else { Seq::empty() })
}

proof fn lemma_md_wrap_if(b: bool, o: Seq<char>, x: Seq<char>, c: Seq<char>)
    ensures
        (if b { o + x + c } else { x }) == (if b { o } else { Seq::<char>::empty() }) + x
            + (if b { c } else { Seq::<char>::empty() }),
{
    if !b {
        assert(Seq::<char>::empty() + x + Seq::<char>::empty() =~= x);
    }
}

proof fn lemma_md_nest4(oc: Seq<char>, od: Seq<char>, oe: Seq<char>, os: Seq<char>, e: Seq<char>,
    cs: Seq<char>, ce: Seq<char>, cd: Seq<char>, cc: Seq<char>)
    ensures oc + (od + (oe + (os + e + cs) + ce) + cd) + cc == (oc + od + oe + os) + e + (cs + ce + cd + cc),
{
    assert(oc + (od + (oe + (os + e + cs) + ce) + cd) + cc =~= (oc + od + oe + os) + e + (cs + ce + cd + cc));
}

/// A text run is written as its text between the markers of its
/// formatting, properly nested (`**` for bold, `*` for italic, `~~` for
/// strikethrough, a backtick for code); a plain run is just its text. A
/// code span is its code between backticks.
pub proof fn law_text_run_markdown(text: Seq<char>, f: TextFormatting)
    ensures
        md_inline(InlineV::Text { text, formatting: f }) == md_open_marks(f) + text + md_close_marks(f),
        !f.bold && !f.italic && !f.strikethrough && !f.code ==> md_inline(InlineV::Text { text, formatting: f }) == text,
        md_inline(InlineV::CodeSpan { code: text }) == "`"@ + text + "`"@,
{
    let a = if f.bold { "**"@ + text + "**"@ } else { text };
    lemma_md_wrap_if(f.bold, "**"@, text, "**"@);
    let b = if f.italic { "*"@ + a + "*"@ } else { a };
    lemma_md_wrap_if(f.italic, "*"@, a, "*"@);
    let c = if f.strikethrough { "~~"@ + b + "~~"@ } else { b };
    lemma_md_wrap_if(f.strikethrough, "~~"@, b, "~~"@);
    lemma_md_wrap_if(f.code, "`"@, c, "`"@);
    let z = Seq::<char>::empty();
    lemma_md_nest4(if f.code { "`"@ } else { z }, if f.strikethrough { "~~"@ } else { z },
        if f.italic { "*"@ } else { z }, if f.bold { "**"@ } else { z }, text,
        if f.bold { "**"@ } else { z }, if f.italic { "*"@ } else { z },
        if f.strikethrough { "~~"@ } else { z }, if f.code { "`"@ } else { z });
    assert(md_inline(InlineV::Text { text, formatting: f }) == md_text(text, f));
    if !f.bold && !f.italic && !f.strikethrough && !f.code {
        assert(md_open_marks(f) + text + md_close_marks(f) =~= text);
    }
}

/// `k` copies of `#`.
proof fn lemma_repeated_hashes(k: nat)
    ensures
        repeated("#"@, k).len() == k,
        forall|j: int| 0 <= j < k ==> #[trigger] repeated("#"@, k)[j] == '#',
    decreases k,
{
    reveal_strlit("#");
    if k > 0 {
        lemma_repeated_hashes((k - 1) as nat);
        let a = repeated("#"@, (k - 1) as nat);
        assert forall|j: int| 0 <= j < k implies #[trigger] repeated("#"@, k)[j] == '#' by {
            if j < a.len() {
                assert(repeated("#"@, k)[j] == a[j]);
            }
        }
    }
}

/// A heading of level `l` is written as `l` hashes, a space and its
/// content; a code block as a fence of three backticks (with the language
/// after it when there is one), a line feed, the code, a line feed and a
/// closing fence.
pub proof fn law_block_markdown(level: u8, ch: Seq<InlineV>, language: Seq<char>, code: Seq<char>)
    ensures ({
        let h = md_node(NodeV::Heading { level, children: ch });
        &&& h.len() == level + 1 + md_inlines(ch).len()
        &&& forall|j: int| 0 <= j < level ==> #[trigger] h[j] == '#'
        &&& h[level as int] == ' '
        &&& h.skip(level + 1) == md_inlines(ch)
    }),
        md_node(NodeV::CodeBlock { language, code }) == "```"@ + language + "\n"@ + code + "\n```"@,
{
    reveal_strlit(" ");
    lemma_repeated_hashes(level as nat);
    let h = md_node(NodeV::Heading { level, children: ch });
    let r = repeated("#"@, level as nat);
    assert(h == r + " "@ + md_inlines(ch));
    assert forall|j: int| 0 <= j < level implies #[trigger] h[j] == '#' by {
        assert(h[j] == r[j]);
    }
    assert(h.skip(level + 1) =~= md_inlines(ch));
    if language.len() == 0 {
        assert("```"@ + language =~= "```"@);
    }
}

} // verus!
