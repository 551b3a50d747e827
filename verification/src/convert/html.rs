//! Writing a document as HTML.
use vstd::prelude::*;
use crate::document::{Document, DocumentV};
use crate::inline::{InlineNode, InlineV, TextFormatting, inlines_seq_v, opt_str_v};
use crate::node::{
    DefinitionItem, DefinitionItemV, ListItem, ListItemV, ListType, Node, NodeV, TableAlignment, TableCell,
    TableCellV, TableProperties, TablePropertiesV, nodes_seq_v, list_items_seq_v, cells_seq_v, rows_seq_v,
    def_items_seq_v, descs_seq_v, lemma_nodes_seq_v_index, lemma_list_items_seq_v_index, lemma_cells_seq_v_index,
    lemma_rows_seq_v_index, lemma_def_items_seq_v_index, lemma_descs_seq_v_index,
};
use crate::convert::{escaped, escape_char, html_escape, decimal, digit_char, push_decimal};

verus! {

// ---------------------------------------------------------------------------
// What the HTML of each part is
// ---------------------------------------------------------------------------

/// A text run, escaped, inside its formatting elements: strong innermost,
/// then em, del and code outermost.
pub open spec fn html_text(text: Seq<char>, f: TextFormatting) -> Seq<char> {
    let a = if f.bold { "<strong>"@ + escaped(text) + "</strong>"@ } else { escaped(text) };
    let b = if f.italic { "<em>"@ + a + "</em>"@ } else { a };
    let c = if f.strikethrough { "<del>"@ + b + "</del>"@ } else { b };
    if f.code { "<code>"@ + c + "</code>"@ } else { c }
}

/// The title attribute of a link or image.
pub open spec fn html_title(title: Option<Seq<char>>) -> Seq<char> {
    match title {
        Some(t) => " title=\""@ + escaped(t) + "\""@,
        None => Seq::empty(),
    }
}

/// Whether `s` starts with `p`.
pub open spec fn starts_with(s: Seq<char>, p: Seq<char>) -> bool {
    p.len() <= s.len() && s.take(p.len() as int) == p
}

/// The HTML of an inline node.
pub open spec fn html_inline(n: InlineV) -> Seq<char>
    decreases n, 1int,
{
    match n {
        InlineV::Text { text, formatting } => html_text(text, formatting),
        InlineV::Link { url, title, children } =>
            "<a href=\""@ + escaped(url) + "\""@ + html_title(title) + ">"@ + html_inlines(children) + "</a>"@,
        InlineV::Image { url, alt, title } =>
            "<img src=\""@ + escaped(url) + "\" alt=\""@ + escaped(alt) + "\""@ + html_title(title) + ">"@,
        InlineV::CodeSpan { code } => "<code>"@ + escaped(code) + "</code>"@,
        InlineV::AutoLink { url, is_email } => {
            let href = if is_email && !starts_with(url, "mailto:"@) { "mailto:"@ + url } else { url };
            "<a href=\""@ + escaped(href) + "\">"@ + escaped(url) + "</a>"@
        },
        InlineV::FootnoteRef { label } => "<sup class=\"footnote-ref\"><a href=\"#fn-"@ + escaped(label)
            + "\" id=\"fnref-"@ + escaped(label) + "\">"@ + escaped(label) + "</a></sup>"@,
        InlineV::InlineFootnote { children } => "<sup class=\"footnote-inline\">"@ + html_inlines(children) + "</sup>"@,
        InlineV::Mention { name, mention_type } =>
            if mention_type == "user"@ {
                "<span class=\"mention mention-user\">@"@ + escaped(name) + "</span>"@
            } else if mention_type == "issue"@ {
                "<span class=\"mention mention-issue\">#"@ + escaped(name) + "</span>"@
            } else {
                "<span class=\"mention mention-"@ + escaped(mention_type) + "\">"@ + escaped(name) + "</span>"@
            },
        InlineV::Math { math } => "<span class=\"math-inline\">$"@ + escaped(math) + "$</span>"@,
        InlineV::Emoji { shortcode } =>
            "<span class=\"emoji emoji-"@ + escaped(shortcode) + "\">"@ + escaped(shortcode) + "</span>"@,
        InlineV::HardBreak => "<br/>\n"@,
        InlineV::SoftBreak => "<br/>\n"@,
    }
}

/// The HTML of a run of inline nodes, one after another.
pub open spec fn html_inlines(s: Seq<InlineV>) -> Seq<char>
    decreases s, 0int,
{
    if s.len() == 0 { Seq::empty() } else { html_inlines(s.drop_last()) + html_inline(s.last()) }
}

/// The words separated by single spaces.
pub open spec fn joined(words: Seq<Seq<char>>) -> Seq<char>
    decreases words.len(),
{
    if words.len() == 0 {
        Seq::empty()
    } else if words.len() == 1 {
        words[0]
    } else {
        joined(words.drop_last()) + " "@ + words.last()
    }
}

/// The classes of a table: bordered, striped, hoverable and its own class,
/// as set.
pub open spec fn table_classes(p: TablePropertiesV) -> Seq<Seq<char>> {
    let a: Seq<Seq<char>> = if p.has_borders { seq!["bordered"@] } else { Seq::empty() };
    let b = if p.striped_rows { a.push("striped"@) } else { a };
    let c = if p.hoverable { b.push("hoverable"@) } else { b };
    match p.css_class {
        Some(x) => c.push(x),
        None => c,
    }
}

/// The class attribute for the alignment of column `i`.
pub open spec fn align_attr(alignments: Seq<TableAlignment>, i: int) -> Seq<char> {
    if 0 <= i < alignments.len() {
        match alignments[i] {
            TableAlignment::Left => " class=\"align-left\""@,
            TableAlignment::Center => " class=\"align-center\""@,
            TableAlignment::Right => " class=\"align-right\""@,
            TableAlignment::Justify => " class=\"align-justify\""@,
            _ => Seq::empty(),
        }
    } else {
        Seq::empty()
    }
}

/// The span attributes of a table cell.
pub open spec fn cell_spans(c: TableCellV) -> Seq<char> {
    (if c.colspan > 1 { " colspan=\""@ + decimal(c.colspan as nat) + "\""@ } else { Seq::empty() })
        + (if c.rowspan > 1 { " rowspan=\""@ + decimal(c.rowspan as nat) + "\""@ } else { Seq::empty() })
}

/// The colour, class and style attributes of a table cell.
pub open spec fn cell_looks(c: TableCellV) -> Seq<char> {
    (match c.background_color { Some(bg) => " style=\"background-color: "@ + bg + "\""@, None => Seq::empty() })
        + (match c.css_class { Some(x) => " class=\""@ + x + "\""@, None => Seq::empty() })
        + (match c.style {
            Some(s) => if c.background_color is Some { "; "@ + s } else { " style=\""@ + s + "\""@ },
            None => Seq::empty(),
        })
}

/// A table cell in the element `tag`, with its attributes and content.
pub open spec fn html_cell(tag: Seq<char>, align: Seq<char>, c: TableCellV) -> Seq<char> {
    "<"@ + tag + align + cell_spans(c) + cell_looks(c) + ">"@ + html_inlines(c.content) + "</"@ + tag + ">"@
}

/// The first `k` cells of a header row.
pub open spec fn html_header_cells(cells: Seq<TableCellV>, alignments: Seq<TableAlignment>, k: int) -> Seq<char>
    decreases k,
{
    if k <= 0 {
        Seq::empty()
    } else {
        html_header_cells(cells, alignments, k - 1) + html_cell("th"@, align_attr(alignments, k - 1), cells[k - 1])
    }
}

/// The first `k` cells of a body row.
pub open spec fn html_row_cells(cells: Seq<TableCellV>, alignments: Seq<TableAlignment>, k: int) -> Seq<char>
    decreases k,
{
    if k <= 0 {
        Seq::empty()
    } else {
        html_row_cells(cells, alignments, k - 1)
            + html_cell(if cells[k - 1].is_header { "th"@ } else { "td"@ }, align_attr(alignments, k - 1), cells[k - 1])
    }
}

pub open spec fn html_rows(rows: Seq<Seq<TableCellV>>, alignments: Seq<TableAlignment>, k: int) -> Seq<char>
    decreases k,
{
    if k <= 0 {
        Seq::empty()
    } else {
        html_rows(rows, alignments, k - 1) + "<tr>"@ + html_row_cells(rows[k - 1], alignments, rows[k - 1].len() as int)
            + "</tr>\n"@
    }
}

/// The caption line of a table, when it has one at the bottom (`bottom`)
/// or at the top (`!bottom`).
pub open spec fn html_caption(p: TablePropertiesV, bottom: bool) -> Seq<char> {
    match p.caption {
        Some(c) => if p.caption_at_bottom == bottom { "<caption>"@ + escaped(c) + "</caption>\n"@ } else { Seq::empty() },
        None => Seq::empty(),
    }
}

/// The opening tag of a table with its attributes.
pub open spec fn table_open(p: TablePropertiesV) -> Seq<char> {
    "<table"@
        + (if table_classes(p).len() > 0 { " class=\""@ + joined(table_classes(p)) + "\""@ } else { Seq::empty() })
        + (match p.style { Some(s) => " style=\""@ + s + "\""@, None => Seq::empty() })
        + ">\n"@
}

/// The header section of a table, when it has a header to show.
pub open spec fn table_head(header: Seq<TableCellV>, alignments: Seq<TableAlignment>, p: TablePropertiesV) -> Seq<char> {
    if header.len() > 0 && p.has_header {
        "<thead>\n<tr>"@ + html_header_cells(header, alignments, header.len() as int) + "</tr>\n</thead>\n"@
    } else {
        Seq::empty()
    }
}

/// The body section of a table, when it has rows.
pub open spec fn table_body(rows: Seq<Seq<TableCellV>>, alignments: Seq<TableAlignment>) -> Seq<char> {
    if rows.len() > 0 { "<tbody>\n"@ + html_rows(rows, alignments, rows.len() as int) + "</tbody>\n"@ } else { Seq::empty() }
}

/// The HTML of a table.
pub open spec fn html_table(
    header: Seq<TableCellV>,
    rows: Seq<Seq<TableCellV>>,
    alignments: Seq<TableAlignment>,
    p: TablePropertiesV,
) -> Seq<char> {
    table_open(p) + html_caption(p, false) + table_head(header, alignments, p) + table_body(rows, alignments)
        + html_caption(p, true) + "</table>"@
}

/// The checkbox of a task item, with the space after it.
pub open spec fn html_checkbox(checked: Option<bool>) -> Seq<char> {
    match checked {
        Some(b) => "<input type=\"checkbox\" "@ + (if b { " checked"@ } else { Seq::empty() }) + "> "@,
        None => Seq::empty(),
    }
}

/// The opening tag of a list, without brackets.
pub open spec fn list_tag(t: ListType) -> Seq<char> {
    match t {
        ListType::Ordered => "ol"@,
        ListType::Unordered => "ul"@,
        ListType::Task => "ul class=\"task-list\""@,
    }
}

/// The element name that closes a list.
pub open spec fn list_close(t: ListType) -> Seq<char> {
    match t {
        ListType::Ordered => "ol"@,
        _ => "ul"@,
    }
}

/// The HTML of a block node.
pub open spec fn html_node(n: NodeV) -> Seq<char>
    decreases n, 0int,
{
    match n {
        NodeV::Heading { level, children } =>
            "<h"@ + decimal(level as nat) + ">"@ + html_inlines(children) + "</h"@ + decimal(level as nat) + ">"@,
        NodeV::Paragraph { children } => "<p>"@ + html_inlines(children) + "</p>"@,
        NodeV::List { list_type, items } =>
            "<"@ + list_tag(list_type) + ">"@ + html_items(items, items.len() as int) + "</"@ + list_close(list_type) + ">"@,
        NodeV::CodeBlock { language, code } =>
            "<pre><code"@ + (if language.len() > 0 { " class=\"language-"@ + language + "\""@ } else { Seq::empty() })
                + " data-copy-button=\"true\">"@ + escaped(code) + "</code></pre>"@,
        NodeV::BlockQuote { children } => "<blockquote>"@ + html_nodes(children, 0, children.len() as int) + "</blockquote>"@,
        NodeV::ThematicBreak => "<hr>"@,
        NodeV::Table { header, rows, alignments, properties } => html_table(header, rows, alignments, properties),
        NodeV::Group { name, children } => "<div class=\"group\" data-name=\""@ + escaped(name) + "\">"@
            + html_nodes(children, 0, children.len() as int) + "</div>"@,
        NodeV::FootnoteReference { label, identifier } => {
            let id = match identifier { Some(i) => i, None => label };
            "<sup class=\"footnote-ref\"><a href=\"#fn-"@ + escaped(id) + "\" id=\"fnref-"@ + escaped(id) + "\">"@
                + escaped(label) + "</a></sup>"@
        },
        NodeV::FootnoteDefinition { label, content } => "<div class=\"footnote\" id=\"fn-"@ + escaped(label) + "\">\n<p>"@
            + escaped(label) + ": "@ + html_nodes(content, 0, content.len() as int) + "</p>\n</div>"@,
        NodeV::DefinitionList { items } => "<dl>"@ + html_defs(items, items.len() as int) + "</dl>"@,
        NodeV::MathBlock { math } => "<div class=\"math-block\">$"@ + escaped(math) + "$</div>"@,
        NodeV::TempListItem(_) => Seq::empty(),
        NodeV::TempTableCell(_) => Seq::empty(),
    }
}

/// The nodes from `lo` up to `k`, one after another.
pub open spec fn html_nodes(nodes: Seq<NodeV>, lo: int, k: int) -> Seq<char>
    decreases nodes, k,
{
    if k <= lo || k > nodes.len() || lo < 0 { Seq::empty() } else { html_nodes(nodes, lo, k - 1) + html_node(nodes[k - 1]) }
}

/// The first `k` items of a list.
pub open spec fn html_items(items: Seq<ListItemV>, k: int) -> Seq<char>
    decreases items, k,
{
    if k <= 0 || k > items.len() { Seq::empty() } else { html_items(items, k - 1) + html_item(items[k - 1]) }
}

/// A list item: a leading paragraph takes the checkbox inside it.
pub open spec fn html_item(li: ListItemV) -> Seq<char>
    decreases li, 0int,
{
    "<li>"@ + html_item_body(li.checked, li.children) + "</li>"@
}

pub open spec fn html_item_body(checked: Option<bool>, children: Seq<NodeV>) -> Seq<char>
    decreases children, children.len() + 1,
{
    if children.len() > 0 {
        if children[0] is Paragraph {
            "<p>"@ + html_checkbox(checked) + html_inlines(children[0]->Paragraph_children) + "</p>"@
                + html_nodes(children, 1, children.len() as int)
        } else {
            html_checkbox(checked) + html_nodes(children, 0, children.len() as int)
        }
    } else {
        html_checkbox(checked)
    }
}

/// The descriptions of a term.
pub open spec fn html_descs(descs: Seq<Seq<NodeV>>, k: int) -> Seq<char>
    decreases descs, k,
{
    if k <= 0 || k > descs.len() {
        Seq::empty()
    } else {
        html_descs(descs, k - 1) + "<dd>"@ + html_nodes(descs[k - 1], 0, descs[k - 1].len() as int) + "</dd>"@
    }
}

/// The first `k` terms of a definition list with their descriptions.
pub open spec fn html_defs(items: Seq<DefinitionItemV>, k: int) -> Seq<char>
    decreases items, k,
{
    if k <= 0 || k > items.len() {
        Seq::empty()
    } else {
        html_defs(items, k - 1) + "<dt>"@ + html_inlines(items[k - 1].term) + "</dt>"@
            + html_descs(items[k - 1].descriptions, items[k - 1].descriptions.len() as int)
    }
}

/// The HTML of a document: its nodes one after another.
pub open spec fn html_document(d: DocumentV) -> Seq<char> {
    html_nodes(d.nodes, 0, d.nodes.len() as int)
}

// ---------------------------------------------------------------------------
// Writing it
// ---------------------------------------------------------------------------

proof fn lemma_html_inlines_push(s: Seq<InlineV>, x: InlineV)
    ensures html_inlines(s.push(x)) == html_inlines(s) + html_inline(x),
{
    assert(s.push(x).drop_last() =~= s);
}

/// `a` followed by `b`, as a new string.
fn cat(a: &str, b: &str) -> (r: String)
    ensures r@ == a@ + b@,
{
    let mut r = a.to_owned();
    r.append(b);
    r
}

/// Appends a text run inside its formatting elements.
fn push_html_text(r: &mut String, text: &str, f: TextFormatting)
    ensures final(r)@ == old(r)@ + html_text(text@, f),
{
    let mut s = html_escape(text);
    if f.bold {
        s = cat(cat("<strong>", s.as_str()).as_str(), "</strong>");
    }
    if f.italic {
        s = cat(cat("<em>", s.as_str()).as_str(), "</em>");
    }
    if f.strikethrough {
        s = cat(cat("<del>", s.as_str()).as_str(), "</del>");
    }
    if f.code {
        s = cat(cat("<code>", s.as_str()).as_str(), "</code>");
    }
    r.append(s.as_str());
}

/// Appends the title attribute of a link or image.
fn push_html_title(r: &mut String, title: &Option<String>)
    ensures final(r)@ == old(r)@ + html_title(opt_str_v(*title)),
{
    match title {
        Some(t) => {
            r.append(" title=\"");
            r.append(html_escape(t.as_str()).as_str());
            r.append("\"");
        },
        None => {
            proof { assert(old(r)@ + Seq::<char>::empty() =~= old(r)@); }
        },
    }
}

/// Appends the text escaped.
fn push_escaped(r: &mut String, t: &str)
    ensures final(r)@ == old(r)@ + escaped(t@),
{
    r.append(html_escape(t).as_str());
}

/// Whether the text starts with `mailto:`.
fn is_mailto(url: &str) -> (b: bool)
    ensures b == starts_with(url@, "mailto:"@),
{
    let p = "mailto:";
    let n = p.unicode_len();
    if url.unicode_len() < n {
        return false;
    }
    let head = url.substring_char(0, n).to_owned();
    proof { assert(url@.subrange(0, n as int) =~= url@.take(n as int)); }
    head == p.to_owned()
}

/// The HTML of an inline node.
pub fn inline_node_to_html(n: &InlineNode) -> (r: String)
    ensures r@ == html_inline(n@),
    decreases n,
{
    let mut r = String::new();
    match n {
        InlineNode::Text(t) => push_html_text(&mut r, t.text.as_str(), t.formatting),
        InlineNode::Link { url, title, children } => {
            r.append("<a href=\"");
            push_escaped(&mut r, url.as_str());
            r.append("\"");
            push_html_title(&mut r, title);
            r.append(">");
            push_html_inlines(&mut r, children);
            r.append("</a>");
        },
        InlineNode::Image { url, alt, title } => {
            r.append("<img src=\"");
            push_escaped(&mut r, url.as_str());
            r.append("\" alt=\"");
            push_escaped(&mut r, alt.as_str());
            r.append("\"");
            push_html_title(&mut r, title);
            r.append(">");
        },
        InlineNode::CodeSpan { code } => {
            r.append("<code>");
            push_escaped(&mut r, code.as_str());
            r.append("</code>");
        },
        InlineNode::AutoLink { url, is_email } => {
            let href = if *is_email && !is_mailto(url.as_str()) { cat("mailto:", url.as_str()) } else { url.clone() };
            r.append("<a href=\"");
            push_escaped(&mut r, href.as_str());
            r.append("\">");
            push_escaped(&mut r, url.as_str());
            r.append("</a>");
        },
        InlineNode::FootnoteRef { label } => {
            r.append("<sup class=\"footnote-ref\"><a href=\"#fn-");
            push_escaped(&mut r, label.as_str());
            r.append("\" id=\"fnref-");
            push_escaped(&mut r, label.as_str());
            r.append("\">");
            push_escaped(&mut r, label.as_str());
            r.append("</a></sup>");
        },
        InlineNode::InlineFootnote { children } => {
            r.append("<sup class=\"footnote-inline\">");
            push_html_inlines(&mut r, children);
            r.append("</sup>");
        },
        InlineNode::Mention { name, mention_type } => {
            if *mention_type == "user".to_owned() {
                r.append("<span class=\"mention mention-user\">@");
            } else if *mention_type == "issue".to_owned() {
                r.append("<span class=\"mention mention-issue\">#");
            } else {
                r.append("<span class=\"mention mention-");
                push_escaped(&mut r, mention_type.as_str());
                r.append("\">");
            }
            push_escaped(&mut r, name.as_str());
            r.append("</span>");
        },
        InlineNode::Math { math } => {
            r.append("<span class=\"math-inline\">$");
            push_escaped(&mut r, math.as_str());
            r.append("$</span>");
        },
        InlineNode::Emoji { shortcode } => {
            r.append("<span class=\"emoji emoji-");
            push_escaped(&mut r, shortcode.as_str());
            r.append("\">");
            push_escaped(&mut r, shortcode.as_str());
            r.append("</span>");
        },
        InlineNode::HardBreak => r.append("<br/>\n"),
        InlineNode::SoftBreak => r.append("<br/>\n"),
    }
    r
}

/// Appends the HTML of a run of inline nodes.
fn push_html_inlines(r: &mut String, v: &Vec<InlineNode>)
    ensures final(r)@ == old(r)@ + html_inlines(inlines_seq_v(v@)),
    decreases v, 0int,
{
    let mut i: usize = 0;
    proof { assert(v@.take(0) =~= Seq::<InlineNode>::empty()); }
    while i < v.len()
        invariant
            i <= v.len(),
            r@ == old(r)@ + html_inlines(inlines_seq_v(v@.take(i as int))),
        decreases v.len() - i,
    {
        proof { vstd::std_specs::vec::axiom_vec_index_decreases(*v, i as int); }
        let s = inline_node_to_html(&v[i]);
        proof {
            assert(v@.take(i + 1) =~= v@.take(i as int).push(v@[i as int]));
            crate::inline::lemma_inlines_push(v@.take(i as int), v@[i as int]);
            lemma_html_inlines_push(inlines_seq_v(v@.take(i as int)), v@[i as int]@);
        }
        r.append(s.as_str());
        i = i + 1;
    }
    proof { assert(v@.take(i as int) =~= v@); }
}

/// The HTML of a run of inline nodes.
pub fn inlines_to_html(v: &Vec<InlineNode>) -> (r: String)
    ensures r@ == html_inlines(inlines_seq_v(v@)),
{
    let mut r = String::new();
    push_html_inlines(&mut r, v);
    r
}

/// Appends a word to a space-separated list of `n` words so far.
fn push_word(r: &mut String, n: &mut usize, w: &str, Ghost(words): Ghost<Seq<Seq<char>>>)
    requires
        old(r)@ == joined(words),
        *old(n) == words.len(),
        *old(n) < usize::MAX,
    ensures
        final(r)@ == joined(words.push(w@)),
        *final(n) == *old(n) + 1,
{
    if *n > 0 {
        r.append(" ");
    }
    r.append(w);
    proof {
        assert(words.push(w@).drop_last() =~= words);
        if words.len() == 0 {
            assert(Seq::<char>::empty() + w@ =~= w@);
        }
    }
    *n = *n + 1;
}

/// The class attribute of a table's classes.
fn table_class_list(p: &TableProperties) -> (r: (String, usize))
    ensures r.0@ == joined(table_classes(p@)), r.1 == table_classes(p@).len(),
{
    let mut r = String::new();
    let mut n: usize = 0;
    let ghost mut words: Seq<Seq<char>> = Seq::empty();
    if p.has_borders {
        push_word(&mut r, &mut n, "bordered", Ghost(words));
        proof { words = words.push("bordered"@); }
    }
    if p.striped_rows {
        push_word(&mut r, &mut n, "striped", Ghost(words));
        proof { words = words.push("striped"@); }
    }
    if p.hoverable {
        push_word(&mut r, &mut n, "hoverable", Ghost(words));
        proof { words = words.push("hoverable"@); }
    }
    match &p.css_class {
        Some(c) => {
            push_word(&mut r, &mut n, c.as_str(), Ghost(words));
            proof { words = words.push(c@); }
        },
        None => {},
    }
    proof { assert(words =~= table_classes(p@)); }
    (r, n)
}

/// Appends the class attribute for the alignment of column `i`.
fn push_align(r: &mut String, alignments: &Vec<TableAlignment>, i: usize)
    ensures final(r)@ == old(r)@ + align_attr(alignments@, i as int),
{
    if i < alignments.len() {
        match alignments[i] {
            TableAlignment::Left => r.append(" class=\"align-left\""),
            TableAlignment::Center => r.append(" class=\"align-center\""),
            TableAlignment::Right => r.append(" class=\"align-right\""),
            TableAlignment::Justify => r.append(" class=\"align-justify\""),
            _ => {
                proof { assert(old(r)@ + Seq::<char>::empty() =~= old(r)@); }
            },
        }
    } else {
        proof { assert(old(r)@ + Seq::<char>::empty() =~= old(r)@); }
    }
}

/// Appends the span attributes of a table cell.
fn push_cell_spans(r: &mut String, c: &TableCell)
    ensures final(r)@ == old(r)@ + cell_spans(c@),
{
    let ghost r0 = r@;
    if c.colspan > 1 {
        r.append(" colspan=\"");
        push_decimal(r, c.colspan as usize);
        r.append("\"");
    }
    let ghost r1 = r@;
    if c.rowspan > 1 {
        r.append(" rowspan=\"");
        push_decimal(r, c.rowspan as usize);
        r.append("\"");
    }
    proof {
        let cv = c@;
        assert(r1 =~= r0 + (if cv.colspan > 1 { " colspan=\""@ + decimal(cv.colspan as nat) + "\""@ } else { Seq::empty() }));
        assert(r@ =~= r0 + cell_spans(cv));
    }
}

/// Appends the colour, class and style attributes of a table cell.
fn push_cell_looks(r: &mut String, c: &TableCell)
    ensures final(r)@ == old(r)@ + cell_looks(c@),
{
    let ghost r0 = r@;
    match &c.background_color {
        Some(bg) => {
            r.append(" style=\"background-color: ");
            r.append(bg.as_str());
            r.append("\"");
        },
        None => {},
    }
    let ghost r1 = r@;
    match &c.css_class {
        Some(x) => {
            r.append(" class=\"");
            r.append(x.as_str());
            r.append("\"");
        },
        None => {},
    }
    let ghost r2 = r@;
    match &c.style {
        Some(st) => {
            if c.background_color.is_some() {
                r.append("; ");
                r.append(st.as_str());
            } else {
                r.append(" style=\"");
                r.append(st.as_str());
                r.append("\"");
            }
        },
        None => {},
    }
    proof {
        let cv = c@;
        assert(r1 =~= r0 + (match cv.background_color { Some(bg) => " style=\"background-color: "@ + bg + "\""@, None => Seq::empty() }));
        assert(r2 =~= r1 + (match cv.css_class { Some(x) => " class=\""@ + x + "\""@, None => Seq::empty() }));
        assert(r@ =~= r0 + cell_looks(cv));
    }
}

/// Appends one table cell.
fn push_cell(r: &mut String, tag: &str, alignments: &Vec<TableAlignment>, i: usize, c: &TableCell)
    ensures final(r)@ == old(r)@ + html_cell(tag@, align_attr(alignments@, i as int), c@),
{
    let ghost r0 = r@;
    r.append("<");
    r.append(tag);
    push_align(r, alignments, i);
    push_cell_spans(r, c);
    push_cell_looks(r, c);
    r.append(">");
    push_html_inlines(r, &c.content);
    r.append("</");
    r.append(tag);
    r.append(">");
    proof {
        assert(r@ =~= r0 + html_cell(tag@, align_attr(alignments@, i as int), c@));
    }
}

/// Appends the caption line at the bottom or the top, when there is one there.
fn push_caption(r: &mut String, p: &TableProperties, bottom: bool)
    ensures final(r)@ == old(r)@ + html_caption(p@, bottom),
{
    match &p.caption {
        Some(c) => {
            if p.caption_at_bottom == bottom {
                r.append("<caption>");
                push_escaped(r, c.as_str());
                r.append("</caption>\n");
            } else {
                proof { assert(old(r)@ + Seq::<char>::empty() =~= old(r)@); }
            }
        },
        None => {
            proof { assert(old(r)@ + Seq::<char>::empty() =~= old(r)@); }
        },
    }
}

/// Appends the opening tag of a table.
fn push_table_open(r: &mut String, p: &TableProperties)
    ensures final(r)@ == old(r)@ + table_open(p@),
{
    let ghost r0 = r@;
    r.append("<table");
    let (classes, n) = table_class_list(p);
    if n > 0 {
        r.append(" class=\"");
        r.append(classes.as_str());
        r.append("\"");
    }
    let ghost r1 = r@;
    match &p.style {
        Some(st) => {
            r.append(" style=\"");
            r.append(st.as_str());
            r.append("\"");
        },
        None => {},
    }
    r.append(">\n");
    proof {
        let pv = p@;
        assert(r1 =~= r0 + "<table"@ + (if table_classes(pv).len() > 0 { " class=\""@ + joined(table_classes(pv)) + "\""@ } else { Seq::empty() }));
        assert(r@ =~= r0 + table_open(pv));
    }
}

/// Appends the header section of a table.
fn push_table_head(r: &mut String, header: &Vec<TableCell>, alignments: &Vec<TableAlignment>, p: &TableProperties)
    ensures final(r)@ == old(r)@ + table_head(cells_seq_v(header@), alignments@, p@),
{
    let ghost h = cells_seq_v(header@);
    proof { lemma_cells_seq_v_index(header@); }
    if header.len() > 0 && p.has_header {
        r.append("<thead>\n<tr>");
        let ghost r4 = r@;
        let mut i: usize = 0;
        while i < header.len()
            invariant
                i <= header.len(),
                h.len() == header.len(),
                forall|j: int| 0 <= j < header.len() ==> #[trigger] h[j] == header@[j]@,
                r@ == r4 + html_header_cells(h, alignments@, i as int),
            decreases header.len() - i,
        {
            push_cell(r, "th", alignments, i, &header[i]);
            i = i + 1;
        }
        r.append("</tr>\n</thead>\n");
    } else {
        proof { assert(old(r)@ + Seq::<char>::empty() =~= old(r)@); }
    }
}

/// Appends the body section of a table.
fn push_table_body(r: &mut String, rows: &Vec<Vec<TableCell>>, alignments: &Vec<TableAlignment>)
    ensures final(r)@ == old(r)@ + table_body(rows_seq_v(rows@), alignments@),
{
    let ghost rs = rows_seq_v(rows@);
    proof { lemma_rows_seq_v_index(rows@); }
    if rows.len() > 0 {
        r.append("<tbody>\n");
        let ghost r6 = r@;
        let mut k: usize = 0;
        while k < rows.len()
            invariant
                k <= rows.len(),
                rs.len() == rows.len(),
                forall|j: int| 0 <= j < rows.len() ==> #[trigger] rs[j] == cells_seq_v(rows@[j]@),
                r@ == r6 + html_rows(rs, alignments@, k as int),
            decreases rows.len() - k,
        {
            let row = &rows[k];
            proof { lemma_cells_seq_v_index(row@); }
            let ghost rv = rs[k as int];
            r.append("<tr>");
            let ghost r7 = r@;
            let mut j: usize = 0;
            while j < row.len()
                invariant
                    j <= row.len(),
                    rv.len() == row.len(),
                    forall|x: int| 0 <= x < row.len() ==> #[trigger] rv[x] == row@[x]@,
                    r@ == r7 + html_row_cells(rv, alignments@, j as int),
                decreases row.len() - j,
            {
                let tag = if row[j].is_header { "th" } else { "td" };
                push_cell(r, tag, alignments, j, &row[j]);
                j = j + 1;
            }
            r.append("</tr>\n");
            k = k + 1;
        }
        r.append("</tbody>\n");
    } else {
        proof { assert(old(r)@ + Seq::<char>::empty() =~= old(r)@); }
    }
}

/// Appends a table.
#[verifier::spinoff_prover]
#[verifier::rlimit(30)]
fn push_html_table(
    r: &mut String,
    header: &Vec<TableCell>,
    rows: &Vec<Vec<TableCell>>,
    alignments: &Vec<TableAlignment>,
    p: &TableProperties,
)
    ensures final(r)@ == old(r)@ + html_table(cells_seq_v(header@), rows_seq_v(rows@), alignments@, p@),
{
    let ghost r0 = r@;
    push_table_open(r, p);
    push_caption(r, p, false);
    push_table_head(r, header, alignments, p);
    push_table_body(r, rows, alignments);
    push_caption(r, p, true);
    r.append("</table>");
    proof {
        assert(r@ =~= r0 + html_table(cells_seq_v(header@), rows_seq_v(rows@), alignments@, p@));
    }
}

/// The HTML of a block node.
pub fn node_to_html(n: &Node) -> (r: String)
    ensures r@ == html_node(n@),
    decreases n, 0int,
{
    let mut r = String::new();
    match n {
        Node::Heading { level, children } => {
            r.append("<h");
            push_decimal(&mut r, *level as usize);
            r.append(">");
            push_html_inlines(&mut r, children);
            r.append("</h");
            push_decimal(&mut r, *level as usize);
            r.append(">");
        },
        Node::Paragraph { children } => {
            r.append("<p>");
            push_html_inlines(&mut r, children);
            r.append("</p>");
        },
        Node::List { list_type, items } => {
            proof { lemma_list_items_seq_v_index(items@); }
            r.append("<");
            match list_type {
                ListType::Ordered => r.append("ol"),
                ListType::Unordered => r.append("ul"),
                ListType::Task => r.append("ul class=\"task-list\""),
            }
            r.append(">");
            push_html_items(&mut r, items);
            r.append("</");
            match list_type {
                ListType::Ordered => r.append("ol"),
                _ => r.append("ul"),
            }
            r.append(">");
        },
        Node::CodeBlock { language, code } => {
            r.append("<pre><code");
            if language.as_str().unicode_len() > 0 {
                r.append(" class=\"language-");
                r.append(language.as_str());
                r.append("\"");
            }
            r.append(" data-copy-button=\"true\">");
            push_escaped(&mut r, code.as_str());
            r.append("</code></pre>");
            proof {
                assert(r@ =~= "<pre><code"@ + (if language@.len() > 0 { " class=\"language-"@ + language@ + "\""@ } else { Seq::empty() })
                    + " data-copy-button=\"true\">"@ + escaped(code@) + "</code></pre>"@);
            }
        },
        Node::BlockQuote { children } => {
            proof { lemma_nodes_seq_v_index(children@); }
            r.append("<blockquote>");
            push_html_nodes(&mut r, children, 0);
            r.append("</blockquote>");
        },
        Node::ThematicBreak => r.append("<hr>"),
        Node::Table { header, rows, alignments, properties } => push_html_table(&mut r, header, rows, alignments, properties),
        Node::Group { name, children } => {
            proof { lemma_nodes_seq_v_index(children@); }
            r.append("<div class=\"group\" data-name=\"");
            push_escaped(&mut r, name.as_str());
            r.append("\">");
            push_html_nodes(&mut r, children, 0);
            r.append("</div>");
        },
        Node::FootnoteReference(f) => {
            let id = match &f.identifier {
                Some(i) => i.as_str(),
                None => f.label.as_str(),
            };
            r.append("<sup class=\"footnote-ref\"><a href=\"#fn-");
            push_escaped(&mut r, id);
            r.append("\" id=\"fnref-");
            push_escaped(&mut r, id);
            r.append("\">");
            push_escaped(&mut r, f.label.as_str());
            r.append("</a></sup>");
        },
        Node::FootnoteDefinition(f) => {
            proof { lemma_nodes_seq_v_index(f.content@); }
            r.append("<div class=\"footnote\" id=\"fn-");
            push_escaped(&mut r, f.label.as_str());
            r.append("\">\n<p>");
            push_escaped(&mut r, f.label.as_str());
            r.append(": ");
            push_html_nodes(&mut r, &f.content, 0);
            r.append("</p>\n</div>");
        },
        Node::DefinitionList { items } => {
            proof { lemma_def_items_seq_v_index(items@); }
            r.append("<dl>");
            push_html_defs(&mut r, items);
            r.append("</dl>");
        },
        Node::MathBlock { math } => {
            r.append("<div class=\"math-block\">$");
            push_escaped(&mut r, math.as_str());
            r.append("$</div>");
        },
        Node::TempListItem(_) => {},
        Node::TempTableCell(_) => {},
    }
    r
}

/// Appends the nodes from `lo` on.
fn push_html_nodes(r: &mut String, nodes: &Vec<Node>, lo: usize)
    requires lo <= nodes.len(),
    ensures final(r)@ == old(r)@ + html_nodes(nodes_seq_v(nodes@), lo as int, nodes.len() as int),
    decreases nodes, 0int,
{
    let ghost cv = nodes_seq_v(nodes@);
    proof { lemma_nodes_seq_v_index(nodes@); }
    let mut i: usize = lo;
    while i < nodes.len()
        invariant
            lo <= i <= nodes.len(),
            cv.len() == nodes.len(),
            forall|j: int| 0 <= j < nodes.len() ==> #[trigger] cv[j] == nodes@[j]@,
            r@ == old(r)@ + html_nodes(cv, lo as int, i as int),
        decreases nodes.len() - i,
    {
        proof { vstd::std_specs::vec::axiom_vec_index_decreases(*nodes, i as int); }
        let child = node_to_html(&nodes[i]);
        r.append(child.as_str());
        i = i + 1;
    }
}

/// Appends the items of a list.
fn push_html_items(r: &mut String, items: &Vec<ListItem>)
    ensures final(r)@ == old(r)@ + html_items(list_items_seq_v(items@), items.len() as int),
    decreases items, 0int,
{
    let ghost iv = list_items_seq_v(items@);
    proof { lemma_list_items_seq_v_index(items@); }
    let mut i: usize = 0;
    while i < items.len()
        invariant
            i <= items.len(),
            iv.len() == items.len(),
            forall|j: int| 0 <= j < items.len() ==> #[trigger] iv[j] == items@[j]@,
            r@ == old(r)@ + html_items(iv, i as int),
        decreases items.len() - i,
    {
        proof { vstd::std_specs::vec::axiom_vec_index_decreases(*items, i as int); }
        push_html_item(r, &items[i]);
        i = i + 1;
    }
}

/// Appends the checkbox of a task item.
fn push_checkbox(r: &mut String, checked: Option<bool>)
    ensures final(r)@ == old(r)@ + html_checkbox(checked),
{
    match checked {
        Some(b) => {
            r.append("<input type=\"checkbox\" ");
            if b {
                r.append(" checked");
            }
            r.append("> ");
            proof {
                assert(r@ =~= old(r)@ + ("<input type=\"checkbox\" "@ + (if b { " checked"@ } else { Seq::empty() }) + "> "@));
            }
        },
        None => {
            proof { assert(old(r)@ + Seq::<char>::empty() =~= old(r)@); }
        },
    }
}

/// Appends one list item.
fn push_html_item(r: &mut String, li: &ListItem)
    ensures final(r)@ == old(r)@ + html_item(li@),
    decreases li, 0int,
{
    r.append("<li>");
    proof { lemma_nodes_seq_v_index(li.children@); }
    push_html_item_body(r, li.checked, &li.children);
    r.append("</li>");
}

fn push_html_item_body(r: &mut String, checked: Option<bool>, children: &Vec<Node>)
    ensures final(r)@ == old(r)@ + html_item_body(checked, nodes_seq_v(children@)),
    decreases children, 1int,
{
    proof { lemma_nodes_seq_v_index(children@); }
    if children.len() > 0 {
        match &children[0] {
            Node::Paragraph { children: c } => {
                r.append("<p>");
                push_checkbox(r, checked);
                push_html_inlines(r, c);
                r.append("</p>");
                push_html_nodes(r, children, 1);
            },
            _ => {
                push_checkbox(r, checked);
                push_html_nodes(r, children, 0);
            },
        }
    } else {
        push_checkbox(r, checked);
    }
}

/// Appends the descriptions of a term.
fn push_html_descs(r: &mut String, descs: &Vec<Vec<Node>>)
    ensures final(r)@ == old(r)@ + html_descs(descs_seq_v(descs@), descs.len() as int),
    decreases descs, 0int,
{
    let ghost dv = descs_seq_v(descs@);
    proof { lemma_descs_seq_v_index(descs@); }
    let mut i: usize = 0;
    while i < descs.len()
        invariant
            i <= descs.len(),
            dv.len() == descs.len(),
            forall|j: int| 0 <= j < descs.len() ==> #[trigger] dv[j] == nodes_seq_v(descs@[j]@),
            r@ == old(r)@ + html_descs(dv, i as int),
        decreases descs.len() - i,
    {
        proof {
            vstd::std_specs::vec::axiom_vec_index_decreases(*descs, i as int);
            lemma_nodes_seq_v_index(descs@[i as int]@);
        }
        r.append("<dd>");
        push_html_nodes(r, &descs[i], 0);
        r.append("</dd>");
        i = i + 1;
    }
}

/// Appends the terms of a definition list with their descriptions.
fn push_html_defs(r: &mut String, items: &Vec<DefinitionItem>)
    ensures final(r)@ == old(r)@ + html_defs(def_items_seq_v(items@), items.len() as int),
    decreases items, 0int,
{
    let ghost iv = def_items_seq_v(items@);
    proof { lemma_def_items_seq_v_index(items@); }
    let mut i: usize = 0;
    while i < items.len()
        invariant
            i <= items.len(),
            iv.len() == items.len(),
            forall|j: int| 0 <= j < items.len() ==> #[trigger] iv[j] == items@[j]@,
            r@ == old(r)@ + html_defs(iv, i as int),
        decreases items.len() - i,
    {
        proof { vstd::std_specs::vec::axiom_vec_index_decreases(*items, i as int); }
        let item = &items[i];
        r.append("<dt>");
        push_html_inlines(r, &item.term);
        r.append("</dt>");
        push_html_item_descs(r, item);
        i = i + 1;
    }
}

fn push_html_item_descs(r: &mut String, item: &DefinitionItem)
    ensures final(r)@ == old(r)@ + html_descs(item@.descriptions, item@.descriptions.len() as int),
    decreases item, 0int,
{
    proof { lemma_descs_seq_v_index(item.descriptions@); }
    push_html_descs(r, &item.descriptions);
}

/// Writes the document as HTML: its nodes one after another.
pub fn to_html(document: &Document) -> (r: String)
    ensures r@ == html_document(document@),
{
    let mut r = String::new();
    proof { lemma_nodes_seq_v_index(document.nodes@); }
    push_html_nodes(&mut r, &document.nodes, 0);
    r
}

/// HTML-escaping leaves none of the characters `<`, `>`, `"` and `'` in
/// the text, so escaped text never opens a tag or ends an attribute.
pub proof fn lemma_escaped_clean(t: Seq<char>)
    ensures
        forall|j: int| 0 <= j < escaped(t).len() ==> {
            let c = #[trigger] escaped(t)[j];
            c != '<' && c != '>' && c != '"' && c != '\''
        },
    decreases t.len(),
{
    reveal_strlit("&amp;");
    reveal_strlit("&lt;");
    reveal_strlit("&gt;");
    reveal_strlit("&quot;");
    reveal_strlit("&#39;");
    if t.len() > 0 {
        lemma_escaped_clean(t.drop_last());
        let a = escaped(t.drop_last());
        let b = escape_char(t.last());
        assert(escaped(t) == a + b);
        assert forall|j: int| 0 <= j < escaped(t).len() implies {
            let c = #[trigger] escaped(t)[j];
            c != '<' && c != '>' && c != '"' && c != '\''
        } by {
            if j >= a.len() {
                assert(escaped(t)[j] == b[j - a.len()]);
            } else {
                assert(escaped(t)[j] == a[j]);
            }
        }
    }
}

/// A code span is rendered as its code, HTML-escaped, between `<code>` and
/// `</code>`: none of the code's `<`, `>`, `"` or `'` reaches the output
/// as such, and each `&` becomes `&amp;`.
pub proof fn law_code_span_html(code: Seq<char>)
    ensures
        html_inline(InlineV::CodeSpan { code }) == "<code>"@ + escaped(code) + "</code>"@,
        forall|j: int| 0 <= j < escaped(code).len() ==> {
            let c = #[trigger] escaped(code)[j];
            c != '<' && c != '>' && c != '"' && c != '\''
        },
        code.len() > 0 && code.last() == '&' ==> escaped(code) == escaped(code.drop_last()) + "&amp;"@,
{
    lemma_escaped_clean(code);
}

/// The opening tags a formatting puts around a text run, outermost first:
/// code, then del, then em, then strong.
pub open spec fn html_open_tags(f: TextFormatting) -> Seq<char> {
    (if f.code { "<code>"@ } else { Seq::empty() }) + (if f.strikethrough { "<del>"@ } else { Seq::empty() })
        + (if f.italic { "<em>"@ } else { Seq::empty() }) + (if f.bold { "<strong>"@ } else { Seq::empty() })
}

/// The closing tags, innermost first: strong, em, del, code.
pub open spec fn html_close_tags(f: TextFormatting) -> Seq<char> {
    (if f.bold { "</strong>"@ } else { Seq::empty() }) + (if f.italic { "</em>"@ } else { Seq::empty() })
        + (if f.strikethrough { "</del>"@ } else { Seq::empty() }) + (if f.code { "</code>"@ } else { Seq::empty() })
}

/// A text run is rendered as its text, HTML-escaped, inside the tags of its
/// formatting, properly nested; a plain run is just the escaped text.
pub proof fn law_text_run_html(text: Seq<char>, f: TextFormatting)
    ensures
        html_inline(InlineV::Text { text, formatting: f }) == html_open_tags(f) + escaped(text) + html_close_tags(f),
        !f.bold && !f.italic && !f.strikethrough && !f.code ==> html_inline(InlineV::Text { text, formatting: f }) == escaped(text),
{
    lemma_html_text_tags(text, f);
    assert(html_inline(InlineV::Text { text, formatting: f }) == html_text(text, f));
    if !f.bold && !f.italic && !f.strikethrough && !f.code {
        let z = Seq::<char>::empty();
        assert(html_open_tags(f) + escaped(text) + html_close_tags(f) =~= escaped(text));
    }
}

proof fn lemma_nest4(oc: Seq<char>, od: Seq<char>, oe: Seq<char>, os: Seq<char>, e: Seq<char>,
    cs: Seq<char>, ce: Seq<char>, cd: Seq<char>, cc: Seq<char>)
    ensures oc + (od + (oe + (os + e + cs) + ce) + cd) + cc == (oc + od + oe + os) + e + (cs + ce + cd + cc),
{
    assert(oc + (od + (oe + (os + e + cs) + ce) + cd) + cc =~= (oc + od + oe + os) + e + (cs + ce + cd + cc));
}

proof fn lemma_wrap_if(b: bool, o: Seq<char>, x: Seq<char>, c: Seq<char>)
    ensures
        (if b { o + x + c } else { x }) == (if b { o } else { Seq::<char>::empty() }) + x
            + (if b { c } else { Seq::<char>::empty() }),
{
    if !b {
        assert(Seq::<char>::empty() + x + Seq::<char>::empty() =~= x);
    }
}

proof fn lemma_html_text_tags(text: Seq<char>, f: TextFormatting)
    ensures html_text(text, f) == html_open_tags(f) + escaped(text) + html_close_tags(f),
{
    let e = escaped(text);
    let a = if f.bold { "<strong>"@ + e + "</strong>"@ } else { e };
    lemma_wrap_if(f.bold, "<strong>"@, e, "</strong>"@);
    let b = if f.italic { "<em>"@ + a + "</em>"@ } else { a };
    lemma_wrap_if(f.italic, "<em>"@, a, "</em>"@);
    let c = if f.strikethrough { "<del>"@ + b + "</del>"@ } else { b };
    lemma_wrap_if(f.strikethrough, "<del>"@, b, "</del>"@);
    lemma_wrap_if(f.code, "<code>"@, c, "</code>"@);
    let z = Seq::<char>::empty();
    lemma_nest4(if f.code { "<code>"@ } else { z }, if f.strikethrough { "<del>"@ } else { z },
        if f.italic { "<em>"@ } else { z }, if f.bold { "<strong>"@ } else { z }, e,
        if f.bold { "</strong>"@ } else { z }, if f.italic { "</em>"@ } else { z },
        if f.strikethrough { "</del>"@ } else { z }, if f.code { "</code>"@ } else { z });
}

/// A heading of level 1 to 9 is rendered as `<hN>`, the HTML of its
/// content and `</hN>`, with N the level's digit; a paragraph as `<p>`,
/// its content and `</p>`; a code block as its code, HTML-escaped, inside
/// `<pre><code ...>` and `</code></pre>`, with the language as a class
/// when there is one.
pub proof fn law_block_html(level: u8, ch: Seq<InlineV>, language: Seq<char>, code: Seq<char>)
    ensures
        1 <= level <= 9 ==> html_node(NodeV::Heading { level, children: ch })
            == "<h"@ + seq![digit_char(level as nat)] + ">"@ + html_inlines(ch) + "</h"@ + seq![digit_char(level as nat)] + ">"@,
        html_node(NodeV::Paragraph { children: ch }) == "<p>"@ + html_inlines(ch) + "</p>"@,
        language.len() == 0 ==> html_node(NodeV::CodeBlock { language, code })
            == "<pre><code data-copy-button=\"true\">"@ + escaped(code) + "</code></pre>"@,
        language.len() > 0 ==> html_node(NodeV::CodeBlock { language, code })
            == "<pre><code class=\"language-"@ + language + "\" data-copy-button=\"true\">"@ + escaped(code) + "</code></pre>"@,
{
    reveal_strlit("<pre><code");
    reveal_strlit(" data-copy-button=\"true\">");
    reveal_strlit("<pre><code data-copy-button=\"true\">");
    reveal_strlit(" class=\"language-");
    reveal_strlit("\"");
    reveal_strlit("<pre><code class=\"language-");
    reveal_strlit("\" data-copy-button=\"true\">");
    assert("<pre><code"@ + Seq::<char>::empty() + " data-copy-button=\"true\">"@ =~= "<pre><code data-copy-button=\"true\">"@);
    assert("<pre><code"@ + (" class=\"language-"@ + language + "\""@) + " data-copy-button=\"true\">"@
        =~= "<pre><code class=\"language-"@ + language + "\" data-copy-button=\"true\">"@);
}

/// A link is rendered as an `a` element: its url, HTML-escaped, as `href`,
/// its title, escaped, as `title` when there is one, its content inside,
/// and a closing `</a>`.
pub proof fn law_link_html(url: Seq<char>, title: Option<Seq<char>>, children: Seq<InlineV>)
    ensures
        html_inline(InlineV::Link { url, title, children }) == "<a href=\""@ + escaped(url) + "\""@
            + (match title { Some(t) => " title=\""@ + escaped(t) + "\""@, None => Seq::<char>::empty() })
            + ">"@ + html_inlines(children) + "</a>"@,
{
}

} // verus!
