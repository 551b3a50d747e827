use vstd::prelude::*;

verus! {

/// Formatting flags applied to a run of text.
#[derive(Debug, Clone, Copy, PartialEq, Eq, Structural)]
pub struct TextFormatting {
    /// Whether the text is bold
    pub bold: bool,
    /// Whether the text is italic
    pub italic: bool,
    /// Whether the text has strikethrough
    pub strikethrough: bool,
    /// Whether the text is code (monospace)
    pub code: bool,
}

/// A run of text with formatting.
#[derive(Debug, PartialEq, Eq)]
pub struct TextNode {
    /// The text content
    pub text: String,
    /// Formatting applied to the text
    pub formatting: TextFormatting,
}

/// Formatting with no styling at all.
pub open spec fn plain() -> TextFormatting {
    TextFormatting { bold: false, italic: false, strikethrough: false, code: false }
}

impl Default for TextFormatting {
    fn default() -> (r: Self)
        ensures r == plain(),
    {
        TextFormatting { bold: false, italic: false, strikethrough: false, code: false }
    }
}

impl TextFormatting {
    /// Creates a new default formatting (no styling)
    pub fn new() -> (r: Self)
        ensures r == plain(),
    {
        TextFormatting { bold: false, italic: false, strikethrough: false, code: false }
    }

    /// Creates bold formatting
    pub fn bold() -> (r: Self)
        ensures r == (TextFormatting { bold: true, ..plain() }),
    {
        TextFormatting { bold: true, italic: false, strikethrough: false, code: false }
    }

    /// Creates italic formatting
    pub fn italic() -> (r: Self)
        ensures r == (TextFormatting { italic: true, ..plain() }),
    {
        TextFormatting { bold: false, italic: true, strikethrough: false, code: false }
    }

    /// Creates code formatting
    pub fn code() -> (r: Self)
        ensures r == (TextFormatting { code: true, ..plain() }),
    {
        TextFormatting { bold: false, italic: false, strikethrough: false, code: true }
    }

    /// Creates strikethrough formatting
    pub fn strikethrough() -> (r: Self)
        ensures r == (TextFormatting { strikethrough: true, ..plain() }),
    {
        TextFormatting { bold: false, italic: false, strikethrough: true, code: false }
    }

    /// Adds bold to existing formatting
    pub fn with_bold(self) -> (r: Self)
        ensures r == (TextFormatting { bold: true, ..self }),
    {
        let mut f = self;
        f.bold = true;
        f
    }

    /// Adds italic to existing formatting
    pub fn with_italic(self) -> (r: Self)
        ensures r == (TextFormatting { italic: true, ..self }),
    {
        let mut f = self;
        f.italic = true;
        f
    }

    /// Adds code to existing formatting
    pub fn with_code(self) -> (r: Self)
        ensures r == (TextFormatting { code: true, ..self }),
    {
        let mut f = self;
        f.code = true;
        f
    }

    /// Adds strikethrough to existing formatting
    pub fn with_strikethrough(self) -> (r: Self)
        ensures r == (TextFormatting { strikethrough: true, ..self }),
    {
        let mut f = self;
        f.strikethrough = true;
        f
    }
}

impl TextNode {
    /// Creates a new text node with the given text and default formatting
    pub fn new(text: &str) -> (r: Self)
        ensures r.text@ == text@, r.formatting == plain(),
    {
        TextNode { text: text.to_owned(), formatting: TextFormatting::new() }
    }

    /// Creates a new text node with the given text and formatting
    pub fn with_formatting(text: &str, formatting: TextFormatting) -> (r: Self)
        ensures r.text@ == text@, r.formatting == formatting,
    {
        TextNode { text: text.to_owned(), formatting }
    }

    /// Creates a bold text node
    pub fn bold(text: &str) -> (r: Self)
        ensures r.text@ == text@, r.formatting == (TextFormatting { bold: true, ..plain() }),
    {
        TextNode { text: text.to_owned(), formatting: TextFormatting::bold() }
    }

    /// Creates an italic text node
    pub fn italic(text: &str) -> (r: Self)
        ensures r.text@ == text@, r.formatting == (TextFormatting { italic: true, ..plain() }),
    {
        TextNode { text: text.to_owned(), formatting: TextFormatting::italic() }
    }

    /// Creates a code text node
    pub fn code(text: &str) -> (r: Self)
        ensures r.text@ == text@, r.formatting == (TextFormatting { code: true, ..plain() }),
    {
        TextNode { text: text.to_owned(), formatting: TextFormatting::code() }
    }

    /// Creates a strikethrough text node
    pub fn strikethrough(text: &str) -> (r: Self)
        ensures r.text@ == text@, r.formatting == (TextFormatting { strikethrough: true, ..plain() }),
    {
        TextNode { text: text.to_owned(), formatting: TextFormatting::strikethrough() }
    }
}

impl Clone for TextNode {
    fn clone(&self) -> (r: Self)
        ensures r.text@ == self.text@, r.formatting == self.formatting,
    {
        TextNode { text: self.text.clone(), formatting: self.formatting }
    }
}

/// Inline content within a block node.
#[derive(Debug, PartialEq, Eq)]
pub enum InlineNode {
    /// Regular text with optional formatting
    Text(TextNode),
    /// A hyperlink
    Link { url: String, title: Option<String>, children: Vec<InlineNode> },
    /// An inline image
    Image { url: String, alt: String, title: Option<String> },
    /// Inline code span
    CodeSpan { code: String },
    /// Autolink (URL or email that is linked automatically)
    AutoLink { url: String, is_email: bool },
    /// An inline footnote reference
    FootnoteRef { label: String },
    /// An inline footnote with its content in place
    InlineFootnote { children: Vec<InlineNode> },
    /// A mention (like @username)
    Mention { name: String, mention_type: String },
    /// Inline math expression
    Math { math: String },
    /// Emoji shortcode
    Emoji { shortcode: String },
    /// Hard break
    HardBreak,
    /// Soft break
    SoftBreak,
}

/// Mathematical model of an inline node: strings become character sequences.
pub enum InlineV {
    Text { text: Seq<char>, formatting: TextFormatting },
    Link { url: Seq<char>, title: Option<Seq<char>>, children: Seq<InlineV> },
    Image { url: Seq<char>, alt: Seq<char>, title: Option<Seq<char>> },
    CodeSpan { code: Seq<char> },
    AutoLink { url: Seq<char>, is_email: bool },
    FootnoteRef { label: Seq<char> },
    InlineFootnote { children: Seq<InlineV> },
    Mention { name: Seq<char>, mention_type: Seq<char> },
    Math { math: Seq<char> },
    Emoji { shortcode: Seq<char> },
    HardBreak,
    SoftBreak,
}

pub open spec fn opt_str_v(o: Option<String>) -> Option<Seq<char>> {
    match o {
        Some(s) => Some(s@),
        None => None,
    }
}

/// The model of a sequence of inline nodes, element by element.
pub open spec fn inlines_seq_v(s: Seq<InlineNode>) -> Seq<InlineV>
    decreases s, 0int,
{
    if s.len() == 0 {
        Seq::empty()
    } else {
        inlines_seq_v(s.drop_last()).push(inline_v(&s.last()))
    }
}

pub proof fn lemma_inlines_push(s: Seq<InlineNode>, x: InlineNode)
    ensures inlines_seq_v(s.push(x)) == inlines_seq_v(s).push(inline_v(&x)),
{
    assert(s.push(x).drop_last() =~= s);
}

pub proof fn lemma_inlines_seq_v_index(s: Seq<InlineNode>)
    ensures
        inlines_seq_v(s).len() == s.len(),
        forall|i: int| 0 <= i < s.len() ==> #[trigger] inlines_seq_v(s)[i] == inline_v(&s[i]),
    decreases s.len(),
{
    if s.len() > 0 {
        lemma_inlines_seq_v_index(s.drop_last());
        assert forall|i: int| 0 <= i < s.len() implies #[trigger] inlines_seq_v(s)[i] == inline_v(&s[i]) by {
            if i < s.len() - 1 {
                assert(s.drop_last()[i] == s[i]);
            }
        }
    }
}

/// The model after replacing the element at `j`.
pub proof fn lemma_inlines_update(v: Seq<InlineNode>, j: int, x: InlineNode)
    requires 0 <= j < v.len(),
    ensures inlines_seq_v(v.update(j, x)) == inlines_seq_v(v).update(j, inlines_seq_v(seq![x])[0]),
{
    lemma_inlines_seq_v_index(v);
    lemma_inlines_seq_v_index(v.update(j, x));
    lemma_inlines_seq_v_index(seq![x]);
    assert(inlines_seq_v(v.update(j, x)) =~= inlines_seq_v(v).update(j, inlines_seq_v(seq![x])[0]));
}

/// The model after inserting an element at `j`.
pub proof fn lemma_inlines_insert(v: Seq<InlineNode>, j: int, x: InlineNode)
    requires 0 <= j <= v.len(),
    ensures inlines_seq_v(v.insert(j, x)) == inlines_seq_v(v).insert(j, inlines_seq_v(seq![x])[0]),
{
    lemma_inlines_seq_v_index(v);
    lemma_inlines_seq_v_index(v.insert(j, x));
    lemma_inlines_seq_v_index(seq![x]);
    assert(inlines_seq_v(v.insert(j, x)) =~= inlines_seq_v(v).insert(j, inlines_seq_v(seq![x])[0]));
}

/// The model after removing the element at `j`.
pub proof fn lemma_inlines_remove(v: Seq<InlineNode>, j: int)
    requires 0 <= j < v.len(),
    ensures inlines_seq_v(v.remove(j)) == inlines_seq_v(v).remove(j),
{
    lemma_inlines_seq_v_index(v);
    lemma_inlines_seq_v_index(v.remove(j));
    assert(inlines_seq_v(v.remove(j)) =~= inlines_seq_v(v).remove(j));
}

pub proof fn lemma_inlines_single(x: InlineNode)
    ensures inlines_seq_v(seq![x]) == seq![inline_v(&x)],
{
    lemma_inlines_push(Seq::empty(), x);
    assert(Seq::<InlineNode>::empty().push(x) =~= seq![x]);
    assert(Seq::<InlineV>::empty().push(inline_v(&x)) =~= seq![inline_v(&x)]);
}

/// A vector holding exactly one inline node.
pub fn single_inline(c: InlineNode) -> (v: Vec<InlineNode>)
    ensures v@ == seq![c], inlines_v(&v) == seq![c@],
{
    let mut v = Vec::new();
    v.push(c);
    proof {
        assert(v@ =~= seq![c]);
        lemma_inlines_single(c);
    }
    v
}

pub open spec fn inlines_v(v: &Vec<InlineNode>) -> Seq<InlineV> {
    inlines_seq_v(v@)
}

pub open spec fn inline_v(n: &InlineNode) -> InlineV
    decreases n, 1int,
{
    match n {
        InlineNode::Text(t) => InlineV::Text { text: t.text@, formatting: t.formatting },
        InlineNode::Link { url, title, children } => InlineV::Link {
            url: url@,
            title: opt_str_v(*title),
            children: inlines_seq_v(children@),
        },
        InlineNode::Image { url, alt, title } => InlineV::Image {
            url: url@,
            alt: alt@,
            title: opt_str_v(*title),
        },
        InlineNode::CodeSpan { code } => InlineV::CodeSpan { code: code@ },
        InlineNode::AutoLink { url, is_email } => InlineV::AutoLink { url: url@, is_email: *is_email },
        InlineNode::FootnoteRef { label } => InlineV::FootnoteRef { label: label@ },
        InlineNode::InlineFootnote { children } => InlineV::InlineFootnote { children: inlines_seq_v(children@) },
        InlineNode::Mention { name, mention_type } => InlineV::Mention {
            name: name@,
            mention_type: mention_type@,
        },
        InlineNode::Math { math } => InlineV::Math { math: math@ },
        InlineNode::Emoji { shortcode } => InlineV::Emoji { shortcode: shortcode@ },
        InlineNode::HardBreak => InlineV::HardBreak,
        InlineNode::SoftBreak => InlineV::SoftBreak,
    }
}

impl View for InlineNode {
    type V = InlineV;

    open spec fn view(&self) -> InlineV {
        inline_v(self)
    }
}


pub fn copy_inline(n: &InlineNode) -> (r: InlineNode)
    ensures r@ == n@,
    decreases n,
{
    match n {
        InlineNode::Text(t) => InlineNode::Text(TextNode { text: t.text.clone(), formatting: t.formatting }),
        InlineNode::Link { url, title, children } => InlineNode::Link {
            url: url.clone(),
            title: copy_opt_string(title),
            children: copy_inlines(children),
        },
        InlineNode::Image { url, alt, title } => InlineNode::Image {
            url: url.clone(),
            alt: alt.clone(),
            title: copy_opt_string(title),
        },
        InlineNode::CodeSpan { code } => InlineNode::CodeSpan { code: code.clone() },
        InlineNode::AutoLink { url, is_email } => InlineNode::AutoLink { url: url.clone(), is_email: *is_email },
        InlineNode::FootnoteRef { label } => InlineNode::FootnoteRef { label: label.clone() },
        InlineNode::InlineFootnote { children } => InlineNode::InlineFootnote { children: copy_inlines(children) },
        InlineNode::Mention { name, mention_type } => InlineNode::Mention {
            name: name.clone(),
            mention_type: mention_type.clone(),
        },
        InlineNode::Math { math } => InlineNode::Math { math: math.clone() },
        InlineNode::Emoji { shortcode } => InlineNode::Emoji { shortcode: shortcode.clone() },
        InlineNode::HardBreak => InlineNode::HardBreak,
        InlineNode::SoftBreak => InlineNode::SoftBreak,
    }
}

pub fn copy_opt_string(o: &Option<String>) -> (r: Option<String>)
    ensures opt_str_v(r) == opt_str_v(*o),
{
    match o {
        Some(s) => Some(s.clone()),
        None => None,
    }
}

pub fn copy_inlines(v: &Vec<InlineNode>) -> (r: Vec<InlineNode>)
    ensures inlines_v(&r) == inlines_v(v), r.len() == v.len(),
    decreases v, 0int,
{
    let mut r: Vec<InlineNode> = Vec::new();
    let mut i: usize = 0;
    while i < v.len()
        invariant
            i <= v.len(),
            r.len() == i,
            inlines_seq_v(r@) == inlines_seq_v(v@.take(i as int)),
        decreases v.len() - i,
    {
        proof { vstd::std_specs::vec::axiom_vec_index_decreases(*v, i as int); }
        let c = copy_inline(&v[i]);
        let ghost r0 = r@;
        r.push(c);
        proof {
            assert(r@.drop_last() =~= r0);
            assert(v@.take(i + 1).drop_last() =~= v@.take(i as int));
        }
        i = i + 1;
    }
    proof { assert(v@.take(i as int) =~= v@); }
    r
}

impl Clone for InlineNode {
    fn clone(&self) -> (r: Self)
        ensures r@ == self@,
    {
        copy_inline(self)
    }
}


/// The model of a plain (unformatted) text run.
pub open spec fn plain_text_v(t: Seq<char>) -> InlineV {
    InlineV::Text { text: t, formatting: plain() }
}

impl InlineNode {
    /// Creates a plain text node
    pub fn text(text: &str) -> (r: Self)
        ensures r@ == plain_text_v(text@),
    {
        InlineNode::Text(TextNode::new(text))
    }

    /// Creates a bold text node
    pub fn bold_text(text: &str) -> (r: Self)
        ensures r@ == (InlineV::Text { text: text@, formatting: TextFormatting { bold: true, ..plain() } }),
    {
        InlineNode::Text(TextNode::bold(text))
    }

    /// Creates an italic text node
    pub fn italic_text(text: &str) -> (r: Self)
        ensures r@ == (InlineV::Text { text: text@, formatting: TextFormatting { italic: true, ..plain() } }),
    {
        InlineNode::Text(TextNode::italic(text))
    }

    /// Creates a strikethrough text node
    pub fn strikethrough_text(text: &str) -> (r: Self)
        ensures r@ == (InlineV::Text { text: text@, formatting: TextFormatting { strikethrough: true, ..plain() } }),
    {
        InlineNode::Text(TextNode::strikethrough(text))
    }

    /// Creates a code span
    pub fn code_span(code: &str) -> (r: Self)
        ensures r@ == (InlineV::CodeSpan { code: code@ }),
    {
        InlineNode::CodeSpan { code: code.to_owned() }
    }

    /// Creates a link with the given URL and text
    pub fn link(url: &str, text: &str) -> (r: Self)
        ensures r@ == (InlineV::Link { url: url@, title: None, children: seq![plain_text_v(text@)] }),
    {
        let c = InlineNode::text(text);
        let r = InlineNode::Link { url: url.to_owned(), title: None, children: single_inline(c) };
        r
    }

    /// Creates a link with the given URL, title, and text
    pub fn link_with_title(url: &str, title: &str, text: &str) -> (r: Self)
        ensures r@ == (InlineV::Link { url: url@, title: Some(title@), children: seq![plain_text_v(text@)] }),
    {
        let c = InlineNode::text(text);
        let r = InlineNode::Link { url: url.to_owned(), title: Some(title.to_owned()), children: single_inline(c) };
        r
    }

    /// Creates an image with the given URL and alt text
    pub fn image(url: &str, alt: &str) -> (r: Self)
        ensures r@ == (InlineV::Image { url: url@, alt: alt@, title: None }),
    {
        InlineNode::Image { url: url.to_owned(), alt: alt.to_owned(), title: None }
    }

    /// Creates an image with the given URL, alt text, and title
    pub fn image_with_title(url: &str, alt: &str, title: &str) -> (r: Self)
        ensures r@ == (InlineV::Image { url: url@, alt: alt@, title: Some(title@) }),
    {
        InlineNode::Image { url: url.to_owned(), alt: alt.to_owned(), title: Some(title.to_owned()) }
    }

    /// Creates an autolink for a URL
    pub fn autolink_url(url: &str) -> (r: Self)
        ensures r@ == (InlineV::AutoLink { url: url@, is_email: false }),
    {
        InlineNode::AutoLink { url: url.to_owned(), is_email: false }
    }

    /// Creates an autolink for an email address
    pub fn autolink_email(email: &str) -> (r: Self)
        ensures r@ == (InlineV::AutoLink { url: email@, is_email: true }),
    {
        InlineNode::AutoLink { url: email.to_owned(), is_email: true }
    }

    /// Creates a footnote reference
    pub fn footnote_ref(label: &str) -> (r: Self)
        ensures r@ == (InlineV::FootnoteRef { label: label@ }),
    {
        InlineNode::FootnoteRef { label: label.to_owned() }
    }

    /// Creates an inline footnote
    pub fn inline_footnote(content: &str) -> (r: Self)
        ensures r@ == (InlineV::InlineFootnote { children: seq![plain_text_v(content@)] }),
    {
        let c = InlineNode::text(content);
        let r = InlineNode::InlineFootnote { children: single_inline(c) };
        r
    }

    /// Creates a user mention (like @username)
    pub fn user_mention(username: &str) -> (r: Self)
        ensures r@ == (InlineV::Mention { name: username@, mention_type: "user"@ }),
    {
        InlineNode::Mention { name: username.to_owned(), mention_type: "user".to_owned() }
    }

    /// Creates an issue mention (like #123)
    pub fn issue_mention(issue: &str) -> (r: Self)
        ensures r@ == (InlineV::Mention { name: issue@, mention_type: "issue"@ }),
    {
        InlineNode::Mention { name: issue.to_owned(), mention_type: "issue".to_owned() }
    }

    /// Creates an inline math expression
    pub fn math(math: &str) -> (r: Self)
        ensures r@ == (InlineV::Math { math: math@ }),
    {
        InlineNode::Math { math: math.to_owned() }
    }

    /// Creates an emoji from a shortcode
    pub fn emoji(shortcode: &str) -> (r: Self)
        ensures r@ == (InlineV::Emoji { shortcode: shortcode@ }),
    {
        InlineNode::Emoji { shortcode: shortcode.to_owned() }
    }

    /// Creates a hard break
    pub fn hard_break() -> (r: Self)
        ensures r@ == InlineV::HardBreak,
    {
        InlineNode::HardBreak
    }

    /// The text of a text node, if this is one.
    pub fn as_text(&self) -> (r: Option<&str>)
        ensures
            match self@ {
                InlineV::Text { text, .. } => r is Some && r->0@ == text,
                _ => r is None,
            },
    {
        match self {
            InlineNode::Text(t) => Some(t.text.as_str()),
            _ => None,
        }
    }
}

} // verus!
