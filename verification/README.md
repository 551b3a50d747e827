# md_core

Core data structures for a structured markdown editor, verified with Verus:
a document tree of block and inline nodes, selections, editing commands with
undo and redo, transactions, and conversion to markdown and HTML.

Layout:

- `src/` — the verified library. Each public function states its effect in
  `ensures` over a mathematical model of the document (`DocumentV`, `NodeV`,
  `InlineV`). `src/editor/laws.rs` states and proves the laws that span
  functions, such as undo giving back the document that a command changed.
  `src/convert/parser.rs` reads markdown with pulldown-cmark and turns its
  stream of events into a document; `src/convert/from_html.rs` reads HTML
  through mdka and then the markdown parser.
- `app/` — the parts around the library: the conversions between documents
  and `Text`, JSON through serde, and displayable error types.
- `tests/` — tests of the library through its public interface.
