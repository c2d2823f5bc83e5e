# rustdoc_markdown

Renders the documentation of a Rust crate, as rustdoc describes it, into one
Markdown document, meant as context for language models.

## Layout

- `src/` — the library, verified with Verus:
  - `model` — the crate description (items, paths, generics) and its invariant;
  - `graph`, `deps` — the item dependency graph and how an item's dependencies
    are found;
  - `select`, `text` — which items are documented, given user paths;
  - `format`, `decl`, `impls`, `traits`, `equal` — the text of types, generics,
    declarations, code blocks and trait implementations;
  - `printer` — the document: sections, numbering, common traits, and which
    items end up printed;
  - `markdown` — heading adjustment of READMEs (through `pulldown-cmark`);
  - `versions`, `cli`, `order`, `dump` — version choice, argument parsing,
    stable sorting, and a text dump of the graph.
- `tests/` — tests on concrete crates and values.
- `app/` — the command line program: downloading crates, running rustdoc,
  reading files, and converting rustdoc's JSON into the library's model.
