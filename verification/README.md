# rushdown_footnote

Footnotes for the [rushdown](https://crates.io/crates/rushdown) Markdown
parser, in the syntax of PHP Markdown Extra:

```markdown
That's some text with a footnote.[^1]

[^1]: And that's the footnote.

    That's the second paragraph.
```

The library in `src/` is written in Verus and holds every decision of the
extension, each with its contract:

- `scan`: finding the `]` that closes a label (`\]` does not).
- `parse`: when a line opens a definition `[^label]:`, how later lines
  continue it, and when `[^label]` in the text is a reference.
- `definitions`: the list of definitions; a reference finds the first
  definition with the same label, footnotes are numbered in the order of
  their first reference, and the footnote list is ordered by first
  reference. The proofs show that the numbering stays consistent under
  every reference and that the list comes out numbered 1, 2, 3, ….
- `html`, `render`: the HTML of references, list items and backlinks, and
  the steps that write the footnote list.
- `options`: the renderer's options and the id prefix.
- `outside`: the three rushdown functions that the library calls
  (`util::is_blank`, `util::indent_position`, `ast::pp_indent`), with the
  contracts that are trusted of them.

`app/` plugs the library into rushdown: node kinds, parser and renderer
traits, context values and the two extension functions
`footnote_parser_extension` and `footnote_html_renderer_extension`.
