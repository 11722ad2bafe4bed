# fast_h2m

An HTML-to-Markdown converter whose building blocks are verified with Verus.

- `src/` is the verified library:
  - `fast_dom`: the lean converter. `render_document` states, as a spec
    function, the Markdown written for a parsed document; `convert` and
    `convert_document` are proved to produce it.
  - `html`: parsing with `tl`, read into a plain `Document` arena (`document`).
  - `dom_context`: parent/child/sibling relations of a document, sibling
    queries and node texts with a bounded least-recently-used cache
    (`text_cache`).
  - `tags`: tag-name normalization and interning; `state`: visitor node contexts.
  - `markdown`, `text`, `chars`: buffer operations, character references,
    Markdown escaping, whitespace and line handling.
  - `scan`: byte scans; `mdream_adapter`: the converter backed by `mdream`.
- `app/` holds the Python bindings (pyo3) and the serde forms of the options.
- `tests/` exercises the library, including the laws on concrete values.
