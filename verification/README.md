# kuchikiki

CSS selector matching over an HTML document tree, verified with Verus.

- `src/` is the verified library: the document tree (`dom`), the answers an
  element gives to a selector engine (`element`), attribute selector
  operations and case sensitivity (`attr`), the supported pseudo-classes and
  their parser hooks (`pseudo`), the selector value types and specificity
  (`css`), the text of a selector list (`selector_list`) and byte-level text
  helpers (`bytes`).
- `app/` holds the impls of the `selectors` and `cssparser` traits for copies
  of the library's types, and compiles and matches selectors with the
  `selectors` crate.
- `tests/` exercises the library.
