# xx_macros

Helpers for procedural macros built on `syn`, and the `strings` attribute,
which gives a field-less enum `as_str`, `FromStr` and optionally `Display`.

The library (`src/`) is verified with Verus:

- `options` reads the option list of `#[strings(...)]`.
- `strings` decides, for each variant, which attributes it keeps and which
  strings it gets, or which check fails first; its laws state that no string
  names two variants, that `from_str` gives back the variant of any of its
  strings, and when `as_str` is total.
- `strings_input` reads the attribute's arguments and the annotated enum
  from their tokens with `syn` and plans the enum's strings.
- `attribute`, `expr` and `generics` hold the model of the `syn` values the
  logic reads, the reading of attributes and generic parameters into it, and
  the operations on them.
- `case` calls `convert_case`; `fallible` and `visit_macro` drive `syn`
  and `proc_macro2` values through trusted wrappers.  Where what `syn`
  prints carries the spans of the current thread or macro call, the
  wrappers state a relation between their arguments and their result rather
  than a function of the arguments.

`app/` implements the extension traits on `syn` types, holds the
macro-declaring macros, and places the errors and writes the tokens of the
`strings` attribute.
