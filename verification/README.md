# di_macro

The logic of two derives for compile-time dependency injection, verified
with Verus.

`#[derive(FieldEnumerator)]` groups the named fields of a struct by the tags
of their `#[tag(..)]` attributes and generates, per tag, a macro
`enumerate_tags_<Struct>_<tag>!` that takes the name of a callback macro and
invokes it once per tagged field: `$macro_callback!(Struct, field, tag);`.
`#[derive(ContextExtension)]` is a marker and generates nothing.

Layout of `src/`:

- `model.rs`: the plain-value model of a derive input (attributes, fields,
  item) and its mathematical views.
- `collect.rs`: grouping fields by tag, its specification and laws.
- `render.rs`: the generated macros as source text.
- `error.rs`: the refusals and their messages.
- `syntax.rs`: parsing the item's text with `syn` and converting its tree
  (the item's outline, then each named field) into the model.
- `derive.rs`: the two derives.

`app/` holds the token-stream entry points that a `proc-macro` crate
registers as the derives.
