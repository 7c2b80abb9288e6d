# seru

A template language that describes images as trees of boxes, text, images and SVG drawings,
and the verified core of its renderer.

`src/` is the library, proved with Verus:

- `language`: the lexer (`lexer`), the abstract syntax (`ast`) and the Pratt parser (`parser`),
  each specified by a grammar written as spec functions; text helpers (`text`) and spans (`utils`).
- `runtime`: argument checking, indexing, nested scopes and tables of named values (`env`),
  and the reading of colors (`utils`). Named values are kept in `NameTable`, a vector of
  (name, value) pairs whose names are distinct, rather than in a `HashMap<String, _>`: Verus's
  specification of `HashMap` proves little for `String` keys, while the vector's view as a map is
  proved exactly. Nested scopes are a stack of such tables rather than a chain of shared,
  mutable parent scopes (`Rc<RefCell<_>>`), which Verus cannot follow; since a child scope only
  lives while its body is rendered, the stack gives the same lookups.
- `render`: style values and the presets of the box components (`styles`), component arguments
  (`args`) and the registry of native components (`registry`).
- `assets`: what loading an asset asks for (a URL or a file under the asset root), with path
  normalization.
- `values`, `font`, `wasm`: plain data shared with the renderer.

`app/` is the renderer around the library: the evaluator of templates (whose numbers are
floats), layout with taffy, drawing with skia, fonts, and asset I/O.
