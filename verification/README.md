# rjw_ui

The decision logic of an immediate-mode UI toolkit, written in Verus with
contracts that the verifier proves.

The toolkit records widgets every frame and keeps their interaction state by
id across frames. The parts of it that decide something without floating
point are in `src/` and are verified:

- `chars`: UTF-8 widths of character sequences, white-space trimming, and the
  few `String` primitives the editing code builds on.
- `edit`: line/column arithmetic, caret movement, selections, insertion and
  deletion, character/byte offsets, visual rows, text-area navigation, input
  method composition, and the selection highlight spans.
- `id`: relative and absolute ids, and the id stack that namespaces them.
- `hit`: press/release/click state machines, slider drags, keyboard activation,
  and pointer selection in text fields.
- `focus`: the focus chain, Tab / arrow / Escape navigation, and chain ordering.
- `ui`: window z-order and press arbitration, the pointer cursor, drop-down
  lists, the position chain of windows and panels, and the end-of-frame step.
- `draw`: the order in which the frame's draw commands are sorted (window, depth,
  element, group, sequence) and its vertex groups submitted (window, element,
  group, texture).
- `state`: state views, forgetting a widget, and the text layout cache's eviction.
- `widget`: widget ids and responses.
- `builtin`: what a number input accepts and its select-all; the font dialog's
  decisions.

Each module states its laws (public `law_*` proof functions) next to the
functions they are about.

`app/` holds what stays outside the verified library: floating-point geometry,
text measurement and number formatting, and the glue to the windowing system.
`tests/` runs the library on concrete values.
