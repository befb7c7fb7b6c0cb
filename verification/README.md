# widget_kit

The logic of a Turkish desktop widget kit for iced, verified with Verus.

- `src/` is the verified library: calendar dates and the date picker's
  navigation, notification stacks, their clocks and what a click on them
  sends, the drop-down panel's answers, the inspector's state, tag (chip)
  entry,
  colour codes, the tree view's rows and drop targets, the timeline's
  calendar lines and labels, how a typed number expression is split and
  parsed into a tree, the radial menu's answers to the pointer and keys,
  and the small enums the widgets share. Every public function
  states its result in `ensures`; the properties that span several calls
  stand as `law_*` proof functions.
- `tests/` runs the library on concrete values.
- `app/` is ordinary Rust around the library: conversions to and from
  iced's colours, pixels and clock times, and the parts that compute in
  floating point (axis steps, playback, the value of an expression tree).
  The widgets' iced drawing and layout code is not part of this crate.
