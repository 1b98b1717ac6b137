# otty_surface

A verified model of the state behind a terminal surface and its widget.

- `src/` is the library, checked by Verus:
  - `grid`, `cell`, `color`, `escape`, `index`, `mode`, `state`: grid storage
    with scrollback, reflow and scrolling; cell attributes and flags; palette
    overrides; damage bookkeeping; terminal modes.
  - `block`: shell-integration blocks — identifiers, metadata patches, the
    lifecycle reducer and its laws, captured text sections, memory metrics.
  - `block_text`, `snapshot`, `hyperlink`, `search`, `surface`: block text
    from snapshot cells, owned snapshots, explicit and detected hyperlink
    spans, regex search automata, tab stops, configuration, version
    numbers, and a surface with a cursor that prints characters (wrapping,
    wide characters, insert mode, scrolling into history), moves its cursor,
    takes graphic rendition attributes, public modes, colors and cursor
    styles, searches its cells (delimiters, brackets, wrapped lines), reads
    its lines back as text and captures owned snapshots.
  - `ui`: widget logic — theme colors and palette resolution, key bindings,
    IME range conversion, backend launch options, policies, pointer
    decisions and errors.
- `tests/` exercises the library with concrete values.
- `app/` holds what works on floating-point pixel values (appearance,
  behavior, geometry, scrolling) and the error types that implement
  `std::error::Error`.
