# rui

The core of an immediate-mode UI toolkit, verified with Verus.

A UI pass walks the widget tree and asks, at each call site, for a piece of
state, a memoized component or a render element. The library reconciles those
requests with what the previous pass left: it reuses what it finds by key,
creates what is missing, and drops what was not visited. Around that core sit
the event routing and layout bookkeeping of elements, commands and menus, the
registry of open windows, the live style registry, and the small parsers of
style values.

Layout:

- `src/` — the verified library.
  - `ui.rs`, `tree.rs`, `key.rs`, `state.rs`: reconciliation of states,
    memoized parameters and render elements; element state, event routing,
    relayout boundaries; state cells and their subscribers.
  - `app_state.rs`, `command.rs`, `menu.rs`, `window.rs`, `id.rs`: commands,
    menus and windows.
  - `live_style.rs`, `style/`: live styles and style value parsers.
  - `widgets/`: the decisions of the button, flex, sized box and scrolling list.
  - `debug_state.rs`, `debug_text.rs`: widget descriptions, the inspector's
    rows and the printed form of a description.
  - `memo_attr.rs`, `object.rs`, `constraints.rs`.
- `tests/` — tests of the library.
- `app/` — the program around it: file watching, process calls, counters,
  timing, and the expansion of the memo attribute.
