# meteorite

Layout, docking, theming and UI-state logic for a desktop-style component
toolkit, written in Verus: the functions under `src/` carry contracts that the
verifier proves, except three small trusted wrappers around outside calls
(`NodeId::new` over `uuid`, the clock read over `chrono`, and `String::push`),
whose contracts are taken on trust.

Layout

- `src/` – the verified library
  - `node`, `layout_node`, `tree`, `builder`, `operations`, `presets`:
    the split/zone layout tree, its builder, undoable operations and presets
  - `dock`, `integration`, `migration`, `dock_presets`: the named-zone docking
    model, its conversion to layout trees, migration helpers and the preset
    registry
  - `cache`, `predictor`: tier budgets, eviction planning and access prediction
  - `markdown`, `style`, `ui`, `text`, `assoc`: markdown parsing, theme tokens
    and CSS variables, small UI state machines, string and association-list
    helpers
- `tests/` – executable tests of the library
- `app/` – the unverified shell: Dioxus components, serde/JSON forms, timing
  and floating-point geometry, and error types with `thiserror`
