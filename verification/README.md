# PawDesk core

The logic of PawDesk, a desktop pet that idles on the desktop, watches the
cursor, hides at screen edges and reminds its owner to take a break, as a
Verus-verified library.

## Layout

- `src/` — the verified library (`pawdesk`):
  - `state` — pet states, preemption priority, legal transitions;
  - `scheduler`, `clock`, `messages` — the break reminder: cycle timing,
    pause and catch-up after a restart, message picking;
  - `idle` — one-shot idle actions on a cooldown;
  - `config`, `error` — configuration rules and debounced saving, errors;
  - `platform`, `yawn` — window placement on the work area, edge detection,
    the yawn bubble's layout;
  - `canvas`, `shapes`, `line`, `tile`, `letterbox`, `text` — RGBA
    compositing and drawing;
  - `card`, `card_fit` — the reminder card: keying out the paper
    background, cropping, fitting and the feed hint;
  - `look`, `sprite` — look-pose frames locked to the master silhouette,
    sprite sheets;
  - `event` — input event kinds.
- `tests/` — tests of the library.
- `app/` — a terminal shell around the library: the config file, the clock,
  asset loading, and the pet's floating-point motion rules.
