# revision

The verified core of the Revision workstation, written in Verus, and the
ordinary Rust that runs it on a platform.

## Layout

- `src/` — the library, every function verified:
  - `store/` — the command journal's rules only: what undo and redo act on
    next, how many gestures each could reach, what replaying an entry
    applies, whether a database's schema version can be opened; the clock
    journal rows carry. The store's command layer — executing commands and
    their inverses, the model queries, seeding a new project, the `Project`
    handle and gestures, fixtures and throwaway projects — is built on the
    `rev_core` model crate and is not part of this crate, in `src/` or
    `app/`.
  - `ui_mech/` — input routing (implicit capture, wheel on hover, activation
    is not focus, keys and composed text as two channels), window identity,
    the three-pass box blur for shadow masks, source-over compositing, the
    copy of a frame into a window's back buffer, shadow statistics and the
    colour vocabulary.
  - `ui_kit/` — widget identity, the counter's field-by-field editing
    (typing, committing, clamping, stepping, dragging), what a release
    reports, menu choice, the pane's axes and parts, the skin's roles and
    hover lift.
  - `testkit/` — whether a render matches its golden master.
  - `numeral.rs` — integers as decimal text and back.
- `tests/` — tests of the library, run against the compiled crate.
- `app/` — the platform side around the library: SQLite I/O for the
  journal (reading entries, appending markers, reading payloads as JSON),
  the winit/softbuffer window loop, tiny-skia painting, cosmic-text shaping,
  the widget kit's floating-point layout and drawing, and test support that
  touches the file system or analyses audio.

## Laws proved

Among them:

- an undo marker makes its gesture the next redo; a new command closes the
  redo stack and redo never reaches past it; undo then redo of a gesture is
  neutral;
- a press binds its target until release; pointer input never moves focus;
  hover leaves before it enters; the wheel ignores focus; keys follow focus
  and control characters are never text; window ids are never reused;
- the blur leaves a uniform field unchanged, is the identity at radius zero,
  never spreads further than its reach and keeps a shape's core solid;
- compositing never produces an invalid premultiplied pixel, changes nothing
  at zero coverage and replaces at full coverage;
- typed counter input is digits within the field's width; a committed value
  always lies in the field's range; a field reads back as the value it shows,
  and retyping it changes nothing; parsing reads back any integer's decimal
  text; the cursor is offered only over what can be operated; after a press,
  only the pressed widget may keep a field highlight, and a press shows only
  while the pointer is over it;
- shadow statistics never count more distinct geometries than shadows.
