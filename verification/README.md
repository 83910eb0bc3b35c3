# ChordSense

A play-along display for guitarists: a full-screen window plays a song and
shows the chord that sounds, the chords before and after it, and a diagram of
how to play it. Chord timelines come from `.lab` annotation files, one segment
per line (`start end chord`, times in seconds, chords in `root:quality/bass`
notation such as `A:min/b3`).

## Layout

- `src/` — the verified library (Verus):
  - `text` — string operations over `Seq<char>`: search, split, replace,
    trim, whitespace-separated words, join, lines.
  - `chords` — chord roots, transposition, bass degrees, readable labels
    (`A:min/b3` → `Am/C`) and diagram names and keys.
  - `assets` — the map from diagram keys to image files.
  - `timeline` — moments taken by order-preserving ordinals, chord segments,
    the chord that sounds at, before and after a moment, timeline length.
  - `lab` — the `.lab` format: records of non-blank lines and the assembly of
    a timeline from the times read from them.
  - `session` — the player's decisions between frames (start screen, mode
    switch, progress shown, rewind, seek target, repaint).
  - `display` — the chord texts of the play-along screen.
  - `gallery` — paging through the diagrams.
- `app/` — the egui window, audio playback through rodio, reading files,
  and the conversion between seconds (`f64`) and ordinals.
- `tests/` — tests of the library.
