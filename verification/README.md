# insomni

The library and playback logic of Insomni Player, a small desktop music
player, written in Verus: every function in `src/` carries a contract that
Verus proves.

## Layout

- `src/` — the verified library.
  - `text.rs`: ASCII lower-casing, building strings, the order of strings,
    decimal notation.
  - `labels.rs`: cleaned tag values, shortened labels, initials, section
    letters, audio file extensions.
  - `order.rs`: sort keys and a merge sort of indices by key.
  - `track.rs`: tracks, their shown titles and artists, length labels.
  - `cover.rs`: cover art decoded (by the `image` crate) into premultiplied
    RGBA pixels.
  - `library.rs`: the player state, its invariant, and what each view lists.
  - `groups.rs`, `runs.rs`: artist groups, album groups and the sections of
    a grid, found by sorting.
  - `context.rs`: the context that playback follows and the user's actions
    on the state.
  - `queue.rs`: the play queue, stepping through it in order or shuffled.
  - `style.rs`: the colours of rows and cards.
  - `laws.rs`: properties that span several operations.
- `tests/` — tests of the library on concrete values.
- `app/` — the window, the audio output and the file system, around the
  library (egui, eframe, rodio, rfd, lofty, dirs).

Each operation on the state changes it as its specification says and names
the track to play, if any; `app/` plays it.
