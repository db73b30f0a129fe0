# sparkplayer

The logic of a terminal music and video player, written in Verus. Every
function in `src/` carries a contract; Verus proves all of them except
three small wrappers around std calls whose contracts are trusted:
`push_char` (`String::push`), `to_lowercase_chars` (`char::to_lowercase`)
and `from_utf8_lossy` (`String::from_utf8_lossy`). Their doc comments say
what is assumed of each.

## Layout

- `src/library.rs` — path names and extensions, M3U/PLS playlists, startup
  paths, directory-scan ordering.
- `src/config.rs` — the settings file: parsing, writing, the session snapshot.
- `src/decimal.rs` — numbers in the settings text (sign, point, exponent)
  read as thousandths, and written back as the shortest decimal.
- `src/session.rs` — playlist and browser cursors, filter, queueing, removing
  and moving tracks, repeat and shuffle.
- `src/player.rs` — track advance, shuffle, subtitle and audio track
  stepping, display modes, startup plan and other single decisions.
- `src/keys.rs`, `src/mouse.rs`, `src/menu.rs`, `src/input.rs`,
  `src/search.rs` — key and mouse dispatch, the escape menu, text entry, the
  library search overlay.
- `src/stats.rs` — favorites, recently played, play counts and search results.
- `src/subtitles.rs` — SRT/VTT/ASS parsing and cue lookup.
- `src/ui.rs`, `src/text.rs` — text layout helpers and character-level
  string operations.
- `src/audio_tap.rs`, `src/shared_audio.rs` — the sample ring the
  visualizers read and the shared-memory bridge's encoding decisions.
- `src/native.rs`, `src/web.rs`, `src/window.rs` — decisions of the terminal,
  browser and video-window front ends.
- `app/main.rs` — the command line: arguments, settings file and filesystem
  around the library.
