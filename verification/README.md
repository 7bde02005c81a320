# Rustify

A desktop music player with Last.fm scrobbling and Discord Rich Presence.
The player's logic is a Verus library whose functions carry contracts that
Verus proves; the window, audio output, files and network live around it.

## Layout

- `src/` — the verified library (crate `rustify`):
  - `text` — trimming, line splitting, decimal numbers, string order;
  - `settings` — reading and writing `config.toml` and `.env`, with the
    proof that what is written reads back as the same settings;
  - `theme`, `library` — themes, audio files, durations as `h:mm` (tracks)
    and `m:ss` (search results);
  - `cache` — the links between local files and Last.fm tracks;
  - `encoding` — percent-encoding, Base64 and MD5 hex (through the
    `urlencoding`, `base64` and `md5` crates);
  - `scrobbler`, `lastfm`, `matcher`, `recommender` — the Last.fm requests,
    signatures, answers, automatic matching and the choice of the next
    track;
  - `app` — the player as a state machine: `App::update` takes an event
    and gives the new state and the effects to perform, with the laws that
    hold across events;
  - `discord` — what the Discord activity shows;
  - `num` — the `u64` to `i64` conversion of the time arithmetic.
- `tests/` — tests of the library on concrete values.
- `app/` — the program: the `iced` window, `rodio` playback, folder
  scanning with `walkdir` and `lofty`, HTTP with `reqwest`, the Discord
  client, and the files on disk. It performs the effects that the library
  asks for and hands the results back as events.
