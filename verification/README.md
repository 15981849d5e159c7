# lightshow

The logic of a light show editor, written in Verus: an append-only log of edits from
which every version of a show is folded, the timeline's editing, the tables of its
server, upload and export, sign-in, and the import of packed shows. `app/` is the
editor around it: a Bevy stage with egui panels.

## Layout

- `rows`, `store`, `projects`, `songs`, `seeding`, `fork` — the tables and the calls
  that change them; `laws` says what holds across calls.
- `logic`, `session`, `editing`, `beats`, `labels` — folding the log, the open
  session, and editing the rows of lights.
- `state`, `regions`, `region_laws`, `grid`, `clipboard` — selections, regions and the
  pointer on the timeline.
- `fixtures`, `fixture_text`, `stage_rows`, `scene`, `cookies`, `upload` — lasers,
  turrets and the projector, and what the stage shows.
- `audio`, `chunking` — the upload of a song, its chunks, and the sound's clock.
- `json`, `patterns`, `projector_patterns`, `export`, `instructions`, `archive`,
  `package`, `seeder` — documents, pattern libraries, packing a show, and reading one;
  `package_laws` and `round_trip` say that what was packed reads back.
- `encoding`, `auth`, `conn` — signing in, and the connection.
- `text` — texts and numbers.

Calls into other crates stand in `json` (serde_json), `archive` (zip) and `encoding`
(base64, sha2, getrandom); each says in its comment what is taken for granted of them.

Floating-point numbers do not enter the library. Tempos and frame rates are passed as
their bits, and what a tempo makes of a time is the caller's.

## The editor

In the browser the user signs in. On a desktop the editor takes a directory of packed
shows and serves them from its own process:

    lightshow shows/

It reads `assets/patterns.json`, `assets/dmx-projector.json` and
`assets/scenes/fixtures.glb`. Showing the stage needs Bevy's rendering and glTF
features on top of those named in `Cargo.toml`.
