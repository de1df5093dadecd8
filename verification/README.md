# music_management

A Discord bot that lists the albums of the user's weekly ListenBrainz
exploration playlist, looks up their download state in Headphones, queues them
there, and searches MusicBrainz.

- `src/` is the verified library (Verus): a model of JSON answers (`json`),
  text operations (`text`), albums and their order (`album`), what is read from
  and sent to ListenBrainz (`listenbrainz`), MusicBrainz (`musicbrainz`) and
  Headphones (`headphones`), and the bot's replies (`replies`).
- `app/` is the bot itself: HTTP requests (reqwest), JSON parsing (serde_json),
  the Discord commands (poise) and the environment.
- `tests/` runs the library on concrete answers.
