# Warroom Scribe

A Discord bot that records the voice channel of a war room, transcribes it locally with
Whisper and posts what was said to a Slack thread, in batches while the meeting goes on and
as a transcript or a summary at its end.

- `src/` is the library: whose audio is whose, when batches are closed, what is kept of what
  the recognizer heard, how transcripts are laid out and split into messages, what the slash
  commands decide, and which recordings go on. All of it is verified with Verus.
  `session_laws.rs` holds what is true of every recording.
- `app/` is the bot itself: Discord, songbird, Whisper, Slack over HTTP, and the tasks that
  run the state machines of the library.
- `tests/` runs the library.

Times are kept in whole milliseconds, instants in nanoseconds of the Unix clock. Local times
are those of Montreal.
