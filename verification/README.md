# tubesub

TubeSub lets a YouTube creator sign in with Google, list the videos of their
channel and attach `.srt` subtitle files to them. This crate is its verified
core, written in Verus:

- `src/auth.rs`: the OAuth sign-in: the consent URL, the parser of the
  browser's callback request line, the token request form and the token made
  from the token endpoint's reply.
- `src/api.rs`: the YouTube Data API protocol: the state machine that finds
  the channel's uploads playlist, reads it page by page and caches the
  videos, and the caption upload with its `multipart/related` body.
- `src/paths.rs`: the application's directory and files, and the credentials.
- `src/screens.rs`: which page the window opens on.
- `src/subtitle.rs`: which dropped files are taken as subtitles.
- `src/text.rs`: the character-level specifications (words, splitting) and
  their executable counterparts.

`app/` is the GTK/libadwaita desktop program around the library: it sends
the HTTP requests, parses JSON, reads and writes files and draws the window.
