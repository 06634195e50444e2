# aicut

The logic of the AICut desktop video editor as a library verified with Verus,
with the desktop shell around it.

- `src/` is the library. Each module begins with a note on what it covers;
  `text`, `xml`, `attr` and `scan` are the text and XML toolkit the rest is
  built on, and `laws` holds the properties that relate several functions
  (escaping and unescaping, reading an attribute after writing it, the bridge's
  duplicate detection and inbox, the order of the template list, upload chunks,
  and others). Positions in the library are character positions.
- `tests/` runs the library on concrete inputs, the editor's own cases among
  them.
- `app/` is the desktop shell: the Tauri commands, files and directories, the
  network, archives, the composer's dynamic library and the platform menus.
  It hands plain values to the library and acts on what comes back.

Outside calls that the library makes (hashing, JSON text of the bridge's
replies, UTF-8 decoding, local time) go through a few small functions marked
`#[verifier::external_body]`, each with a note on what its contract claims.
File fingerprints are computed with the library's `Sha256Stream`, which the
shell feeds with the file's contents chunk by chunk; its contract ties the
result to the SHA-256 digest of all the bytes fed.
