# batcave

The engine of a Windows desktop shell (live wallpaper dashboard, `Alt+Space` launcher,
notifications replayed on the desktop), written as a verified library plus a thin
program around it.

- `src/` is the library, verified with Verus. It holds the shell's logic: reading the
  messages the web pages post, the scripts sent back to them, the launcher's lists
  (apps, Steam games, notes, bookmarks, history) and how they are ordered, the file
  search over the NTFS change journal, clipboard history, the plugin protocol, the tabs
  bridge, and what the GitHub, Notion and Spotify replies carry. Each public function
  states its result in its `ensures`; the `lemma_*` proof functions state properties
  that span functions or calls (sorting, the journal keeping the index current, a
  pending tab switch being delivered once, clipboard history staying distinct, ...).
- `app/` is the program: windows and web views, Win32 and WinRT calls, the file system,
  processes and HTTP. It hands the library plain values and acts on what comes back.
- `tests/` runs the library on concrete inputs.

Calls into `serde_json`, `base64`, `image` and a few std functions go through
`#[verifier::external_body]` functions in `src/json.rs`, `src/bytes.rs`, `src/icons.rs`,
`src/text.rs` and `src/apps.rs`; Verus takes their contracts on trust. Where a result
takes a few lines to state (base64 text, a JSON string literal, lossy UTF-16 decoding)
the contract spells it out; a JSON parse, a PNG encoding and Unicode lowercasing are
named rather than restated.
