# QuietWrite

A small, private writing desk: ordinary notes are Markdown files, and the notes of
one shelf are encrypted.

- `src/` is the library. It decides everything that can be decided without a file,
  a screen or a network: what each key does, how text is edited, wrapped, searched
  and outlined, how notes are sorted onto shelves, named, kept as versions and
  encrypted, what every screen shows, and how the note library answers a browser.
  Every function there states what it does, and Verus proves it.
- `src/laws.rs`, and the functions whose names begin with `law_` elsewhere, state
  what holds of several functions together.
- `app/` is the program around it: files, terminal, screen, network.
- `tests/` runs the library.

Calls into other crates stand behind small functions with stated contracts: Argon2
and XChaCha20-Poly1305 in `src/vault.rs`, Markdown to HTML in `src/book.rs`, the
clock in `src/status.rs`, the terminal layout in `src/tui.rs`, and Unicode case and
UTF-8 in `src/text.rs`.
