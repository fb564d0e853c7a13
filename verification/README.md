# hashcards

Plain-text spaced-repetition flashcards: decks are Markdown files, cards
are question/answer pairs or cloze deletions, and each card is known by
the hash of its content.

The crate is written in Verus. Its layout:

- `src/` is the verified library: the deck parser, card hashing, media
  path handling (resolution, canonicalization, validation, the loader
  that refuses traversals), the review cache, the due-card counts, the
  decisions of the drill sessions (web and terminal), card selection,
  the browse index and the configuration of the server. Every public
  function states its result in `ensures`; the properties that span
  several calls are public proof functions named `law_*`.
- Calls into `pulldown-cmark`, `percent-encoding`, `chrono`, `toml` and a few
  `std` functions sit behind small trusted wrappers whose doc comments
  say what is assumed of them.
- `app/` is the unverified shell: the SQLite database, the clock, the
  files of a collection, configuration files read with serde and toml,
  git and HedgeDoc syncing (with the periodic HedgeDoc task), and the
  HTTP answers that serve media and font files. It has no server, no
  terminal front end and no page templates.
- `tests/` runs the library on concrete inputs.
