# Romaji Agent

Fast Japanese input from romaji, typo-heavy or unconverted drafts. A draft is normalised and read
as kana, a backend converts and refines it, and where no backend answers the terms of the memory
are replaced deterministically.

- `src/` is the library, verified with Verus: normalisation and kana readings, the fallback
  conversion, the conversation with the app server, the prompts and the reading of model output,
  the arguments of the sidecars and of the command line, and what is recorded of a transform.
  Each module states its rules as spec functions; proof functions named `law_...` state what
  holds across functions.
- `tests/` runs the library on concrete values.
- `app/` is the program around it: processes, files, the database, the clipboard, the desktop
  window and the language models. The name that the program is started under chooses between the
  desktop app, `romaji-agent-cli`, `romaji-agent-lfm-sidecar` and
  `romaji-agent-apple-fm-sidecar`.

What the library takes from other crates stands behind small functions marked
`#[verifier::external_body]`, or behind `assume_specification`; the comment above each says what
is relied upon.
