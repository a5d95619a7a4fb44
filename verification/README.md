# dublagem

The decision-making core of a game-dialogue dubbing tool (transcribe a
line, translate it to Brazilian Portuguese, synthesize it in a matching
voice, check what was synthesized), written in Verus: every function in
`src/` carries a contract that the verifier proves, and the properties that
tie functions together are stated and proved as `law_*` proof functions.

- `src/` — the verified library. Text handling (`strings`, `text`, `tags`,
  `units`, `segments`, `plan`), checks of generated speech (`validation`,
  `attempts`), audio bookkeeping (`audio`, `reference`, `layout`), model and
  GPU checks (`models`, `gpu`), translation helpers, project metadata
  checks, preview names and crash reports.
- `tests/` — tests that run the compiled library.
- `app/` — the command-line program around the library: file and network
  I/O, audio decoding and the floating-point signal work, serde records,
  and the job loop that performs what the library decides.

Calls into outside code are few and each sits behind a small trusted item
whose doc comment says what is assumed of it.
