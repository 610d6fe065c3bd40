# Review Helper

Review Helper helps a builder plan, question and assess a software project,
and study a subject with generated notes, flashcards, quizzes and a grounded
tutor. Model work is done by a command-line model provider; projects can be
attached to GitHub repositories.

## Layout

- `src/` — the verified library (Verus). It holds the project's logic with
  its contracts and laws: prompt assembly, decoding and validation of model
  replies (from a plain JSON tree), the plan store's rows and the carrying of
  progress from one plan version to the next, document sectioning and
  chunking, the planning documents gathered from a clone and their prompt
  block, the grill's topic selection, the tutor's routing decisions, the
  profile files' region rewrites and the reflection request, GitHub
  reference parsing and reply decoding, the stream-json event reader and
  the step-by-step reader of one CLI run, what a CLI probe or a run without
  a result reports, and the registry of cancellable runs.
- `tests/` — tests of the library.
- `app/` — the program around it: SQLite storage, the model CLI process,
  GitHub over HTTP and the OS keychain, git, files, embeddings and retrieval
  ranking, spaced-repetition scheduling and mastery estimates (floating
  point), and a small command line.
