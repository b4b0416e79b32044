# Uninvited

A party deduction game: the human and a handful of AI guests chat before a
party that everyone but one impostor was invited to. The guests question each
other in a chain (whoever answers asks next), then vote; the impostor may
instead gamble on guessing the party.

The game's rules are a Verus library whose behaviour is proved against its
contracts:

- `src/game.rs` — the session: dealing seats and roles, the secret-filtered
  snapshot the player sees, guesses and the vote tally.
- `src/orchestrator.rs` — one game as a state machine. Each `step` takes the
  outcome of the last request (a model reply, the human's input, the end of a
  pause) and returns what to publish and what to request next.
- `src/agents.rs` — the prompts the models receive, and reading their replies
  (questions, answers, an impostor's guess, a vote).
- `src/scenarios.rs` — parties, the lenient matching of a guess, and the
  public board of all parties.
- `src/brains.rs` — the catalogue of language models.
- `src/text.rs` — the character- and byte-level string work the rest builds on.
- `src/random.rs` — the random choices, made by the `rand` crate.
- `src/laws.rs` — properties of the deal and the vote, stated and proved.

`app/` is the desktop shell (Tauri commands, the task that runs a game against
the text engine, the bundled deck); `tests/` exercises the library.
