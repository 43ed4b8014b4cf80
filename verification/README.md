# decon_recon_server

A verified library and command-line program that generate campaign utterances
for the Decon-Recon game: characters rewrite neutral factoids ("substants")
through chains of modality aspects with the help of a language model.

- `src/` is the library, written and proved with Verus:
  - `models` — campaigns, characters, modality layers and aspects, substants,
    utterances; lookups by id and the modality context line.
  - `campaign` — a character's preferred aspects with their layer levels,
    ordered by level (a stable ordering, proved sorted, a permutation and
    order-preserving within a level); creation of utterances.
  - `chain` — planning of utterance chains: chain length, the aspect of each
    step, all order-preserving picks of aspects that start at the core layer,
    reuse of stored utterances, and
    the state that links each utterance to the one before it, and the step
    function that decides, per command, what each step's outcome does.
  - `prompts` — the prompt that asks the model for a construction.
  - `reply` — reading the model's reply (fence removal, trimming, JSON fields).
  - `llm`, `generator` — service configuration and the decisions around a
    model request; `export` — reading the utterance file (TOML) and the
    exported form of each stored utterance.
  - `text` — character-level string helpers (trim, prefix, suffix, equality).
- `app/` is the program: command line, files, HTTP requests, serde types.
- `tests/` runs the library on concrete campaigns and replies.
