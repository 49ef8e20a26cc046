# Cleromancy

Cleromancy keeps context-qualified readings: a disclosed context, an explicit
candidate field, a sealed result and a receipt that separates context,
qualification, selection and interpretation. This crate is its library, written
in Verus: every function in `src/` carries a contract that Verus proves, except
the few small trusted wrappers around BLAKE3 and the standard library's Unicode
case mappings, whose contracts are stated from those libraries' documentation.

## Layout

- `src/text.rs`, `src/order.rs`, `src/digest.rs`: character-level text
  operations with the semantics of the standard library, lexicographic order with
  sorted sets and maps of text, and the canonical JSON text whose BLAKE3 digest
  identifies every content-addressed value.
- `src/context.rs`, `src/reading.rs`, `src/session.rs`: contexts, candidate
  fields, receipts, derived (replayable) draws and receipt equality.
- `src/spread.rs`: the three-card frame, authored spread templates and their
  attachment to saved sessions.
- `src/binding.rs`: the checks a spread passes before it is stored beside its
  session and sealed results.
- `src/cards.rs`: the portable card each projected record shows: its labelled
  values, title and badges.
- `src/enrichment.rs`: lexical terms, sealing of mounted portable cards, and the
  verification and correlation of sealed evidence.
- `src/consultation.rs`: the line-oriented product forms (layouts, manual
  contexts, calculation inputs, manual charts) and the comparison of two saved
  sessions.
- `src/summary.rs`, `src/journal.rs`: journal rows, filtering and paging.
- `src/intents.rs`, `src/admission.rs`: outward intent payloads and the
  decisions made before an intent is acted on.
- `src/sky.rs`: civil days, observers, numerical policies, authored sky rule
  packs and the reading of a day's facts under a pack.
- `src/sync.rs`: device-local consent for personal graph sync.
- `src/sync_plan.rs`: what a sync export or import carries: the selected
  records of a graph, identity-checked, each with its dependencies.
- `src/scene.rs`, `src/fixtures.rs`: position wording and the stable fixtures.
- `app/main.rs`: the command line that shows and sets sync consent, reading and
  writing the settings file.
- `tests/`: executable tests, including digests checked against an independent
  BLAKE3 computation.

Laws that relate several functions are public proof functions named `law_*`.
