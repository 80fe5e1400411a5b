# scaffold

The verified core of an adaptive learning service: learners follow courses
made of concepts and content items; each concept's memory state is updated by
FSRS reviews, and content is chosen by how well it fits what the learner
already knows ("N+1").

## Layout

- `src/` — the library, verified with Verus.
  - `models.rs`: profiles, courses, concepts, content items, freshness and
    event records, with their views and the course/item kind labels.
  - `fsrs.rs`: ratings and the integer part of a memory state's update.
  - `repo.rs`: the in-memory repository, modelled as maps and ordered
    listings; `keyed.rs` holds the lemmas about keyed sequences it rests on.
  - `seed.rs`: stable name-based identifiers, the seed records and the
    grouping of concepts by course in curriculum order.
  - `handlers.rs`: request bodies, error statuses and the activity tally.
  - `nplus1.rs`, `config.rs`, `text.rs`, `time.rs`, `ids.rs`, `services/`:
    candidates, settings, text comparison, dates, identifiers and the
    deterministic service doubles.
  - `laws.rs`: properties that span several operations.
- `tests/` — tests run against the compiled library.
- `app/` — the HTTP server, PostgreSQL store, HTTP clients, floating-point
  scheduling and ranking, built around the library.
