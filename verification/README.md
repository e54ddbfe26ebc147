# Titan

Titan is a small Rust game engine built around an explicit, deterministic
entity-component-system, with two sample games: a platformer whose levels are
plain-text documents, and a factory game on a 12 by 8 grid. The library is
verified with Verus: its functions carry `requires`/`ensures` contracts,
and the properties that span several functions are stated as `law_*` proof
functions.

## Layout

- `src/` is the verified library.
  - `ecs/` entities with generational handles, sparse-set component storage,
    resources, deferred commands, and the access rules of systems.
  - `app.rs` an application: a world, labelled schedules run in
    registration order, an execution policy, a fixed clock that only the
    application advances, and extracted snapshots.
  - `time.rs`, `input.rs`, `replay.rs` fixed time steps, sampled input edges,
    and bounded recordings with their replay checks.
  - `ui.rs` UI nodes, paint order, hit testing, focus and button activation.
  - `render/` images, the software sprite renderer, PNG decoding limits, mesh
    storage and 3D frame assembly.
  - `inspection.rs`, `inspection/` capture limits, and an inspector that
    answers typed requests about an application: capabilities, status,
    paged entity queries, stepping a controlled clock.
  - `cli.rs` the command-line grammar.
  - `text.rs` the text primitives the level format is written in.
  - `platformer/` the level format, parsed and written, and the outcomes of
    loading and saving level files.
  - `factory/` construction, transport, production, explanations, the
    bounded command log, the heads-up display and inspection panel, and the
    scene the game draws.
- `app/` the `titan` command and the host code around the library: file
  and process I/O, JSON, and floating-point math.
- `tests/` tests of the library, run against the compiled crate.

## Building

`cargo build` builds the library and the command; `cargo test` runs the tests.
Verification runs Verus on `src/lib.rs`.
