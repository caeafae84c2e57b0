# increparse

Multi-pass **fixpoint parsing** for editors, language servers and compilers,
written and verified in [Verus](https://github.com/verus-lang/verus).

`increparse` is not another parser combinator library. It is the piece
*around* them: an engine that executes **schedules of passes** over a growing
parse tree until the tree settles. A pass can wrap any parsing technique: nom,
chumsky, Lua, or hand-rolled scanning.

- Round `r` applies pass `r` of the schedule to every node that is ready for
  it. The pass expands the region into smaller ones, accepts it, or fails; a
  failed region is retried by the passes that are left, and stays in the tree
  as a leaf if none takes it.
- Children must lie within the region they were parsed from and be on its
  source revision. An outcome that breaks this is refused and reported.
- After an edit only the regions it reaches are parsed again. Children that
  come out as they were keep their identity, their status and everything
  below them.

## Layout

| Where | What |
|-------|------|
| `src/span.rs`, `status.rs`, `outcome.rs`, `job.rs`, `node.rs`, `cancel.rs` | the vocabulary |
| `src/pass.rs`, `schedule.rs`, `passes.rs` | passes and schedules of them |
| `src/model.rs` | the tree as a mathematical object |
| `src/tree.rs`, `violation.rs` | the parse tree, and which outcomes it refuses |
| `src/executor.rs`, `executor_rayon.rs`, `engine.rs`, `run.rs` | running a schedule |
| `src/session.rs` | edits |
| `src/laws.rs` | what holds across runs and edits |
| `src/rebase.rs`, `nom_pass.rs`, `chumsky_pass.rs` | passes from nom and chumsky parsers |
| `src/text.rs`, `encoding.rs`, `line_index.rs` | bytes, characters, positions |
| `src/lsp.rs`, `document.rs`, `diagnostics.rs` | the bridge to the Language Server Protocol |
| `src/language.rs`, `hooks.rs`, `simple.rs`, `documents.rs`, `server.rs` | what a language server decides |
| `src/lua.rs`, `lua_data.rs`, `lua_table.rs`, `lua_notice.rs`, `lua_pass.rs`, `lua_language.rs` | languages defined in Lua |
| `tests/` | tests against the real nom, chumsky, rayon and mlua |
| `app/` | the program `increparse-lua-server`: message loop, JSON, files |

## What is proved

Every function of the library is verified against its contract, and does not
panic on the inputs its contract admits. Passes, executors, contexts and
languages are whatever users make of them; nothing is taken for granted about
them beyond what their own contracts say. What a run may do is stated as
`Engine::run_ok`, over the rounds it went through. From it follow, among
others, that runs agree whatever the executor, that a cancelled run can be
resumed, that a fixpoint is settled and stays as it is, that a run makes at
most one round per pass and processes each node at most once in each, and that
an edit resets what it reaches and nothing else.

What the library takes from other crates stands behind a few declarations
whose contracts are believed: rayon's parallel map, the entry points of nom
and chumsky parsers, and the calls into a Lua state. Each says in its comment
what it claims, and in its `requires` what it must not be handed; values are
tested against the Lua state they are to be used in before mlua sees them.
