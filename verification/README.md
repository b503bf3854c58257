# miyu

The logic of Miyu, a chat assistant daemon with a QQ (OneBot v11) bridge,
written in Verus: each function carries a `requires`/`ensures` contract and
Verus proves the body against it.

- `src/` is the verified library. `platforms/` holds the OneBot bridge
  (admission, message parsing, outbound planning, connection bookkeeping,
  rate limiting, reply splitting and suppression) and the platform plugins
  (group management, group-history summaries, plugin ordering); `tools/`
  holds the model tools' rules (goals, background jobs, vision scoping,
  image generation, file search); `runtime/` and `state/` hold the web
  login rules, the turn-resource cache and the schema migration plan.
  Calls into `base64`, `sha2`, `blake3`, `serde_json` and `image` go through small
  trusted wrappers whose contracts name or state what the crate returns.
- `app/` is ordinary Rust around the library: JSON on the wire and in tool
  arguments, files on disk, the goal store, starting background job
  processes, and the per-turn task-local context.
- `tests/` runs the library on concrete values.
