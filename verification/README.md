# nono_guard

The decisions behind sandboxed sessions, verified with Verus: which capabilities
the groups of a policy bring and which paths they deny, which proxy they ask for,
what is checked and prepared before a command is forked, and the bookkeeping of
snapshots and session records.

- `src/` is the library. It does no input or output. It works on plain values; the
  outside values that it holds are the capability set, which is nono's own, and the
  paths of capabilities. Paths are bytes and need not be UTF-8.
  Where a decision depends on a file, the library asks for it (`ProbeNeeded`), and
  is called again once it has been told. Where a process forks, waits or applies a
  sandbox, the library says what to do next (`child_step`, `wait_step`).
- `app/` is the Python extension module around it. It reads files and the
  environment, forks, waits, and converts to and from Python.
- `tests/` runs the library with the outside crates linked.

| module | what it decides |
| --- | --- |
| `policy`, `resolve`, `laws` | what groups do to a capability set, and what always holds of it |
| `seatbelt` | the rules by which macOS confines a process |
| `overlap` | denied paths that Landlock cannot enforce |
| `proxy` | the proxy that groups ask for |
| `host`, `path` | what a policy's paths mean on a host |
| `caps` | the capability set, over `nono::CapabilitySet` |
| `launch` | running a command in a sandboxed child |
| `snapshot`, `session`, `hash`, `clock` | snapshots, session records, digests, timestamps |
| `json` | session records as JSON, over `serde_json` |
| `text`, `bytes`, `order`, `table`, `error` | texts, bytes, the order of texts, tables keyed by them, errors |

What is taken on trust are the small functions marked
`#[verifier::external_body]`, each of which calls `nono`, `nono-proxy`, `libc`,
`serde_json` or the standard library and says what it claims of the call.
