# reaper

Disposable test machines for the pre-push loop: bring a virtual machine up, sync
an uncommitted tree into it, run a project's battery there, bring the results
back, roll its state back between runs, and take it down. Every machine carries
an expiry from the moment it exists, and an independent sweeper destroys what has
expired.

## Layout

- `src/` is the library. It decides; it does no I/O. Every function in it is
  verified with Verus, but for the few wrappers that call outside crates (below).
- `app/` is the program around it: the command line, files, processes, HTTP.
- `tests/` runs the library against stand-ins for the world.

| Module | What it holds |
|---|---|
| `text`, `scan`, `time`, `dict`, `paths`, `address` | texts, moments and spans, sorted dictionaries, paths, IP addresses |
| `json`, `decode` | documents read from JSON, YAML and TOML, and their shapes |
| `duration`, `config`, `manifest` | what a site and a tenant may write, and what it means |
| `job` | a tenant's command, as a script that survives a shell |
| `session` | the session store: one document, replaced whole |
| `transport`, `sync` | ssh and rsync: what is run, and what its end means |
| `provider`, `registry`, `proxmox` | the provider seam, and the one provider there is |
| `verbs` | what each command does, deed by deed |

## Conversations

A command alternates decisions with work that only the outside can do. In the
library it is a function of the replies so far: it says what to ask for next, or
how it ended. `app/` performs what is asked for, records what came of it, and asks
again. So a contract can say what a command does for every sequence of replies,
and a test can play any of them.

## What is taken on trust

A proof is as good as what it rests on. Besides Verus and its library, these
contracts are believed, each stated beside the call it is about:

- `text`: `String::push`, and how a string is quoted by `{:?}` (only named).
- `json`: the readers and the writer of `serde_json`, `serde_yaml_ng` and `toml`,
  and the conversion between `serde_json::Value` and the library's own tree. What
  the readers and the writer give is only named, but for one fact: a plain tree
  that was written is read back.
- `manifest::schema`: whether `jsonschema` takes a schema, and what it finds in a
  document. Nothing is said of the words in which it refuses a schema.

## Running it

The runner script that is delivered to sessions is read from `runner.sh` beside
the program, or from where `REAPER_RUNNER` points. Called as
`reaper-manifest-validate`, the program checks manifests and needs no site.
