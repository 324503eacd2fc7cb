# agentix

Local code and documentation indexing, local model serving, and a sandbox
for coding agents — the decision-making parts, written in Verus with their
behaviour stated as contracts and proved.

## Layout

- `src/` — the verified library.
  - `lhs`: literate Haskell (`.lhs`) unwrapping into code and prose blocks
    with original line numbers, and the line map back from the stripped code.
  - `chunk`, `docs`, `files`, `ingest`, `hashing`: which files of a
    repository are indexed, how source files are cut into line windows or
    symbol chunks, how documentation is cut into paragraphs and sections,
    when a file is unchanged since the last run, how chunks are batched for
    embedding, and how indexed repositories are listed.
  - `infer`, `store`, `llama`, `serve`, `daemon`, `api`: inference types, the
    model store's layout, manifests, the alias file and blob removal, reading tool
    calls out of model output, context sizing, request handling of the model
    daemons (chat, embeddings, transcription, the Responses API), and the
    gateway's configuration and forwarding.
  - `gh_policy`, `jail`, `sandbox`, `agent_jail`, `direnv`: which `gh` commands a
    sandboxed process may run, which repositories it may reach, and the
    `bwrap` command lines of the `ax` sandbox and of the coding-agent sandbox
    (`<agent>-jail`), with the environment each is allowed, direnv's
    exports included.
  - `text`, `num`: the character-level text model and decimal numbers.
- `tests/` — tests run against the compiled library.
- `app/` — the I/O around it: environment, file walks, the `gh` proxy
  server, the sandbox launchers, the alias file's reads and writes, and the JSON forms of the API types.

Outside crates are reached through a few trusted wrappers, each documented
where it is declared: `sha2` and `hex` for content hashes, `serde_json` for
tool-call bodies, `uuid` for fresh ids, `glob` for extra file patterns, and
`str::to_lowercase`, `String::push`, `Path::parent`, `Path::starts_with`
and the system clock from the standard library; `serde_json` also reads
direnv's exports and reads and writes the model store's alias file.
