# dryguard

Classifies pairs of structurally similar functions as shared logic to extract
(`EXTRACT-CANDIDATE`), accidental duplication to keep apart (`DO-NOT-EXTRACT`), or a case
for a person (`REVIEW`), and says why, signal by signal.

The library is written in Verus: each function states in its contract what it returns,
and Verus proves it.

## Layout

- `src/` — the verified library.
  - `classification` — the decision: the signals, the leans they give, the verdict, and
    the laws the verdict keeps (a dissimilar pair is reviewed, a candidate needs a
    compatible signature, lowering the threshold only adds candidates, …).
  - `report`, `json` — the verdict and its reasons as text for a person and as JSON for an
    agent; the JSON gives exactly the reasons the text prints.
  - `config` — `dryguard.toml`: thresholds and domain declarations.
  - `domain_declaration`, `semantics`, `syntax`, `similarity`, `threshold`, `location`,
    `line_number`, `path`, `text` — the values the signals are made of.
  - `codebase` — which files of a tree are walked, in what order.
  - `pipeline` — the decisions between the stages: which pairs of chunks a scan compares
    and keeps as candidates, and what the language server's answers for a pair come to.
  - `lsp` — the language server protocol: framing, messages, URIs, workspace roots,
    documents, the answers to hover, references, call hierarchy and type definition, and
    the state a conversation keeps between messages.
- `app/` — what the library leaves to its caller: the command-line types, reading files,
  starting the language server and moving frames over its pipes, printing JSON.
- `tests/` — the library's tests.
