# harness

The verified core of an agent harness: the rules that decide what is recorded, sent, reviewed
and promoted. Each rule is executable Rust with a contract that Verus proves.

## Library (`src/`)

- `digest`, `uuid`, `json`, `canonical`, `text`, `text_map`, `digest_set`, `split`, `order`,
  `arrange`, `first`: identities, JSON values, texts and ordered collections that the rest is
  stated over.
- `readback`, `reading`: why canonical JSON can be read in one way only, and reading it.
- `evolution`: campaigns as journaled state machines (`campaign`), harness revisions and
  patches (`harness`, `manifest`, `readback`), proposals, compositions, mined evidence, paired trials, exact
  statistics, promotion and rollback.
- `inference`: models, costs, requests, routes, streamed responses, retries and credentials.
- `import`: archived sessions, their lineage, and how they are published and read in pages.
- `review`: frozen trees of a repository, what Git answers, and the manifests of reviews.
- `input`, `feedback`, `manual`: what users hand in.
- `interpreter`: cells of a session, their budgets and their calls.
- `ipc`: frames, commands and spectators of the operator socket.
- `monitor`: measures, releases and evaluations of the harness itself.

Functions named `law_...` are proved statements about several operations at once. Functions
marked `external_body`, and `assume_specification` items, are the only ones whose contracts
are taken on trust; each names the outside function that it stands for.

## Around it

- `tests/`: the library on concrete values.
- `app/`: databases, files, processes, the network, the script runtime and the socket. It
  reads values, hands them to the library, and performs what the library decides.
