# bismillah

The backend and the inference service of a neural-network workbench: model graphs that
are checked, ordered and trained, accounts with hashed passwords and bearer tokens, chat
conversations, uploads, and a proxy to a dataset service.

- `src/` is the verified library. Each public function states what it returns in its
  contract; the laws that relate several functions are public proof functions named
  `law_*`.
  - `text`, `validation`: sanitizing and validating user input.
  - `topo`, `graph`, `metadata`: ordering a model graph, the parameters it needs, and its
    statistics.
  - `ops`, `json_shape`, `nested`, `training`: tensor shapes, reading shapes from nested
    JSON arrays, writing values out by shape, and the batches of an epoch.
  - `auth`, `chat`, `api`, `datasets`, `inference`, `ids`: accounts, chat replies, the
    answers of the HTTP interfaces, dataset-service addresses, the inference service's
    in-memory state, and fresh identifiers and times.
- `app/` runs the two servers (`app/main.rs`; the argument `inference` selects the
  inference service): HTTP, the database, JSON, tokens, and the floating-point tensor
  engine.
- `tests/` exercises the library on concrete values.
