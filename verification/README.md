# lockbook

A verified core of the Lockbook client, written in Verus.

- `src/` is the library. Every function is proved against its contract.
  - `model`, `db`, `keyed`: file metadata, the local store, and the local change log.
  - `file_service`, `path_walk`, `account_repo`: creating, writing, reading, renaming and moving files, and creating files from a path.
  - `symkey`: AES-256-GCM encryption of text values. Calls into `aes-gcm`, `aead`, `rand` and `bincode` go through small trusted wrappers.
  - `chat_poll`: what the chat poller decides (which chats to read, which messages to hand on, what state to keep).
  - `keyboard`: the macOS key-code table of the editor and its key-event decisions.
  - `billing`: data caps and Google Play subscription records.
  - `api`: request, response and error types.
  - `laws`: properties that span several operations.
- `tests/` runs the library on concrete values.
- `app/` is the unverified shell: command-line entry points, file and network I/O, the async poll loop, and the editor's FFI surface.
