# mysyncfiles

File synchronization between folders and a personal server, with the rules of the
protocol proved in Verus.

- `src/` is the library. Each module holds the data of one part of the protocol, a model
  of it in mathematical terms, the functions that work on the data with contracts over the
  model, and the laws that relate them.
  - Server: `catalog` (the model of the file tree, its trash and its upload sessions),
    `server`, `uploads`, `admission`.
  - Devices: `registry` (the model), `device_auth`, `access`, `pairing`, `endorsement`,
    `certified`, `console`.
  - Messages: `auth_protocol`, `origin_auth`, `tpm`, `keys`, `digest`, `url`.
  - Client: `reconcile`, `journal`, `replace`, `transfer`, `local_fs`, `client`,
    `setup`.
  - Releases: `release`, `update`.
  - Tools: `model`, `text`, `order`, `keyed`.
- `app/` is the program around it: the command lines, HTTP, SQLite, the file system and
  the TPM.
- `tests/` runs the library on concrete values.

What the library takes from other crates stands behind small functions marked
`external_body`; the comment above each says what is believed of the outside function.
