# RySQL

A desktop client for MySQL and MariaDB.

- `src/` is the core of the client, written in Verus: splitting scripts into
  statements, quoting, dumps and CSV exports, filters, decoding and sorting of
  results, the editor and its completion, the schema tree, the dialogs, the
  history, and the state of the connections. Each function states in its
  contract what it does, and each module states as laws what holds of its
  functions together.
- `app/` is the program around it: windows, the runtime, the connection to the
  server, files and the keyring.
- `tests/` runs the core on concrete values.

Long work that alternates with the server, such as a dump, is a machine in the
core: it says what it needs to know next, and `app/` fetches it and hands it
back.
