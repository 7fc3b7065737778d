# my_teams

A Teams-like messaging service: a TCP server (`myteams_server`) and a
terminal client (`myteams_cli`) speaking a line-based text protocol, with
users, teams, channels, threads, replies and private messages kept in JSON
files.

The library under `src/` holds the logic, with contracts proved by Verus:

- `wire`, `text`, `collections`: the quoting and tokenizing of protocol
  words, string helpers, sorted string sets and association lists.
- `server`: request parsing, the user store, the storage model and its JSON
  documents, every command of the server as a function from session, users
  and storage to an outcome (answer, info lines, log events, file to save),
  and laws over them.
- `client`: request building, what a typed line leads to, and what a server
  answer or info line leads to, as calls of the client log.
- `json_reader`, `json_writer`, `json_laws`: reading and writing JSON text,
  and the proof that what is written reads back.
- `cli`: the command lines of both programs.

`app/` is the program around it: sockets, `poll(2)`, the C logging library,
files, and the conversion of JSON numbers to and from floats.

`tests/` runs the library on concrete inputs.
