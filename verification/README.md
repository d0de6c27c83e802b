# chat_server

The state and decision logic of a websocket chat server, verified with Verus.

- `src/` is the verified library: users and their connections (`user`),
  the user table on `multi_map` (`user_table`), channels (`channel`), the
  server state and its transitions (`server`), the client commands
  (`commands`), message history (`message`), loading the tables from
  database rows (`tables`), configuration (`config`), errors and close
  frames (`errors`), link attachments (`attachments`), password hashing
  (`passwords`), small verified collections (`collections`) and the laws
  that span several operations (`laws`).
- `app/` is the program around it: TLS and websocket I/O, the SQLite
  database, HTTP requests for attachments, signals, JSON on the wire, and
  the manager loop that performs what the library's decisions call for.
- `tests/` runs the library on concrete values.
