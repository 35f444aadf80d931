# file_hosting

A small file hosting service: a server that keeps user accounts (bcrypt
password hashes in `users/users.txt`), private and public file directories,
and a command-line client that logs in, uploads, downloads and searches.

- `src/` is the verified library: the wire format of requests and replies
  (`protocol`), the accounts file, registration and login (`accounts`, with
  `passwords` around the `bcrypt` crate), the server's and the client's
  decisions (`server`, `client`), text, number and path helpers, and the laws
  that tie both ends together (`laws`).
- `app/` holds the sockets, files and terminal: `main.rs` starts the server
  with the argument `server`, and the client otherwise.
- `tests/` runs the library on concrete values.
