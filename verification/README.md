# proxier

A transparent proxy that decides process by process: the packets of a process are blocked, left
alone, or redirected to a local relay, which carries the connection on through a SOCKS5 or HTTP
proxy.

`src/` decides and is verified with Verus. It does no input or output: it takes bytes, tables and
events as values, and says what to send, read, report or store next.

- `text`, `base64`, `address`: strings, credentials and IP addresses
- `model`, `event`: the records that are reported and stored
- `rules`: which rule applies to a process, and how grouping a process changes the rules
- `owner`, `connections`: what the system's socket tables say
- `traffic`, `engine`: the counters and the state of the engine
- `packet`: headers, redirection, and what becomes of a captured packet
- `handshake`, `relay`: conversations with proxies and the life of a relayed connection
- `database`, `store`: the statements that store the records, and what they do to the tables
- `commands`, `probe`: what the user is told, and the test client

`app/` is the desktop program around it: the window, SQLite, sockets and the WinDivert driver. It
runs on Windows only.
