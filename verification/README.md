# homesite

A small personal web server (plain HTTP or TLS on one port) split in two:

- `src/` is the verified library. `text` and `number` give the string and
  integer operations the server relies on (split, join, replace, trim,
  lines, decimal printing and parsing) with their exact meaning; `http`
  frames responses, takes request lines apart, routes them and reads lines
  of bytes; `headers` reads the content type, cookies and content length;
  `tokens` keeps the session tokens and answers logins; `pages` decides
  which file, page or action a request path selects; `content` reads the
  header comment of draft and project pages, renders them from templates
  and returns ranges of listings.
- `app/` is the program around it: configuration, TLS, sockets, files,
  TOML and JSON.
- `tests/` runs the library on concrete values, often against the
  standard library's own answers.
