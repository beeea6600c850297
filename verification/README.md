# http_file_server

A small HTTP file server whose decisions are verified with Verus.

- `src/` is the verified library: path rules (`paths`), command-line value
  parsers (`cli`), bearer/basic authorization (`authenticator`), the file
  cache (`cache`), plain-text responses (`http`), the HTML directory listing
  (`listing`) and the request decisions of the server (`server`): password
  gate, routing, path-traversal filtering, upload targets.
- `app/` is the program around it: command line (clap), the TCP listener and
  HTTP connections (tokio, hyper), file system access, multipart streaming
  and logging. It asks the library what to do and performs the I/O.

Paths follow Unix conventions: `/` separates components.
