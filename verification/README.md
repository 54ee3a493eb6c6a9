# rcgi

A small CGI-style server: TCP connections (plain, HTTP, WebSocket, keyed file
transfer) and UDP datagrams (a discovery service and a UDP script) are piped to
scripts in a directory.

- `src/` is the verified library (Verus): the WebSocket frame format and frame
  state, the HTTP request-head reader and the variables it hands to scripts, the
  `Sec-WebSocket-Accept` computation, the steps of the search for a request's script
  and the paths of script files, the checks on which script may run and on which file
  a key opens, the steps of the script bridge, the UDP discovery messages and peer
  table, and the decisions of the worker pool.
- `app/` is the program around it: argument handling, sockets, processes, threads,
  tokio tasks, disk probes and logging. It performs the I/O those decisions call for.
- `tests/` runs the library on concrete inputs.
