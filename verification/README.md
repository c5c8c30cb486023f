# thermo

A relay for a thermal printer: a server accepts print jobs over HTTP
(`POST /print`, a web form at `/form`) behind Basic authentication and hands
them over a websocket to a client on a Raspberry Pi, which prints them on a
58 mm thermal printer.

`src/` is the verified library, written in Verus:

- `text`: whitespace, letters, trimming and word splitting, with their
  specifications.
- `wrap`: cutting long words and greedy word wrapping; the wrapped lines fit
  the width and keep the letters of the text.
- `normalize`: reducing text to printable ASCII (idempotent).
- `printout`: the lines and bytes the printer client sends for a job; every
  printed line is at most 27 ASCII characters.
- `job`: how a form submission becomes a print job (trimmed, blank lines
  removed, stamped with the time).
- `page`: the HTML of the form.
- `auth`: the Basic authentication header and its check; a header is
  accepted exactly when it is the header of the expected credentials and
  the expected user name holds no colon (a colon ends the user name, so a
  user name with a colon is never accepted).
- `broadcast`: sending a job on the broadcast channel, with a record of
  the text each successful send carried.
- `relay`: the queue of jobs waiting for a printer, the count of connected
  printers, the reaction to websocket events, and the law that a session delivers
  every job it receives, in order, until it closes.
- `handlers`: the replies of the HTTP endpoints.
- `client`: the printer client's websocket URL, message handling and
  settings, and the law that the client prints every text it receives, in
  order, until the relay closes the connection.

`app/` holds the programs around it (axum server, serial port, websocket
client); `tests/` holds the tests.
