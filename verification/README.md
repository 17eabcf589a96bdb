# http_tunnel

A reverse HTTP tunnel. A client shares a directory; a server with a public address gives it a
subdomain, and passes the requests of browsers for that subdomain on to the client. Long files and
videos travel as streams.

- `src/` is the library. It holds the messages that the two ends exchange and every decision that
  either end takes on them, with contracts that Verus proves.
  - `protocol`, `body`, `headers`: messages, their frames on the wire, bodies of HTTP messages and
    header fields.
  - `text`, `number`: text and numbers, character by character.
  - `registry`: the maps in which connections and streams are kept.
  - `server`: the public end. `session` is a browser's connection, `stream` a response that comes
    piece by piece, `tunnel` the handshakes and the routes, `utils` the heads of requests and
    responses, `tls` the certificates.
  - `client`: the end that shares files. `tunnel` decides what is done with each message,
    `file_server` how a file is sent, `utils` how a request is passed on.
  - `relay`: what holds of the two ends together.
- `app/` is the program: the command line, sockets, TLS and files around the library.
- `tests/` holds the tests of the library.
