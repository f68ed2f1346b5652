# doh_tester

A DNS-over-HTTPS endpoint tester whose logic is proved with Verus.

- `src/` is the verified library: the DNS wire format (`dns`), base64url
  (`base64url`), URL host/port reading and handshake texts (`endpoint`), the
  per-endpoint test as a state machine (`probe`), the meaning of HTTP replies
  (`reply`), the endpoint list format (`doh_list`), the reports (`report`),
  the records and settings (`types`) and string helpers (`text`).
- `app/` is the program around it: command line, settings file, TCP/TLS/HTTP
  work, concurrency and file output. It performs the actions that the
  library's `EndpointProbe` asks for and writes what the library composes.
- `tests/` exercises the library on concrete values.
