# dog (verified core)

The verified core of `dog`, a command-line DNS client.

- `src/` is the library, verified with Verus:
  - `text` — character-level utilities: decimal numbers, replacing, finding,
    splitting into lines and words, trimming.
  - `ip` — reading IPv4 and IPv6 addresses and writing them in canonical form.
  - `localize` — the English and Chinese messages, language detection, and
    the usage text.
  - `resolve` — reading resolv.conf, `resolvectl dns` and `scutil --dns`
    output, choosing a nameserver among the Windows adapters, and the steps
    of looking up the system's nameserver.
  - `transport` — the UDP transport's address, how an address text becomes
    a socket address, and which socket family to bind first.
  - `tls` — the TLS client side of a connection: the server name, the web's
    root certificates and the client configuration, through rustls.
- `app/` is the input and output around it: the environment, files, commands,
  sockets, the Windows adapters and the TCP stream under TLS.
- `tests/` runs the library on concrete values.
