# link2lan

Helps a UDP client reach a UDP server behind NAT: peers learn their public
address by STUN, exchange it through an ntfy topic or a sealed UDP datagram,
and punch or reverse the connection.

- `src/` is the library, verified with Verus: text and number handling,
  the signal format exchanged through ntfy, the `--resolve` argument, the
  description of a socket after a STUN exchange, endpoint patterns with random
  segments, and the sealed datagram (XChaCha20-Poly1305 under a SHA-256 key)
  with the proof that a receiver accepts what a sender sealed within ten
  seconds.
- `app/` is the program around it: command-line handling, sockets, HTTP and
  WebSocket access to ntfy, JSON, clocks and processes.
