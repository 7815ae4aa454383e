# tuic

A TUN-over-QUIC VPN. The server hands each authenticated client an address
from a subnet and forwards packets between its TUN device and the clients'
QUIC connections; the client routes its traffic through a TUN device.

- `src/` is the verified library (Verus):
  - `common`: IPv4 addresses, the handshake messages and their wire format,
    SHA-256 session secrets, text parsing helpers.
  - `server`: the address pool, CIDR subnet parsing, the user table, the
    handshake decision, packet filtering and routing, the retry policy, the
    NAT ruleset text.
  - `client`: configuration, the client hello, the `route` commands that set up
    and remove the tunnel routes.
- `app/` is the program (`tuic server [FILE]`, `tuic client [FILE]`): sockets,
  the TUN device, process spawning and configuration files.
- `tests/` runs the library on concrete values.
