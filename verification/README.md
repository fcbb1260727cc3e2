# micronet

Ethernet bring-up and DHCP gateway daemon for BigFred OS, with the event-WiFi
DHCP gate (`dhcp-gate`) and the one-shot Ethernet bring-up (`ethernet`).

The library (`src/`) holds the logic and is verified with Verus: the public
functions state what they return in `ensures` (the drivers that hand
requests to the user-implemented `NetOps` / `GatewayCtl` say what holds
whatever those answer), and the laws that tie several functions together are
proof functions.

- `config` — the JSON configuration's values, defaults, validation, DNS names,
  and which file events concern it.
- `apply` — mode selection (client / static / gateway); apply, teardown and
  the liveness checks as step functions (`apply::plan`) whose requests, with
  their arguments, are stated exactly, and the drivers that carry them out
  over the `NetOps` / `GatewayCtl` operations.
- `daemon` — the daemon's decisions: reloads, carrier watch, gateway
  rechecks, epochs, the legacy command lines.
- `ipc` — control-socket framing (4-byte little-endian length + JSON) and
  the request/response values.
- `net` — physical Ethernet selection, IPv4 addresses and networks, the
  DHCPDISCOVER probe's messages.
- `pidfile`, `dhcp` — pidfile-owned processes and our dnsmasq (its
  configuration text and reload steps).
- `gate` — event WiFi stacks (Omada), leases, ARP, sticky state and the
  reservations promoted to dnsmasq, with the files written for them.
- `ethernet` — the static-then-DHCP bring-up's settings and command output.
- `text`, `datadir` — character-level helpers and the data root.

`app/` is the program around the library: command line, files, sockets,
signals, threads and the commands it runs. `tests/` exercises the library.
