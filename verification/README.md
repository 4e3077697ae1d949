# iroh_ble_transport

A transport for [iroh](https://github.com/n0-computer/iroh) over Bluetooth Low
Energy. Every node is central and peripheral at once: it advertises a GATT
service whose UUID carries the first bytes of its public key, finds others by
theirs, and talks to them over GATT until an L2CAP channel can take over.

What the transport decides is written in [Verus](https://github.com/verus-lang/verus)
and proved. The library never waits, never reads a clock and never touches a
radio: reports, answers and times come in as values, and what is to be done goes
out as values.

## Layout

`src/` is the verified library.

- `peer`, `lifecycle`, `registry`, `registry_laws`, `registry_order`: the peers,
  what each event does to one of them, the table of all of them, and what holds
  across commands.
- `driver`, `pipe`, `pipe_watchdog`: what the registry's actions lead to, the
  data pipes with their hand-over from GATT to L2CAP, and when a pipe is torn
  down.
- `routing`, `routing_v2`, `resolve`, `hook`, `dedup`: addresses and tokens,
  which pipe leads to an endpoint, who waits for one, what a finished handshake
  means, and which of two links survives.
- `gatt`, `l2cap`, `events`: services and characteristics, framing, and how
  reports of the Bluetooth stack become commands.
- `transport`, `receive`, `setup`, `store`: sending, receiving, coming up, and
  remembering peers.
- `direct`, `dial`, `address`: the simpler transport that dials a device when it
  first has something for it, and addresses peers by device.
- `channel`, `keys`: the channels and keys of other crates, with what is relied
  on but not proved here.
- `bytes`, `text`, `time`, `table`, `error`: what the rest is built from.

`tests/` runs the library. `app/` runs it on tokio, plugs it into iroh, and
connects it to a Bluetooth stack. It asks its user for one thing: a
`ReliableLinks`, which carries datagrams over fragments that may get lost.
