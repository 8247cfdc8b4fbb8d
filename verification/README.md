# io-thread-controller

A daemon that discovers VMs through pluggable backends, refreshes their
I/O-worker state, asks a scaling engine for decisions, and keeps the live
inventory synchronized with discovery.

The rules of the daemon are a library verified with Verus (`src/`); the daemon
itself (`app/`) does the I/O around it.

## The library

- `controller`: the inventory. `sync` reconciles it with a discovery pass,
  `refresh` takes in what VM clients report on a tick, `ownership` records which
  VMs are managed, `actuation` holds scale actions against the safety checks,
  `host` tracks the host's load.
- `engines::threshold`: decides on worker counts from CPU load, and validates
  the effect of each accepted action.
- `instance`: the record of one VM, and what a refresh makes of it.
- `backends::qemu`: discovery, metrics topology, virtqueue mapping, QMP commands
  and replies, and the state of one VM's client.
- `daemon`, `dbus`, `status`, `rolling`, `state`, `config`: rules of the event
  loop, operator requests, status lines, rolling history, ownership sets and
  settings.
- `binary64`, `rounding`, `arithmetic`, `bounds`, `figures`: fractions as binary64
  bit patterns, with IEEE 754 arithmetic on them and the figures computed with it.
- `text`, `numerals`, `quantity`, `powers`, `collate`, `registry`, `ordered`,
  `patterns`, `identity`: what the rest is built on.

Contracts are stated over mathematical models; properties that span several
functions are public proof functions whose names begin with `law_`.

Matching of regular expressions and the text form of UUIDs come from the `regex`
and `uuid` crates; `patterns` and `identity` state what is relied upon.
