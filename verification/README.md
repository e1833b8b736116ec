# TNSM relay

A rendezvous relay. A **host** behind NAT and a remote **client** (RC) both dial
it and name the same short code; the relay joins them and from then on passes
their bytes both ways. What they say to each other is theirs: the relay only
ever reads the first line of a connection.

## The handshake

A peer sends one line of at most 256 bytes:

```
HOST <code> [secret]
RC <code> [secret]
```

A host is told `WAIT`, and `OK` once a client is there. A client is told `OK`.
Everyone else is told `ERR` and why, and is cut off. A code has at most 128
bytes. The secret must be sent where the configuration has a `shared_secret`.

## Configuration

`relay.toml`, with its defaults:

```toml
bind = "0.0.0.0:7800"
host_ttl_secs = 600
handshake_timeout_secs = 15
shared_secret = ""
```

## Layout

- `src/` is the library, verified with Verus. It does no I/O.
  - `line`, `handshake`: the first line of a connection, and who is let in.
  - `rendezvous`: the hosts that wait, and how a host's and a client's
    connection go on, as functions from an event to an action.
  - `server`, `panel`: the life of a relay, and starting and stopping it by hand.
  - `stats`, `table`: the live figures, and the map by code that they rest on.
  - `config`, `settings`: the configuration and its TOML file.
  - `account`: hashes of passwords for later accounts (`gen-hash`).
  - `update`: whether a newer build is out.
  - `cli`, `clock`, `text`: arguments and logged lines, the time, strings.
- `app/` performs what the library decides. `main.rs` is the service,
  `relay.rs` the network, `control.rs` and `gui.rs` the desktop control panel.
  The window in `gui.rs` needs `tauri`, `tauri-plugin-http` and
  `tauri-plugin-clipboard-manager` besides the crates of `Cargo.toml`.
- `tests/` runs the library with the real `argon2` and `toml` crates.

## What is believed and what is proved

The calls into `argon2`, `toml` and the parts of std that Verus has no
specification for stand behind small wrappers whose comments say what is taken
from them. Everything else is proved. Each module ends with its laws: proof
functions named `law_...`, each stating one thing that holds of the module as a
whole.
