# wg-subscriber

A client that keeps a WireGuard interface as a server describes it over MQTT.

- `src/` is the library: what the client decides, written in Verus and proved
  against its contracts. It runs no command and opens no connection.
- `app/` is the program around it: the environment, the commands `wg` and `ip`,
  the connection to the broker, and the documents in JSON.
- `tests/` runs the library on concrete values.

What the library trusts, and does not prove, stands in `src/foreign.rs`: the
calls into `ipnet`, `blake3`, `zstd`, `serde_json`, `shlex`, `rand`,
`rustls-pemfile` and a few functions of the standard library. Two more of these
stand at the head of `src/text.rs`.

The passes in `relay_pass` and `snapshot_pass` alternate decisions and outside
work. The library takes one step at a time; the program does what the step
asks for and hands the outcome to the next one.

Proof functions whose names begin with `law_` state what holds of the client as
a whole: that a failed switch to a local endpoint is taken back, that routes
applied twice change nothing, that no pass goes on for ever and that one that is
done has left nothing out, and so on.
