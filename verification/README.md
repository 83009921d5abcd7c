# nighterrors

A Wayland blue-light filter daemon and its control client. The library in
`src/` is verified with Verus; `app/` is the program around it.

## Layout

- `src/cli.rs`, `src/args.rs` — the command line: commands, control requests,
  their one-line wire form, and the parser (`parse_args`), each stated over
  character sequences.
- `src/num.rs`, `src/exponent.rs`, `src/text.rs`, `src/suggest.rs`,
  `src/order.rs` — decimal text and numbers with an exponent, string
  helpers, "did you mean" suggestions, and the string order with sorted lists
  kept in it.
- `src/daemon.rs` — the filter state and the daemon's answer to every request
  (`handle_request`); `src/laws.rs` states what holds over any request sequence.
- `src/display.rs` — the outputs, managers and gamma controls as the compositor
  announces them, the requests the daemon sends for each event, and which
  outputs an apply covers.
- `src/output.rs`, `src/client.rs` — how a control command prints the answer.
- `src/service.rs` — the user `systemd` unit and the steps of each `service`
  subcommand.
- `src/ipc.rs` — the reply rules of the control socket and its default path.
- `src/roundtrip.rs`, `src/cli_laws.rs` — the wire round trip and the laws of
  the command line.
- `app/` — `main`, the socket server and client, the compositor event loop, the
  floating-point color math, and the `systemctl` runner.
- `extras/protocols/` — the two Wayland protocol descriptions that the client
  bindings in `app/protocols.rs` follow.

Gamma is held in millionths of a percent (`Percent`). Finer input is rounded
away from zero, so a value just beyond the gamma range is still refused.
