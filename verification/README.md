# ironrdp-agent

The verified logic of a CLI-driven, daemon-backed RDP client.

- `src/` is the library. Verus proves its functions against their contracts, given what the trusted
  items say of outside crates. It performs no input or output: it decides, and says what is
  to be done.
  - `cli`: what an invocation asks for, the request it becomes, how the answer reads.
  - `daemon`: one session, the requests on it, and what is known of it; a request becomes a step.
  - `logbuf`: a bounded buffer of log lines, scrubbed of registered secrets.
  - `ipc`: the messages between the two, and `ipc::codec` the form in which they travel.
  - `wire`: the binary primitives, and the codec of property sets.
  - `client`, `input`, `properties`: what the outside crates know of configurations, of pressed keys
    and of properties, behind items whose contracts are trusted.
  - `text`: searching, replacing, reading and writing texts.
- `app/` is the program around it: arguments, sockets, threads, the RDP engine and `tracing`.
- `tests/` run the library with the outside crates.

## What is proved

- A property dump shows `<redacted>` for every secret (`daemon::laws`).
- The status of a session, and every log line that is retained after it was opened, holds none of its
  secrets, text or number (`logbuf`, `daemon::laws`), unless the secret overlaps the text
  `<redacted>` itself.
- For the same retained log lines, no answer but that to a connect request depends on the value of a
  secret; the status does only where its texts had to be scrubbed (`daemon::laws`).
- Strings, property sets, requests and responses read back as they were written (`wire`,
  `ipc::codec`).
- Events of a replaced session are not followed; closing, failing and asking change what they say
  they change and nothing else (`daemon::laws`).
- What the command line refuses to send the daemon would refuse too, arguments win over the `.rdp`
  file, and scancodes read back in decimal and in hexadecimal (`cli::laws`).
