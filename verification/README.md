# Connector

Connector lets an OAuth-authorized MCP controller operate machines that are
behind NAT. Each machine opens an outbound WebSocket to a central gateway; the
controller can then discover connected machines, run fresh shell commands, apply
structured file patches, capture screenshots and operate the desktop.

`src/` is the library: every rule that Connector follows, verified with Verus.
`app/` is the program around it: sockets, processes, files, SQLite and JSON.

| Module | What it decides |
| --- | --- |
| `apply_patch` | how a patch is read, what it changes, and how the changes are published so that nothing is lost |
| `client` | which codes are sent, where the link is opened, when it is tried again |
| `computer` | which desktop actions are accepted, what they send, and that what goes down comes up |
| `config` | where the gateway is reached and where it keeps its files |
| `crypto` | tokens, connection codes, hashes |
| `db` | credentials and grants: what each request does to the tables and what it is answered |
| `execution` | how a command is started and what its end means |
| `gateway` | what every request is answered, who is let in, how a link lives |
| `mcp` | which tools there are, who answers a call and how |
| `screenshot` | which programs are tried, what counts as an image |

The program is started as `connector-gateway` to serve, and under any other name
to connect this host.

What holds across calls is stated as public proof functions: in `db/laws.rs`,
`gateway/laws.rs` and `apply_patch/shape.rs`, and next to the definitions
elsewhere. Calls into other crates and into the standard library stand behind
small functions whose doc comments say what is relied on: `rand`, `base64`,
`sha2` and `subtle` in `crypto.rs`, `chrono` in `clock.rs` and
`gateway/manage.rs`, `url` in `gateway/urls.rs`, strings from bytes in
`bytes.rs` and `gateway/mod.rs`.
