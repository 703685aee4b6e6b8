# zapx

The verified core of a multi-protocol terminal client for network
engineers (SSH, telnet, serial), written in Verus.

`src/` is the library; every function in it is verified against its
contract:

- text primitives with the meaning of Rust's `str` methods (`text`), hex
  (`hex`), escapes of `send` payloads (`escapes`);
- terminal streams: ANSI stripping (`ansi`), telnet option negotiation
  (`telnet`), keyword highlighting (`highlight`), platform detection from
  prompts (`detector`), hint catalogs and history rules (`catalog`,
  `history`, `sensitive`, `platform`);
- automation: login scripts (`login_script`) and output triggers
  (`triggers`) as state machines driven by the caller's clock;
- importers for PuTTY, MobaXterm, OpenSSH config and SecureCRT
  (`importers`), the native import (`import`) and backup restore
  (`restore`) as request/answer state machines over the caller's database,
  what an export and a backup bundle carry (`export`), backup bundle rules
  (`backup`), the sync folder's state (`sync`), and id-free names of
  records for comparing environments (`canon`) and the bundle fingerprint
  built from them (`fingerprint`);
- connection decisions: where a saved session connects and how it
  authenticates, bastion chains (`connect`), host keys (`hostkey`), the
  SOCKS5 handshake of dynamic forwards (`socks`), agent preference
  (`agent`), data directory and settings (`config`), snippets
  (`snippets`), vault naming (`vault`), transfer progress (`progress`),
  remote directory listings (`listing`), drag-to-reorder (`ordering`),
  session meters (`watch`), log formats and rotation (`logfmt`).

Calls into `regex`, `serde_json`, `chrono`, `sha2` and a few std functions stand
behind small trusted wrappers whose contracts name or describe their
results.

`app/` holds what the library cannot: file and directory access, clocks,
the process-wide catalog registry, session log files, suggestion ranking
(floating point), and the JSON forms of the library's types.

`tests/` exercise the library through its public API.
