# gobgp_sync

Keeps a GoBGP speaker's global RIB in line with two sources: the CIDR lists
of the selected countries (with a community `ASN:ISO-3166-numeric` and a
per-country next hop) and the A/AAAA answers for a list of domains (host
routes with community `65535:65535`).

## Layout

- `src/` — the library, verified with Verus: settings and their precedence,
  the sync schedule, CIDR list extraction, the prefix snapshots and the state
  file, differences between tables, the GoBGP API messages, the DNS snapshot
  with its grace period, the steps of a sync round (`round.rs`), and the
  laws that tie these together (`laws.rs` and the `law_` functions beside the
  code they speak of).
- `app/` — the program around it: command line, config file, logging,
  downloads, the gRPC client, the gobgpd child process, the two schedulers'
  loops and the `install` subcommand.
- `tests/` — tests of the library on concrete values.
