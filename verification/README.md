# wombat

The verified core of Wombat, a desktop companion for working with AWS:
it groups the AWS profiles of the user into Wombat profiles, names and
filters ECS clusters, services and RDS instances, finds database
credentials, searches CloudWatch logs, keeps the ports of local proxies, and
decides how the proxies authenticate the requests they forward.

Layout:

- `src/` — the library, verified with Verus. Each module states its
  functions' behaviour in `requires`/`ensures` and proves it; the laws that
  relate several functions are public proof functions named `law_*`.
  `src/external.rs` holds the calls into outside crates, with the
  contracts the library relies on.
- `tests/` — tests of the library on concrete values.
- `app/` — the desktop application around the library: Tauri commands, AWS
  SDK calls, files and processes. It hands the library plain values and
  carries out what the library decides.
