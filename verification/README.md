# faas_nfv

The per-packet logic of a set of network functions (ACL with connection
tracking, BPF-style rule chains, source NAT) and of the scheduler
benchmarks, verified with Verus.

- `src/` — the verified library:
  - `flow`: flows (five-tuples) and IPv4 prefixes;
  - `flow_table`: FNV-hashed flow sets and maps;
  - `acl`: first-match rules with connection tracking;
  - `bpf2`, `bpf6`: first-match rules over headers only;
  - `source_nat`: port-allocating source NAT as a state machine;
  - `stats`: latencies from paired timestamps.
- `app/` — the NetBricks pipelines, Redis calls, command line, timing and
  floating-point statistics around the library.
- `tests/` — tests of the library on concrete values.
