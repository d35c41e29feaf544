# anycaster

Anycast health checker: it probes local services and adds or removes each
service's address on the loopback interface, so that a routing daemon
advertising loopback addresses announces only healthy services.

- `src/` — the verified library (Verus): configuration model and defaults
  (`config`), probe verdicts and the DNS query sequence (`checks`), the
  rise/fall hysteresis with its laws (`runner`), IPv4 address text
  (`address`), loopback listing and kernel answers (`ip`), the load guard
  (`load`) and string helpers (`text`).
- `app/` — the program around it: command line, TOML loading, probes over
  the network and processes, netlink calls, the per-service loop.
- `tests/` — tests of the library.
