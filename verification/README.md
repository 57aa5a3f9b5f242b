# ip_blocker

Verified logic of a small eBPF security tool, written in Verus:

- `ipv4`: IPv4 addresses, their 32-bit value, and a reader for the
  dotted-decimal form whose contract is that it accepts exactly the texts
  that addresses print as.
- `blocklist`: the table of blocked addresses shared by user space and the
  packet filter, with the capacity of the kernel map (1024 entries).
- `firewall`: the XDP decision on a received frame (drop IPv4 frames whose
  source is blocked, pass the others, abort on truncated headers).
- `policy`: reading the JSON block policy (through `serde_json`) and
  applying it to the table.
- `file_open`: the LSM `file_open` decision (refuse paths under `home/` and
  `/usr/bin/mkdir`).

`app/` is the user-space program: it loads the XDP object with `aya`,
watches the policy file with `notify`, and mirrors the library's decisions
into the kernel map.
