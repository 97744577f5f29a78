# aegis

Verified decision logic of an XDP packet filter (L2/L3/L4 rate limiting and
temporary bans) and of its user-space controller.

* `src/` — the library, written in Verus:
  * `types` — the records shared with the kernel side (headers, map keys and
    values, configuration, events);
  * `packet` — header readers and the classification of an Ethernet frame;
  * `lpm`, `keys` — allow-list prefix matching and table keys;
  * `lru` — bounded tables: at most a fixed number of entries, and a new key
    in a full table evicts an older one;
  * `shield` — `apex_shield`: one frame against the allow-lists, ban lists and
    one-second per-source windows for MAC, ARP, IPv4 and IPv6 sources;
    `shield_laws` — properties proved of it (counters, bans reported, bans
    holding, expired bans inert, floods banned, allow-lists honoured);
  * `control` — configuration checks, traffic rates, the panic-mode switch
    with its cool-down, running bans, the alert queue;
  * `text`, `procfs`, `cidr`, `events` — reading `/proc/net/route`,
    `/proc/net/arp` and allow-list entries, and the labels of reported events;
    `text_laws` — round trips of the address texts;
  * `timestamp` — the RFC 3339 timestamps of the event log, through chrono.
* `app/` — the daemon: loads the XDP object with `aya`, fills its maps,
  reads its events and drives the panic-mode switch, calling the library for
  every decision.
* `tests/` — tests of the library on concrete frames, tables and texts.

The XDP object itself is built for the BPF target from the kernel-side
crate; its tables are modelled here as `ShieldMaps`. The ban lists, the
rate-limit tables and the MAC allow-list are bounded tables with the kernel
maps' capacities (524288 entries, 1024 for ARP, 256 for the MAC allow-list).
The contracts allow any older entry to be the one evicted, as the kernel's
LRU maps do; this implementation evicts the oldest inserted. The allow-list
prefix tables are scanned in order in place of the kernel's LPM trie.
