# ndap

Network detection and analysis: decoding of Ethernet, IPv4, IPv6, ARP, TCP
and UDP; the classic pcap record layout; detection rules for port scans, SYN
floods and ARP spoofing, tagged with MITRE ATT&CK techniques; IOC matching
with a CSV feed format; a small Sigma-like rule language; and YARA scanning
through yara-x.

- `src/` is the library, verified with Verus: `protocol` (decoders and the
  dissector registry), `capture` (pcap layout, capture interface, the
  capture loop's decisions), `detect` (rules, engine, alert records),
  `intel` (MITRE tags, Sigma-lite, IOC store, YARA scanner), `yara` (the
  yara-x compiler and rule sets, with the sources each was handed), `cli`
  (argument handling), `text` (character-level helpers).
- `app/` is the `ndap` program: pcap files and live capture, and, when run
  as `ndap-api`, the REST API.
- `tests/` exercises the library on concrete inputs.
