# cilium_mini

The decision logic of an eBPF DNS observer and FQDN firewall, with its
contracts proved by Verus.

- `src/classifier.rs`, `src/watcher_classifier.rs`: which Ethernet frames the
  traffic-control classifiers capture (UDP responses from port 53) and the
  event each captured frame yields.
- `src/dns.rs`: decoding a captured DNS response (header, QNAME, A/AAAA
  answers) into a reusable record.
- `src/policy.rs`: the FQDN policy that turns resolutions of allowed domains
  into reachable addresses.
- `src/commit_log.rs`, `src/ingestor.rs`, `src/reporter.rs`: the record
  framing of the commit log, the log messages, and the metrics page text.
- `src/cilium_common.rs`, `src/watcher_common.rs`, `src/text.rs`: the shared
  data model and text formatting.
- `app/`: the daemon around the library: loading and attaching the eBPF
  program, ring-buffer readers, channels, files, sockets and protobuf
  encoding.
