//! Verified decision logic of an eBPF DNS observer and FQDN firewall: the
//! traffic-control classifiers, the DNS response decoder, the FQDN policy,
//! and the text and framing of the logs and metrics.
pub mod text;
pub mod cilium_common;
pub mod dns;
pub mod classifier;
pub mod watcher_common;
pub mod watcher_classifier;
pub mod policy;
pub mod commit_log;
pub mod ingestor;
pub mod reporter;
