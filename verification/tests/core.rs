use toolbox_core::banner::Banner;
use toolbox_core::config::{Config, DiscoverConfig, ScanConfig};
use toolbox_core::version;
use toolbox_core::Target;

#[test]
fn version_is_set() {
    assert!(!version().is_empty());
}

#[test]
fn target_wraps_host() {
    let t = Target::from_host("scanme.example");
    assert_eq!(t.0, "scanme.example".to_string());
}

#[test]
fn banner_new_keeps_fields() {
    let b = Banner::new("ssh".to_string(), 22, "SSH-2.0-OpenSSH_9.6".to_string());
    assert_eq!(b.protocol, "ssh");
    assert_eq!(b.port, 22);
    assert_eq!(b.summary, "SSH-2.0-OpenSSH_9.6");
}

#[test]
fn config_defaults_are_empty() {
    let c = Config::default();
    assert!(c.scan.is_none());
    assert!(c.discover.is_none());
    let s = ScanConfig::default();
    assert!(s.ports.is_none());
    assert!(s.qps.is_none());
    assert!(s.retries.is_none());
    let d = DiscoverConfig::default();
    assert!(d.ports.is_none());
    assert!(d.concurrency.is_none());
}
