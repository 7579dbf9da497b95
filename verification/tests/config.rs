use djdrop::config::{Config, PoolCredentialRefs, PoolsConfig, SearchMode, SearchPriority};

#[test]
fn default_config_has_auto_download_true() {
    let dir = dirs::audio_dir().unwrap_or_default().join("djdrop").to_string_lossy().into_owned();
    let c = Config::with_output_dir(dir.clone());
    assert!(c.auto_download);
    assert_eq!(c.search_mode, SearchMode::BestMatch);
    assert_eq!(c.search_priority, SearchPriority::Pools);
    assert_eq!(c.output_dir, dir);
    assert_eq!((c.bpm_range_min, c.bpm_range_max), (None, None));
}

#[test]
fn default_pools_have_no_references() {
    let p = PoolsConfig::default();
    for r in [&p.bpmsupreme, &p.clubkillers, &p.livedjservice, &p.qobuz] {
        assert!(r.username_ref.is_empty() && r.password_ref.is_empty());
    }
    let r = PoolCredentialRefs::default();
    assert!(r.username_ref.is_empty() && r.password_ref.is_empty());
}
