use cyberark_rdp::config::{
    default_height, default_resolution, default_true, default_width, resolutions, Cache, Config,
    Preferences,
};

#[test]
fn config_defaults() {
    let c = Config::default();
    assert!(c.cert_ignore);
    assert!(!c.resize);
    assert_eq!(c.default_width, 1280);
    assert_eq!(c.default_height, 1024);
    assert_eq!(c.preferences.resolution, "1440x900");
    assert!(!c.preferences.clipboard);
    assert!(!c.preferences.map_drives);
    assert!(!c.preferences.burn_after_reading);
    assert!(c.cache.password.is_none());
    assert!(c.cache.password_cached_at.is_none());
    assert!(default_true());
    assert_eq!(default_width(), 1280);
    assert_eq!(default_height(), 1024);
    assert_eq!(default_resolution(), "1440x900");
    let p = Preferences::default();
    assert_eq!(p.resolution, "1440x900");
    let cache = Cache::default();
    assert!(cache.password.is_none());
}

#[test]
fn parse_resolution_accepts_width_x_height() {
    assert_eq!(Config::parse_resolution("1920x1080"), Some((1920, 1080)));
    assert_eq!(Config::parse_resolution("1440x900"), Some((1440, 900)));
    assert_eq!(Config::parse_resolution("+1x+2"), Some((1, 2)));
    assert_eq!(Config::parse_resolution("65535x0"), Some((65535, 0)));
}

#[test]
fn parse_resolution_rejects_other_text() {
    assert_eq!(Config::parse_resolution(""), None);
    assert_eq!(Config::parse_resolution("1920"), None);
    assert_eq!(Config::parse_resolution("1920x"), None);
    assert_eq!(Config::parse_resolution("x1080"), None);
    assert_eq!(Config::parse_resolution("1x2x3"), None);
    assert_eq!(Config::parse_resolution("65536x10"), None);
    assert_eq!(Config::parse_resolution("1920X1080"), None);
    assert_eq!(Config::parse_resolution(" 1920x1080"), None);
    assert_eq!(Config::parse_resolution("-1x2"), None);
}

#[test]
fn every_preset_parses() {
    let presets = resolutions();
    assert_eq!(presets.len(), 11);
    for p in presets {
        let (w, h) = Config::parse_resolution(p).unwrap();
        assert_eq!(format!("{}x{}", w, h), p);
    }
}

#[test]
fn apply_resolution_sets_desktop_size() {
    let mut c = Config::default();
    c.apply_resolution("800x600");
    assert_eq!((c.default_width, c.default_height), (800, 600));
    c.apply_resolution("bogus");
    assert_eq!((c.default_width, c.default_height), (800, 600));
    assert_eq!(c.preferences.resolution, "1440x900");
}
