use ramseynet::config::{get_value, set_value, ConfigError, ConfigValue, MineGraphConfig};

fn text(v: Option<ConfigValue>) -> String {
    match v {
        Some(ConfigValue::Text(t)) => t,
        other => panic!("expected text, got {other:?}"),
    }
}

#[test]
fn defaults() {
    let c = MineGraphConfig::default();
    assert_eq!(c.server_url, "http://localhost:3001");
    assert_eq!(c.strategy, "tree2");
    assert_eq!((c.k, c.ell, c.n, c.beam_width, c.max_depth), (5, 5, 25, 80, 12));
    assert_eq!(f64::from_bits(c.sample_bias_bits), 0.8);
    assert!(c.signing_key.is_none());
}

#[test]
fn set_then_get() {
    let mut c = MineGraphConfig::default();
    set_value(&mut c, "k", "+007").unwrap();
    assert_eq!(c.k, 7);
    assert_eq!(text(get_value(&c, "k")), "7");
    set_value(&mut c, "server_url", "http://x").unwrap();
    assert_eq!(text(get_value(&c, "server_url")), "http://x");
    assert_eq!(get_value(&c, "signing_key"), None);
    set_value(&mut c, "signing_key", "key.json").unwrap();
    assert_eq!(text(get_value(&c, "signing_key")), "key.json");
    set_value(&mut c, "max_depth", "4294967295").unwrap();
    assert_eq!(text(get_value(&c, "max_depth")), "4294967295");
    assert_eq!(
        get_value(&c, "sample_bias"),
        Some(ConfigValue::FloatBits(0.8f64.to_bits()))
    );
    assert_eq!(get_value(&c, "nope"), None);
}

#[test]
fn set_errors_leave_config_unchanged() {
    let mut c = MineGraphConfig::default();
    assert_eq!(
        set_value(&mut c, "beam_width", "4294967296"),
        Err(ConfigError::NotAnInteger("beam_width".to_string()))
    );
    assert_eq!(
        set_value(&mut c, "n", "-3"),
        Err(ConfigError::NotAnInteger("n".to_string()))
    );
    assert_eq!(set_value(&mut c, "n", ""), Err(ConfigError::NotAnInteger("n".to_string())));
    assert_eq!(set_value(&mut c, "n", "+"), Err(ConfigError::NotAnInteger("n".to_string())));
    assert_eq!(
        set_value(&mut c, "colour", "red"),
        Err(ConfigError::UnknownKey("colour".to_string()))
    );
    assert_eq!(
        set_value(&mut c, "sample_bias", "0.3"),
        Err(ConfigError::FloatSetting("sample_bias".to_string()))
    );
    assert_eq!((c.beam_width, c.n), (80, 25));
}
