use alexa_cli::config::{join_path_exec, Config, ConfigError, Region, Voice};

#[test]
fn region_gateway_hosts() {
    assert_eq!(Region::Na.gateway_host(), "alexa.na.gateway.devices.a2z.com");
    assert_eq!(Region::Eu.gateway_host(), "alexa.eu.gateway.devices.a2z.com");
    assert_eq!(Region::Fe.gateway_host(), "alexa.fe.gateway.devices.a2z.com");
}

#[test]
fn region_from_str_defaults_to_na() {
    assert!(matches!(Region::from_str_lenient("eu"), Region::Eu));
    assert!(matches!(Region::from_str_lenient("FE"), Region::Fe));
    assert!(matches!(Region::from_str_lenient("garbage"), Region::Na));
}

#[test]
fn is_complete_requires_creds() {
    // Use default() rather than load_or_default() so the test is independent
    // of any real ~/.alexa/config.json that may exist on the host.
    let mut cfg = Config::default();
    assert!(!cfg.is_complete());
    cfg.client_id = "a".into();
    cfg.client_secret = "b".into();
    cfg.product_id = "c".into();
    assert!(cfg.is_complete());
}

#[test]
fn defaults() {
    let cfg = Config::default();
    assert!(matches!(cfg.region, Region::Na));
    assert!(matches!(cfg.voice, Voice::Piper));
    assert_eq!(cfg.model, "base.en");
    assert!(cfg.save_transcription);
    assert_eq!(cfg.client_id, "");
}

#[test]
fn load_requires_complete_settings() {
    assert!(matches!(Config::load(None), Err(ConfigError::MissingCredentials)));
    let mut cfg = Config::default();
    cfg.client_id = "a".into();
    cfg.client_secret = "b".into();
    cfg.product_id = "c".into();
    let loaded = Config::load(Some(cfg)).ok().unwrap();
    assert_eq!(loaded.product_id, "c");
    assert_eq!(
        ConfigError::MissingCredentials.message(),
        "missing AVS credentials — run `alexa configure`"
    );
}

#[test]
fn load_or_default_falls_back() {
    assert_eq!(Config::load_or_default(None).model, "base.en");
    let mut cfg = Config::default();
    cfg.model = "tiny.en".into();
    assert_eq!(Config::load_or_default(Some(cfg)).model, "tiny.en");
}

#[test]
fn paths_are_joined_like_path_join() {
    assert_eq!(join_path_exec("/home/u", ".alexa"), "/home/u/.alexa");
    assert_eq!(join_path_exec("/home/u/", ".alexa"), "/home/u/.alexa");
    assert_eq!(join_path_exec("", ".alexa"), ".alexa");
    assert!(Config::path().ends_with(".alexa/config.json"));
    assert!(Config::models_dir().ends_with(".alexa/models"));
}
