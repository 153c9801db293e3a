use vstats::config::{AppConfig, ConfigError, RemoteServer, SiteSettings, INITIAL_ADMIN_PASSWORD};

#[test]
fn fresh_config_fields() {
    let c = AppConfig::with_admin_hash("h".to_string());
    assert_eq!(c.admin_password_hash, "h");
    assert!(c.servers.is_empty());
    assert_eq!(c.site_settings.site_name, "xProb Dashboard");
    assert_eq!(c.site_settings.site_description, "Real-time Server Monitoring");
    assert!(c.site_settings.social_links.is_empty());
}

#[test]
fn default_config_hashes_the_initial_password() {
    let c = AppConfig::default_config().unwrap();
    assert_ne!(c.admin_password_hash, INITIAL_ADMIN_PASSWORD);
    assert!(bcrypt::verify(INITIAL_ADMIN_PASSWORD, &c.admin_password_hash).unwrap());
    assert_eq!(c.site_settings.site_name, "xProb Dashboard");
    let _ = ConfigError::Hashing;
}

#[test]
fn site_settings_default_is_empty() {
    let s = SiteSettings::default();
    assert!(s.site_name.is_empty() && s.site_description.is_empty() && s.social_links.is_empty());
}

#[test]
fn server_lookup_by_id() {
    let mut c = AppConfig::with_admin_hash("h".to_string());
    for id in ["a", "b"] {
        c.servers.push(RemoteServer {
            id: id.to_string(),
            name: id.to_uppercase(),
            url: String::new(),
            location: "x".to_string(),
            provider: "y".to_string(),
            token: "t".to_string(),
        });
    }
    assert_eq!(c.server_index(&"b".to_string()), Some(1));
    assert_eq!(c.server_index(&"c".to_string()), None);
}
