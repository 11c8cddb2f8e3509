use rustyhole::config::Config;

#[test]
fn default_settings() {
    let config = Config::default();
    assert_eq!(config.upstream_dns, "8.8.8.8:53");
    assert_eq!(
        config.blocklist_urls,
        vec!["https://raw.githubusercontent.com/StevenBlack/hosts/master/hosts".to_string()]
    );
    assert!(config.whitelist.is_empty());
    assert_eq!(config.web_port, 8080);
    assert_eq!(config.dns_bind, "0.0.0.0:53");
}

#[test]
fn settings_can_be_copied() {
    let mut config = Config::default();
    config.web_port = 9090;
    config.whitelist.push("good.example".to_string());
    let copy = config.clone();
    assert_eq!(copy.web_port, 9090);
    assert_eq!(copy.whitelist, vec!["good.example".to_string()]);
    assert_eq!(copy.upstream_dns, config.upstream_dns);
    assert_eq!(copy.dns_bind, config.dns_bind);
    assert_eq!(copy.blocklist_urls, config.blocklist_urls);
}
