use servw::cgi_handler::CgiHandler;
use servw::config::{Config, ConfigError};

#[test]
fn test_config_parsing() {
    let config_content = "\n\
# Port to listen on\n\
listen 3000\n\
# Deny specific files and extensions\n\
deny_files index.html other.html\n\
deny_extensions html js css\n\
# Index file to server\n\
index index.php\n\
pass /usr/bin/php\n\
# Load balancing algorithm\n\
alb_algo roundrobin\n\
servers 127.0.0.1:3001 127.0.0.1:3002\n\
# Root directory\n\
root .\n\
# Deny specific directories\n\
deny_directories .git .svn\n\
# Allow specific directories\n\
allow_directories assets/images assets/css\n";

    let mut config = Config::new();
    config.parse(config_content).unwrap();

    assert_eq!(config.listen(), "3000");
    assert_eq!(config.index(), "index.php");
    assert_eq!(config.pass(), "/usr/bin/php");
    assert_eq!(
        config.deny_files(),
        &vec!["index.html".to_string(), "other.html".to_string()]
    );
    assert_eq!(
        config.deny_extensions(),
        &vec!["html".to_string(), "js".to_string(), "css".to_string()]
    );
    assert_eq!(config.lb_algo(), "roundrobin");
    assert_eq!(
        config.servers(),
        vec!["127.0.0.1:3001".to_string(), "127.0.0.1:3002".to_string()]
    );
    assert_eq!(config.root(), ".");
    assert_eq!(
        config.deny_directories(),
        &vec![".git".to_string(), ".svn".to_string()]
    );
    assert_eq!(
        config.allow_directories(),
        &vec!["assets/images".to_string(), "assets/css".to_string()]
    );
}

#[test]
fn test_config_defaults() {
    let config = Config::new();
    assert_eq!(config.listen(), "3000");
    assert_eq!(config.index(), "index.php");
    assert_eq!(config.pass(), "");
    assert_eq!(config.lb_algo(), "none");
    assert_eq!(config.root(), ".");
    assert!(config.servers().is_empty());
    assert!(config.deny_files().is_empty());
}

#[test]
fn test_config_rejects_unknown_directive() {
    let mut config = Config::new();
    let r = config.parse("bogus value\n");
    assert_eq!(r.err(), Some(ConfigError::UnknownDirective));
}

#[test]
fn test_config_rejects_bad_algorithm() {
    let mut config = Config::new();
    let r = config.parse("alb_algo fastest\n");
    assert_eq!(r.err(), Some(ConfigError::InvalidAlgorithm));
}

#[test]
fn test_config_rejects_wrong_value_count() {
    let mut config = Config::new();
    assert_eq!(
        config.parse("listen\n").err(),
        Some(ConfigError::InvalidDirective)
    );
    let mut config = Config::new();
    assert_eq!(
        config.parse("listen 80 81\n").err(),
        Some(ConfigError::InvalidDirective)
    );
    let mut config = Config::new();
    assert_eq!(
        config.parse("servers\n").err(),
        Some(ConfigError::InvalidDirective)
    );
}

#[test]
fn test_config_accepts_all_algorithm_tokens() {
    for tok in ["none", "roundrobin", "leastconn", "source", "off"] {
        let mut config = Config::new();
        let line = format!("alb_algo {}\n", tok);
        assert!(config.parse(&line).is_ok());
        assert_eq!(config.lb_algo(), tok);
    }
}

#[test]
fn test_cgi_handler_fixed_response() {
    let handler = CgiHandler::new(Config::new());
    let response = handler.response();
    assert!(response.starts_with("HTTP/1.1 200 OK\r\n"));
    assert!(response.ends_with("\r\n\r\nHello World!\n"));
    assert!(response.contains("Content-Length: 12"));
}
