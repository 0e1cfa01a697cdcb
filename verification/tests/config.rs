use hosts_updater_rs::config::{
    default_backup, default_interval, validate_config, Config, ConfigError,
};
use hosts_updater_rs::scheduler::Scheduler;
use hosts_updater_rs::validate::{validate_sources, SourceDocument, ValidationError};

fn config_with(sources: Vec<&str>) -> Config {
    Config {
        update_interval_hours: default_interval(),
        hosts_sources: sources.into_iter().map(|s| s.to_string()).collect(),
        backup_before_update: default_backup(),
        backup_path: None,
    }
}

#[test]
fn defaults_are_two_hours_and_backup_on() {
    assert_eq!(default_interval(), 2);
    assert!(default_backup());
}

#[test]
fn config_with_http_and_https_sources_is_valid() {
    let c = config_with(vec!["https://example.com/hosts", "http://mirror.example/h"]);
    assert!(validate_config(&c).is_ok());
}

#[test]
fn config_without_sources_is_rejected() {
    let c = config_with(vec![]);
    assert!(matches!(validate_config(&c).unwrap_err(), ConfigError::EmptySources));
}

#[test]
fn config_with_other_scheme_is_rejected_with_the_url() {
    let c = config_with(vec!["https://ok.example", "ftp://bad.example", "http://ok.example"]);
    match validate_config(&c).unwrap_err() {
        ConfigError::InvalidUrl { url } => assert_eq!(url, "ftp://bad.example"),
        other => panic!("unexpected error: {:?}", other),
    }
}

#[test]
fn scheduler_interval_is_hours_in_seconds() {
    let s = Scheduler::new(2);
    assert_eq!(s.interval(), 7200);
    let hourly = Scheduler::new(1);
    assert_eq!(hourly.interval(), 3600);
}

#[test]
fn source_validation_aborts_on_first_bad_document() {
    let docs = vec![
        SourceDocument { origin: "a".to_string(), raw: "127.0.0.1 localhost".to_string() },
        SourceDocument { origin: "b".to_string(), raw: "broken".to_string() },
        SourceDocument { origin: "c".to_string(), raw: "".to_string() },
    ];
    match validate_sources(&docs).unwrap_err() {
        ValidationError::LineValidationError { origin, .. } => assert_eq!(origin, "b"),
        other => panic!("unexpected error: {:?}", other),
    }
    let good = vec![SourceDocument {
        origin: "a".to_string(),
        raw: "127.0.0.1 localhost".to_string(),
    }];
    assert!(validate_sources(&good).is_ok());
}
