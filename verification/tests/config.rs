use lrc_sync::config::{parse_bool, parse_u64, parse_usize, Config, ConfigError, OrphanAction};

fn vars(pairs: &[(&str, &str)]) -> Vec<(String, String)> {
    pairs
        .iter()
        .map(|(name, value)| (name.to_string(), value.to_string()))
        .collect()
}

fn message(pairs: &[(&str, &str)]) -> String {
    Config::from_env(&vars(pairs)).unwrap_err().message()
}

#[test]
fn defaults_hold_without_variables() {
    let config = Config::from_env(&vars(&[("HOME", "/root")])).unwrap();
    assert_eq!(config.music_dir, "/music");
    assert_eq!(config.db_file, "/config/lyrics.db");
    assert_eq!(config.concurrency, 8);
    assert!(config.clean_fallback);
    assert_eq!(config.retry_not_found_days, 7);
    assert_eq!(config.request_interval_ms, 750);
    assert_eq!(config.request_timeout_secs, 30);
    assert_eq!(config.orphan_action, OrphanAction::Keep);
    assert!(!config.follow_symlinks);
    assert_eq!(config.fallback_interval_secs, 43_200);
}

#[test]
fn variables_are_read() {
    let config = Config::from_env(&vars(&[
        ("LRCGET_MUSIC_PATH", "/srv/music"),
        ("LRCGET_DB_PATH", "/tmp/x.db"),
        ("LRCSYNC_CONCURRENCY", " 128 "),
        ("LRCSYNC_CLEAN_FALLBACK", "Off"),
        ("LRCSYNC_RETRY_NOT_FOUND_DAYS", "3650"),
        ("LRCSYNC_REQUEST_INTERVAL_MS", "0"),
        ("LRCSYNC_REQUEST_TIMEOUT_SECONDS", "5"),
        ("LRCSYNC_ORPHAN_ACTION", " Quarantine\n"),
        ("LRCSYNC_FOLLOW_SYMLINKS", "YES"),
        ("LRCSYNC_FALLBACK_SCAN_SECONDS", "60"),
    ]))
    .unwrap();
    assert_eq!(config.music_dir, "/srv/music");
    assert_eq!(config.db_file, "/tmp/x.db");
    assert_eq!(config.concurrency, 128);
    assert!(!config.clean_fallback);
    assert_eq!(config.retry_not_found_days, 3650);
    assert_eq!(config.request_interval_ms, 0);
    assert_eq!(config.request_timeout_secs, 5);
    assert_eq!(config.orphan_action, OrphanAction::Quarantine);
    assert!(config.follow_symlinks);
    assert_eq!(config.fallback_interval_secs, 60);
    assert_eq!(config.clone().db_file, "/tmp/x.db");
}

#[test]
fn paths_have_names_of_their_own() {
    let config = Config::from_env(&vars(&[
        ("LRCSYNC_DB_PATH", "./config"),
        ("LRCSYNC_MUSIC_DIR", "./music"),
    ]))
    .unwrap();
    assert_eq!(config.db_file, "/config/lyrics.db");
    assert_eq!(config.music_dir, "/music");
    let config = Config::from_env(&vars(&[("LRCGET_MUSIC_PATH", "")])).unwrap();
    assert_eq!(config.music_dir, "");
}

#[test]
fn blank_settings_count_as_unset() {
    let config = Config::from_env(&vars(&[
        ("LRCSYNC_CONCURRENCY", "  "),
        ("LRCSYNC_CLEAN_FALLBACK", ""),
        ("LRCSYNC_ORPHAN_ACTION", " "),
    ]))
    .unwrap();
    assert_eq!(config.concurrency, 8);
    assert!(config.clean_fallback);
    assert_eq!(config.orphan_action, OrphanAction::Keep);
}

#[test]
fn numbers_out_of_bounds_are_refused() {
    assert_eq!(
        message(&[("LRCSYNC_CONCURRENCY", "0")]),
        "LRCSYNC_CONCURRENCY must be between 1 and 128, got 0"
    );
    assert_eq!(
        message(&[("LRCSYNC_FALLBACK_SCAN_SECONDS", "604801")]),
        "LRCSYNC_FALLBACK_SCAN_SECONDS must be between 60 and 604800, got 604801"
    );
    assert_eq!(
        message(&[("LRCSYNC_REQUEST_INTERVAL_MS", "60001")]),
        "LRCSYNC_REQUEST_INTERVAL_MS must be between 0 and 60000, got 60001"
    );
}

#[test]
fn words_for_numbers_are_refused() {
    assert_eq!(
        message(&[("LRCSYNC_RETRY_NOT_FOUND_DAYS", "week")]),
        "LRCSYNC_RETRY_NOT_FOUND_DAYS must be an integer"
    );
    assert_eq!(
        message(&[("LRCSYNC_REQUEST_TIMEOUT_SECONDS", "-1")]),
        "LRCSYNC_REQUEST_TIMEOUT_SECONDS must be an integer"
    );
}

#[test]
fn odd_booleans_are_refused() {
    assert_eq!(
        message(&[("LRCSYNC_FOLLOW_SYMLINKS", "maybe")]),
        "LRCSYNC_FOLLOW_SYMLINKS must be a boolean"
    );
}

#[test]
fn unknown_actions_are_quoted() {
    assert_eq!(
        message(&[("LRCSYNC_ORPHAN_ACTION", " Burn \"it\" ")]),
        "invalid LRCSYNC_ORPHAN_ACTION=\"burn \\\"it\\\"\"; expected keep, reconcile, quarantine, or delete"
    );
}

#[test]
fn the_first_wrong_setting_is_reported() {
    assert_eq!(
        message(&[
            ("LRCSYNC_FOLLOW_SYMLINKS", "maybe"),
            ("LRCSYNC_CLEAN_FALLBACK", "perhaps"),
        ]),
        "LRCSYNC_CLEAN_FALLBACK must be a boolean"
    );
}

#[test]
fn the_first_of_two_variables_counts() {
    let twice = vars(&[("N", "1"), ("N", "2")]);
    assert_eq!(parse_u64(&twice, "N", 9, 0, 9).unwrap(), 1);
}

#[test]
fn actions_are_read_in_any_case() {
    assert_eq!(OrphanAction::parse("").unwrap(), OrphanAction::Keep);
    assert_eq!(OrphanAction::parse("keep").unwrap(), OrphanAction::Keep);
    assert_eq!(OrphanAction::parse("RECONCILE").unwrap(), OrphanAction::Reconcile);
    assert_eq!(OrphanAction::parse("quarantine").unwrap(), OrphanAction::Quarantine);
    assert_eq!(OrphanAction::parse(" delete ").unwrap(), OrphanAction::Delete);
    match OrphanAction::parse("Drop") {
        Err(ConfigError::InvalidOrphanAction { word }) => assert_eq!(word, "drop"),
        other => panic!("{other:?}"),
    }
}

#[test]
fn single_settings_are_parsed() {
    let env = vars(&[("A", "1"), ("B", "n"), ("C", "17")]);
    assert!(parse_bool(&env, "A", false).unwrap());
    assert!(!parse_bool(&env, "B", true).unwrap());
    assert!(parse_bool(&env, "X", true).unwrap());
    assert!(parse_bool(&env, "C", true).is_err());
    assert_eq!(parse_usize(&env, "C", 1, 0, 20).unwrap(), 17);
    assert_eq!(parse_usize(&env, "X", 1, 0, 20).unwrap(), 1);
    assert_eq!(parse_u64(&env, "C", 1, 17, 17).unwrap(), 17);
    match parse_u64(&env, "C", 1, 18, 20) {
        Err(ConfigError::OutOfRange { name, min, max, value }) => {
            assert_eq!((name, min, max, value), ("C", 18, 20, 17));
        }
        other => panic!("{other:?}"),
    }
}
